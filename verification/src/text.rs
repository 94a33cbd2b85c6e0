//! How text begins, and the numbers written in it.

use vstd::prelude::*;
use vstd::string::StrSliceExecFns;

verus! {

/// Whether `text` begins with `prefix`.
pub fn begins_with(text: &str, prefix: &str) -> (r: bool)
    ensures
        r == prefix@.is_prefix_of(text@),
{
    let n = prefix.unicode_len();
    if text.unicode_len() < n {
        return false;
    }
    let mut i: usize = 0;
    while i < n
        invariant
            i <= n,
            n == prefix@.len(),
            n <= text@.len(),
            forall|j: int| 0 <= j < i ==> prefix@[j] == text@[j],
        decreases n - i,
    {
        if prefix.get_char(i) != text.get_char(i) {
            assert(prefix@[i as int] != text@.subrange(0, n as int)[i as int]);
            return false;
        }
        i += 1;
    }
    assert(prefix@ =~= text@.subrange(0, n as int));
    true
}

/// Whether a character is a digit.
pub open spec fn is_digit(c: char) -> bool {
    '0' <= c && c <= '9'
}

/// What a digit counts.
pub open spec fn digit(c: char) -> nat {
    (c as int - '0' as int) as nat
}

/// Whether there are only digits.
pub open spec fn all_digits(text: Seq<char>) -> bool {
    forall|i: int| 0 <= i < text.len() ==> is_digit(#[trigger] text[i])
}

/// The number that digits make.
pub open spec fn digits_value(text: Seq<char>) -> nat
    decreases text.len(),
{
    if text.len() == 0 {
        0
    } else {
        digits_value(text.drop_last()) * 10 + digit(text.last())
    }
}

/// The digits of a number: a plus sign may go before them.
pub open spec fn unsigned(text: Seq<char>) -> Seq<char> {
    if text.len() > 0 && text[0] == '+' {
        text.skip(1)
    } else {
        text
    }
}

/// The number that a text is, if it is one and no larger than `max`.
pub open spec fn number_in(text: Seq<char>, max: nat) -> Option<nat> {
    let digits = unsigned(text);
    if digits.len() > 0 && all_digits(digits) && digits_value(digits) <= max {
        Some(digits_value(digits))
    } else {
        None
    }
}

/// The number that the text is from its place `from` on.
pub fn number_from(text: &str, from: usize, max: u32) -> (r: Option<u32>)
    requires
        from <= text@.len(),
    ensures
        match r {
            Some(n) => number_in(text@.skip(from as int), max as nat) == Some(n as nat),
            None => number_in(text@.skip(from as int), max as nat) is None,
        },
{
    let n = text.unicode_len();
    let mut start = from;
    if from < n && text.get_char(from) == '+' {
        start = from + 1;
    }
    let ghost whole = unsigned(text@.skip(from as int));
    assert(whole =~= text@.skip(start as int));
    if start == n {
        return None;
    }
    let mut value: u64 = 0;
    let mut over = false;
    let mut i = start;
    while i < n
        invariant
            start <= i <= n,
            n == text@.len(),
            whole == text@.skip(start as int),
            whole == unsigned(text@.skip(from as int)),
            forall|j: int| 0 <= j < i - start ==> is_digit(#[trigger] whole[j]),
            over == (digits_value(whole.take(i - start)) > max),
            !over ==> value == digits_value(whole.take(i - start)),
            value <= max,
        decreases n - i,
    {
        let c = text.get_char(i);
        let ghost before = whole.take(i - start);
        let ghost after = whole.take(i + 1 - start);
        assert(c == whole[i - start]);
        assert(after.drop_last() =~= before);
        assert(after.last() == c);
        if c < '0' || c > '9' {
            assert(!is_digit(whole[i - start]));
            return None;
        }
        if !over {
            let next: u64 = value * 10 + (c as u64 - 48);
            if next > max as u64 {
                over = true;
            } else {
                value = next;
            }
        }
        i += 1;
    }
    assert(whole.take(n - start) =~= whole);
    assert(all_digits(whole));
    if over {
        None
    } else {
        Some(value as u32)
    }
}

} // verus!
