//! Tables keyed by names, in the order in which the names came.

use vstd::prelude::*;
use vstd::utf8::{encode_utf8, encode_utf8_decode_utf8};

verus! {

/// Values by name. No name occurs twice.
#[derive(Debug)]
pub struct Table<V> {
    pub keys: Vec<String>,
    pub values: Vec<V>,
}

/// Whether two names are the same text.
pub fn same_text(a: &str, b: &str) -> (r: bool)
    ensures
        r == (a@ == b@),
{
    let left = a.as_bytes();
    let right = b.as_bytes();
    proof {
        encode_utf8_decode_utf8(a@);
        encode_utf8_decode_utf8(b@);
    }
    if left.len() != right.len() {
        return false;
    }
    let mut i: usize = 0;
    while i < left.len()
        invariant
            i <= left.len(),
            left.len() == right.len(),
            left@ == encode_utf8(a@),
            right@ == encode_utf8(b@),
            forall|j: int| 0 <= j < i ==> left@[j] == right@[j],
        decreases left.len() - i,
    {
        if left[i] != right[i] {
            return false;
        }
        i += 1;
    }
    assert(left@ =~= right@);
    true
}

/// Whether the bytes `a` come before `b`, or are the same.
pub open spec fn bytes_le(a: Seq<u8>, b: Seq<u8>) -> bool
    decreases a.len(),
{
    if a.len() == 0 {
        true
    } else if b.len() == 0 {
        false
    } else if a[0] != b[0] {
        a[0] < b[0]
    } else {
        bytes_le(a.skip(1), b.skip(1))
    }
}

/// Whether the name `a` comes before `b`, byte by byte, or is the same.
pub open spec fn text_le(a: Seq<char>, b: Seq<char>) -> bool {
    bytes_le(encode_utf8(a), encode_utf8(b))
}

/// Whether the name `a` comes before `b`, byte by byte, or is the same.
pub fn comes_before(a: &str, b: &str) -> (r: bool)
    ensures
        r == text_le(a@, b@),
{
    let left = a.as_bytes();
    let right = b.as_bytes();
    let mut i: usize = 0;
    assert(left@.skip(0) =~= left@);
    assert(right@.skip(0) =~= right@);
    while i < left.len() && i < right.len()
        invariant
            i <= left.len(),
            i <= right.len(),
            left@ == encode_utf8(a@),
            right@ == encode_utf8(b@),
            bytes_le(left@, right@) == bytes_le(left@.skip(i as int), right@.skip(i as int)),
        decreases left.len() - i,
    {
        if left[i] != right[i] {
            return left[i] < right[i];
        }
        assert(left@.skip(i as int).skip(1) =~= left@.skip(i + 1));
        assert(right@.skip(i as int).skip(1) =~= right@.skip(i + 1));
        i += 1;
    }
    i == left.len()
}

/// Whether the order of the bytes goes from `a` over `b` to `c`.
pub proof fn lemma_bytes_le_trans(a: Seq<u8>, b: Seq<u8>, c: Seq<u8>)
    requires
        bytes_le(a, b),
        bytes_le(b, c),
    ensures
        bytes_le(a, c),
    decreases a.len(),
{
    if a.len() > 0 && b.len() > 0 && c.len() > 0 && a[0] == b[0] && b[0] == c[0] {
        lemma_bytes_le_trans(a.skip(1), b.skip(1), c.skip(1));
    }
}

/// Of two runs of bytes one always comes before the other, or is the same.
pub proof fn lemma_bytes_le_total(a: Seq<u8>, b: Seq<u8>)
    ensures
        bytes_le(a, b) || bytes_le(b, a),
    decreases a.len(),
{
    if a.len() > 0 && b.len() > 0 && a[0] == b[0] {
        lemma_bytes_le_total(a.skip(1), b.skip(1));
    }
}

/// Where `key` stands among `keys`.
pub open spec fn place_of(keys: Seq<String>, key: Seq<char>) -> int {
    choose|i: int| 0 <= i < keys.len() && (#[trigger] keys[i])@ == key
}

/// Whether `key` is one of `keys`.
pub open spec fn has_key(keys: Seq<String>, key: Seq<char>) -> bool {
    exists|i: int| 0 <= i < keys.len() && (#[trigger] keys[i])@ == key
}

/// Whether no name occurs twice.
pub open spec fn distinct(keys: Seq<String>) -> bool {
    forall|i: int, j: int|
        0 <= i < j < keys.len() ==> (#[trigger] keys[i])@ != (#[trigger] keys[j])@
}

impl<V> View for Table<V> {
    type V = Map<Seq<char>, V>;

    open spec fn view(&self) -> Map<Seq<char>, V> {
        Map::new(
            |k: Seq<char>| has_key(self.keys@, k),
            |k: Seq<char>| self.values@[place_of(self.keys@, k)],
        )
    }
}

impl<V> Table<V> {
    /// Each name has one value, and occurs once.
    pub open spec fn wf(&self) -> bool {
        &&& self.keys@.len() == self.values@.len()
        &&& distinct(self.keys@)
    }

    /// The names, in their order.
    pub open spec fn names(&self) -> Seq<Seq<char>> {
        self.keys@.map_values(|k: String| k@)
    }

    /// The value at a place is that of the name there.
    pub proof fn lemma_at(&self, i: int)
        requires
            self.wf(),
            0 <= i < self.keys@.len(),
        ensures
            self@.contains_key(self.keys@[i]@),
            self@[self.keys@[i]@] == self.values@[i],
            place_of(self.keys@, self.keys@[i]@) == i,
    {
        let k = self.keys@[i]@;
        assert(has_key(self.keys@, k));
        let p = place_of(self.keys@, k);
        assert(0 <= p < self.keys@.len() && self.keys@[p]@ == k);
        if p < i {
            assert(self.keys@[p]@ != self.keys@[i]@);
        } else if i < p {
            assert(self.keys@[i]@ != self.keys@[p]@);
        }
    }

    /// A table without names.
    pub fn new() -> (r: Table<V>)
        ensures
            r.wf(),
            r@ == Map::<Seq<char>, V>::empty(),
            r.keys@.len() == 0,
    {
        let r = Table { keys: Vec::new(), values: Vec::new() };
        assert(r@ =~= Map::<Seq<char>, V>::empty());
        r
    }

    /// Where a name stands.
    pub fn find(&self, key: &str) -> (r: Option<usize>)
        requires
            self.wf(),
        ensures
            match r {
                Some(i) => i < self.keys@.len() && self.keys@[i as int]@ == key@,
                None => !has_key(self.keys@, key@),
            },
            r is Some <==> self@.contains_key(key@),
            r matches Some(i) ==> self@[key@] == self.values@[i as int],
    {
        let mut i: usize = 0;
        while i < self.keys.len()
            invariant
                i <= self.keys.len(),
                self.wf(),
                forall|j: int| 0 <= j < i ==> (#[trigger] self.keys@[j])@ != key@,
            decreases self.keys.len() - i,
        {
            if same_text(self.keys[i].as_str(), key) {
                proof {
                    self.lemma_at(i as int);
                }
                return Some(i);
            }
            i += 1;
        }
        None
    }

    /// Whether the table has a name.
    pub fn contains(&self, key: &str) -> (r: bool)
        requires
            self.wf(),
        ensures
            r == self@.contains_key(key@),
    {
        self.find(key).is_some()
    }

    /// The value of a name.
    pub fn get(&self, key: &str) -> (r: Option<&V>)
        requires
            self.wf(),
        ensures
            match r {
                Some(v) => self@.contains_key(key@) && *v == self@[key@],
                None => !self@.contains_key(key@),
            },
    {
        match self.find(key) {
            Some(i) => Some(&self.values[i]),
            None => None,
        }
    }

    /// Whether there are no names.
    pub fn is_empty(&self) -> (r: bool)
        requires
            self.wf(),
        ensures
            r == (self.keys@.len() == 0),
    {
        self.keys.len() == 0
    }

    /// Gives a name its value. A name that was there keeps its place; the result
    /// tells whether it was.
    pub fn insert(&mut self, key: String, value: V) -> (r: bool)
        requires
            old(self).wf(),
        ensures
            final(self).wf(),
            final(self)@ == old(self)@.insert(key@, value),
            r == old(self)@.contains_key(key@),
            r ==> final(self).keys@ == old(self).keys@,
            !r ==> final(self).keys@ == old(self).keys@.push(key) && final(self).values@ == old(
                self,
            ).values@.push(value),
            r ==> final(self).values@ == old(self).values@.update(
                place_of(old(self).keys@, key@),
                value,
            ),
    {
        let ghost before = *self;
        match self.find(key.as_str()) {
            Some(i) => {
                proof {
                    before.lemma_at(i as int);
                }
                self.values.set(i, value);
                assert(self@ =~= before@.insert(key@, value)) by {
                    assert forall|k: Seq<char>| #[trigger] self@.contains_key(k) implies self@[k]
                        == before@.insert(key@, value)[k] by {
                        let p = place_of(self.keys@, k);
                        self.lemma_at(p);
                        before.lemma_at(p);
                    }
                }
                true
            },
            None => {
                let ghost name = key@;
                self.keys.push(key);
                self.values.push(value);
                assert(self.keys@.drop_last() =~= before.keys@);
                let ghost n = before.keys@.len() as int;
                assert(self.wf()) by {
                    assert forall|i: int, j: int| 0 <= i < j < self.keys@.len() implies (
                    #[trigger] self.keys@[i])@ != (#[trigger] self.keys@[j])@ by {
                        assert(self.keys@[i] == before.keys@[i]);
                        if j < n {
                            assert(self.keys@[j] == before.keys@[j]);
                        } else {
                            assert(before.keys@[i]@ != name);
                        }
                    }
                }
                assert(self@ =~= before@.insert(name, value)) by {
                    assert forall|k: Seq<char>| self@.contains_key(k) <==> before@.insert(
                        name,
                        value,
                    ).contains_key(k) by {
                        if before@.contains_key(k) {
                            let p = place_of(before.keys@, k);
                            assert(self.keys@[p]@ == k);
                        }
                        assert(self.keys@[n]@ == name);
                        if self@.contains_key(k) {
                            let p = place_of(self.keys@, k);
                            if p < n {
                                assert(before.keys@[p]@ == k);
                            }
                        }
                    }
                    assert forall|k: Seq<char>| #[trigger] self@.contains_key(k) implies self@[k]
                        == before@.insert(name, value)[k] by {
                        let p = place_of(self.keys@, k);
                        self.lemma_at(p);
                        if p < n {
                            before.lemma_at(p);
                        }
                    }
                }
                false
            },
        }
    }

    /// Gives the name at a place another value.
    pub fn set_at(&mut self, i: usize, value: V)
        requires
            old(self).wf(),
            i < old(self).keys@.len(),
        ensures
            final(self).wf(),
            final(self).keys@ == old(self).keys@,
            final(self).values@ == old(self).values@.update(i as int, value),
            final(self)@ == old(self)@.insert(old(self).keys@[i as int]@, value),
    {
        let ghost before = *self;
        self.values.set(i, value);
        proof {
            before.lemma_at(i as int);
            assert(self@ =~= before@.insert(before.keys@[i as int]@, value)) by {
                assert forall|k: Seq<char>| #[trigger] self@.contains_key(k) implies self@[k]
                    == before@.insert(before.keys@[i as int]@, value)[k] by {
                    let p = place_of(self.keys@, k);
                    self.lemma_at(p);
                    before.lemma_at(p);
                }
            }
        }
    }

    /// The table with its names in their own order, byte by byte.
    pub open spec fn sorted(&self) -> bool {
        forall|i: int, j: int|
            0 <= i < j < self.keys@.len() ==> text_le(
                (#[trigger] self.keys@[i])@,
                (#[trigger] self.keys@[j])@,
            )
    }

    /// Gives a name its value in a table that is in order, and keeps it so.
    pub fn insert_sorted(&mut self, key: String, value: V)
        requires
            old(self).wf(),
            old(self).sorted(),
        ensures
            final(self).wf(),
            final(self).sorted(),
            final(self)@ == old(self)@.insert(key@, value),
    {
        let ghost before = *self;
        match self.find(key.as_str()) {
            Some(i) => {
                proof {
                    before.lemma_at(i as int);
                }
                self.values.set(i, value);
                assert(self@ =~= before@.insert(key@, value)) by {
                    assert forall|k: Seq<char>| #[trigger] self@.contains_key(k) implies self@[k]
                        == before@.insert(key@, value)[k] by {
                        let p = place_of(self.keys@, k);
                        self.lemma_at(p);
                        before.lemma_at(p);
                    }
                }
            },
            None => {
                let mut p: usize = 0;
                while p < self.keys.len() && comes_before(self.keys[p].as_str(), key.as_str())
                    invariant
                        p <= self.keys.len(),
                        *self == before,
                        forall|j: int|
                            0 <= j < p ==> text_le((#[trigger] self.keys@[j])@, key@),
                    decreases self.keys.len() - p,
                {
                    p += 1;
                }
                let ghost name = key@;
                self.keys.insert(p, key);
                self.values.insert(p, value);
                proof {
                    before.lemma_inserted(*self, p as int, name, value);
                }
            },
        }
    }

    proof fn lemma_inserted(&self, after: Table<V>, p: int, name: Seq<char>, value: V)
        requires
            self.wf(),
            self.sorted(),
            !has_key(self.keys@, name),
            0 <= p <= self.keys@.len(),
            after.keys@.len() == self.keys@.len() + 1,
            after.keys@ == self.keys@.insert(p, after.keys@[p]),
            after.keys@[p]@ == name,
            after.values@ == self.values@.insert(p, value),
            forall|j: int| 0 <= j < p ==> text_le((#[trigger] self.keys@[j])@, name),
            p < self.keys@.len() ==> !text_le(self.keys@[p]@, name),
        ensures
            after.wf(),
            after.sorted(),
            after@ == self@.insert(name, value),
    {
        let n = self.keys@.len() as int;
        let back = |i: int| if i < p { i } else { i - 1 };
        assert forall|i: int| 0 <= i <= n && i != p implies #[trigger] after.keys@[i]
            == self.keys@[back(i)] && after.values@[i] == self.values@[back(i)] by {}
        assert forall|i: int, j: int| 0 <= i < j < after.keys@.len() implies (
        #[trigger] after.keys@[i])@ != (#[trigger] after.keys@[j])@ && text_le(
            after.keys@[i]@,
            after.keys@[j]@,
        ) by {
            if i == p {
                assert(after.keys@[j] == self.keys@[j - 1]);
                let (a, b, c) = (name, self.keys@[p]@, self.keys@[j - 1]@);
                lemma_bytes_le_total(encode_utf8(a), encode_utf8(b));
                if p < j - 1 {
                    assert(text_le(self.keys@[p]@, self.keys@[j - 1]@));
                    lemma_bytes_le_trans(encode_utf8(a), encode_utf8(b), encode_utf8(c));
                }
            } else if j == p {
                assert(after.keys@[i] == self.keys@[i]);
            } else {
                let (a, b) = (back(i), back(j));
                assert(after.keys@[i] == self.keys@[a]);
                assert(after.keys@[j] == self.keys@[b]);
            }
        }
        assert(after@ =~= self@.insert(name, value)) by {
            assert forall|k: Seq<char>| after@.contains_key(k) <==> self@.insert(
                name,
                value,
            ).contains_key(k) by {
                if self@.contains_key(k) {
                    let q = place_of(self.keys@, k);
                    let i = if q < p { q } else { q + 1 };
                    assert(after.keys@[i] == self.keys@[q]);
                    assert(after.keys@[i]@ == k);
                }
                assert(after.keys@[p]@ == name);
                if after@.contains_key(k) {
                    let i = place_of(after.keys@, k);
                    if i != p {
                        assert(self.keys@[back(i)]@ == k);
                    }
                }
            }
            assert forall|k: Seq<char>| #[trigger] after@.contains_key(k) implies after@[k]
                == self@.insert(name, value)[k] by {
                let i = place_of(after.keys@, k);
                after.lemma_at(i);
                if i != p {
                    self.lemma_at(back(i));
                }
            }
        }
    }
}

} // verus!
