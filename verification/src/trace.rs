//! Lines that tell what happens, for other programs to read.
//!
//! Each line is a JSON object with the time, who tells it, and what kind of thing
//! happened. What else there is to say of it comes as further fields.

use vstd::prelude::*;
use vstd::string::StringExecFns;

verus! {

/// A JSON value, which only `serde_json` sees into.
#[verifier::external_type_specification]
#[verifier::external_body]
pub struct ExternalValue(serde_json::Value);

/// A JSON object, which only `serde_json` sees into.
#[verifier::external_type_specification]
#[verifier::external_body]
#[verifier::reject_recursive_types(K)]
#[verifier::reject_recursive_types(V)]
pub struct ExternalObject<K, V>(serde_json::Map<K, V>);

/// What a value holds, as the text that `serde_json` writes for it.
pub uninterp spec fn json_text(value: serde_json::Value) -> Seq<char>;

/// What an object holds: the fields by name, each as its text.
pub uninterp spec fn json_fields(
    object: serde_json::Map<String, serde_json::Value>,
) -> Map<Seq<char>, Seq<char>>;

/// The text of a JSON string that says `text`.
pub uninterp spec fn json_string(text: Seq<char>) -> Seq<char>;

/// The text of a JSON object with these fields.
pub uninterp spec fn json_object(fields: Map<Seq<char>, Seq<char>>) -> Seq<char>;

/// The fields of the JSON object with this text.
pub uninterp spec fn object_fields(text: Seq<char>) -> Map<Seq<char>, Seq<char>>;

/// Whether a JSON text is that of an object: only those begin with a brace.
pub open spec fn is_object(text: Seq<char>) -> bool {
    text.len() > 0 && text[0] == '{'
}

/// No fields at all.
pub open spec fn no_fields() -> Map<Seq<char>, Seq<char>> {
    Map::empty()
}

/// `serde_json::Map::new`: an object without fields.
#[verifier::external_body]
fn empty_object() -> (r: serde_json::Map<String, serde_json::Value>)
    ensures
        json_fields(r) == no_fields(),
{
    serde_json::Map::new()
}

/// `serde_json::Map::insert`: the object has the field, in place of the one with
/// its name.
#[verifier::external_body]
fn put_field(
    object: &mut serde_json::Map<String, serde_json::Value>,
    name: String,
    value: serde_json::Value,
)
    ensures
        json_fields(*final(object)) == json_fields(*old(object)).insert(name@, json_text(value)),
{
    object.insert(name, value);
}

/// `serde_json::Map::into_iter`: each field of the object, once.
#[verifier::external_body]
fn all_fields(object: serde_json::Map<String, serde_json::Value>) -> (r: Vec<
    (String, serde_json::Value),
>)
    ensures
        forall|i: int|
            0 <= i < r@.len() ==> json_fields(object).contains_pair(
                (#[trigger] r@[i]).0@,
                json_text(r@[i].1),
            ),
        forall|name: Seq<char>| #[trigger]
            json_fields(object).contains_key(name) ==> exists|i: int|
                0 <= i < r@.len() && (#[trigger] r@[i]).0@ == name,
{
    object.into_iter().collect()
}

/// `serde_json::Value::from`: a JSON string.
#[verifier::external_body]
fn string_value(text: &str) -> (r: serde_json::Value)
    ensures
        json_text(r) == json_string(text@),
{
    serde_json::Value::from(text)
}

/// The variants of `serde_json::Value`: the fields of an object. Its text begins
/// with a brace, and no other value's does.
#[verifier::external_body]
fn into_object(value: serde_json::Value) -> (r: Option<
    serde_json::Map<String, serde_json::Value>,
>)
    ensures
        r is Some <==> is_object(json_text(value)),
        r matches Some(object) ==> json_fields(object) == object_fields(json_text(value)),
{
    match value {
        serde_json::Value::Object(object) => Some(object),
        _ => None,
    }
}

/// The text that `serde_json` writes for an object. It goes by the fields alone:
/// they come in the order of their names.
#[verifier::external_body]
fn object_line(object: serde_json::Map<String, serde_json::Value>) -> (r: String)
    ensures
        r@ == json_object(json_fields(object)),
{
    serde_json::Value::Object(object).to_string()
}

/// Puts the fields of `extra` into an object, in place of those with their names.
pub fn merge_fields(
    object: &mut serde_json::Map<String, serde_json::Value>,
    extra: serde_json::Map<String, serde_json::Value>,
)
    ensures
        json_fields(*final(object)) == json_fields(*old(object)).union_prefer_right(
            json_fields(extra),
        ),
{
    let ghost base = json_fields(*object);
    let ghost more = json_fields(extra);
    let mut fields = all_fields(extra);
    let ghost all = fields@;
    while fields.len() > 0
        invariant
            base == json_fields(*old(object)),
            fields@.len() <= all.len(),
            fields@ == all.take(fields@.len() as int),
            forall|i: int|
                0 <= i < all.len() ==> more.contains_pair(
                    (#[trigger] all[i]).0@,
                    json_text(all[i].1),
                ),
            forall|name: Seq<char>|
                json_fields(*object).contains_key(name) ==> #[trigger] json_fields(*object)[name]
                    == base.union_prefer_right(more)[name] || base.contains_pair(
                    name,
                    json_fields(*object)[name],
                ),
            forall|name: Seq<char>| #[trigger]
                json_fields(*object).contains_key(name) ==> base.contains_key(name)
                    || more.contains_key(name),
            forall|name: Seq<char>|
                base.contains_key(name) ==> #[trigger] json_fields(*object).contains_key(name),
            forall|i: int|
                fields@.len() <= i < all.len() ==> json_fields(*object).contains_pair(
                    (#[trigger] all[i]).0@,
                    json_text(all[i].1),
                ),
        decreases fields.len(),
    {
        let ghost n = fields@.len() - 1;
        let ghost before = json_fields(*object);
        let (name, value) = match fields.pop() {
            Some(field) => field,
            None => {
                return;
            },
        };
        assert(all[n] == (name, value));
        put_field(object, name, value);
        assert forall|i: int| fields@.len() <= i < all.len() implies json_fields(
            *object,
        ).contains_pair((#[trigger] all[i]).0@, json_text(all[i].1)) by {
            if all[i].0@ == name@ {
                assert(more.contains_pair(all[i].0@, json_text(all[i].1)));
                assert(more.contains_pair(all[n].0@, json_text(all[n].1)));
            }
        }
    }
    proof {
        let now = json_fields(*object);
        let want = base.union_prefer_right(more);
        assert forall|name: Seq<char>| #[trigger] want.contains_key(name) implies now.contains_key(
            name,
        ) && now[name] == want[name] by {
            if more.contains_key(name) {
                let i = choose|i: int| 0 <= i < all.len() && (#[trigger] all[i]).0@ == name;
                assert(now.contains_pair(all[i].0@, json_text(all[i].1)));
                assert(more.contains_pair(all[i].0@, json_text(all[i].1)));
            } else {
                assert(now.contains_key(name));
            }
        }
        assert(now =~= want);
    }
}

/// The fields that every line has.
pub open spec fn base_fields(time: Seq<char>, src: Seq<char>, kind: Seq<char>) -> Map<
    Seq<char>,
    Seq<char>,
> {
    no_fields().insert("t"@, time).insert("src"@, json_string(src)).insert(
        "kind"@,
        json_string(kind),
    )
}

/// The fields of a line: those that every line has, and those of `extra` if that
/// is an object. Where both have one, that of `extra` counts.
pub open spec fn line_fields(
    time: Seq<char>,
    src: Seq<char>,
    kind: Seq<char>,
    extra: Seq<char>,
) -> Map<Seq<char>, Seq<char>> {
    if is_object(extra) {
        base_fields(time, src, kind).union_prefer_right(object_fields(extra))
    } else {
        base_fields(time, src, kind)
    }
}

/// The line that tells what happened. `time` is when.
pub fn event(
    time: serde_json::Value,
    src: &str,
    kind: &str,
    extra: serde_json::Value,
) -> (r: String)
    ensures
        r@ == json_object(line_fields(json_text(time), src@, kind@, json_text(extra))) + "\n"@,
{
    let mut object = empty_object();
    put_field(&mut object, "t".to_owned(), time);
    put_field(&mut object, "src".to_owned(), string_value(src));
    put_field(&mut object, "kind".to_owned(), string_value(kind));
    match into_object(extra) {
        Some(extra) => {
            merge_fields(&mut object, extra);
        },
        None => {},
    }
    let mut line = object_line(object);
    line.append("\n");
    line
}

/// Everything that there is to say of a happening is in its line; and what every
/// line has is there too, unless the happening has its own.
pub proof fn law_nothing_is_lost(
    time: Seq<char>,
    src: Seq<char>,
    kind: Seq<char>,
    extra: Seq<char>,
    name: Seq<char>,
)
    requires
        is_object(extra),
    ensures
        object_fields(extra).contains_key(name) ==> line_fields(
            time,
            src,
            kind,
            extra,
        ).contains_pair(name, object_fields(extra)[name]),
        !object_fields(extra).contains_key("kind"@) ==> line_fields(
            time,
            src,
            kind,
            extra,
        ).contains_pair("kind"@, json_string(kind)),
        !object_fields(extra).contains_key("src"@) ==> line_fields(
            time,
            src,
            kind,
            extra,
        ).contains_pair("src"@, json_string(src)),
        !object_fields(extra).contains_key("t"@) ==> line_fields(
            time,
            src,
            kind,
            extra,
        ).contains_pair("t"@, time),
{
    reveal_strlit("t");
    reveal_strlit("src");
    reveal_strlit("kind");
    assert("t"@.len() != "src"@.len());
    assert("t"@.len() != "kind"@.len());
    assert("src"@.len() != "kind"@.len());
}

} // verus!
