use vstd::prelude::*;

use crate::text::str_eq;

verus! {

broadcast use vstd::string::group_string_axioms;

/// A JSON value, with numbers kept as their text. An object keeps its
/// members in order, each key once.
pub enum JsonValue {
    Null,
    Bool(bool),
    Number(String),
    Text(String),
    Array(Vec<JsonValue>),
    Object(Vec<(String, JsonValue)>),
}

/// The value of the first member named `key` among `members`.
pub open spec fn member_of(members: Seq<(String, JsonValue)>, key: Seq<char>) -> Option<JsonValue>
    decreases members.len(),
{
    if members.len() == 0 {
        None
    } else if members[0].0@ == key {
        Some(members[0].1)
    } else {
        member_of(members.drop_first(), key)
    }
}

/// The member `key` of an object; nothing for any other value.
pub open spec fn get_of(v: JsonValue, key: Seq<char>) -> Option<JsonValue> {
    match v {
        JsonValue::Object(members) => member_of(members@, key),
        _ => None,
    }
}

/// The member `key` of `v`, when `v` is an object that has it.
pub fn json_get<'a>(v: &'a JsonValue, key: &str) -> (r: Option<&'a JsonValue>)
    ensures
        match r {
            Some(x) => get_of(*v, key@) == Some(*x),
            None => get_of(*v, key@) is None,
        },
{
    match v {
        JsonValue::Object(members) => {
            let mut i: usize = 0;
            assert(members@.skip(0) =~= members@);
            while i < members.len()
                invariant
                    i <= members@.len(),
                    member_of(members@.skip(i as int), key@) == member_of(members@, key@),
                    get_of(*v, key@) == member_of(members@, key@),
                decreases members@.len() - i,
            {
                assert(members@.skip(i as int)[0] == members@[i as int]);
                if str_eq(members[i].0.as_str(), key) {
                    assert(member_of(members@.skip(i as int), key@) == Some(members@[i as int].1));
                    return Some(&members[i].1);
                }
                assert(members@.skip(i as int).drop_first() =~= members@.skip(i + 1));
                i = i + 1;
            }
            None
        },
        _ => None,
    }
}

/// The tile URL template of a TileJSON document: the first entry of its
/// `tiles` member, when `tiles` is an array whose first entry is a string.
pub open spec fn tile_template_of(doc: JsonValue) -> Option<Seq<char>> {
    match get_of(doc, "tiles"@) {
        Some(JsonValue::Array(items)) => if items@.len() > 0 {
            match items@[0] {
                JsonValue::Text(s) => Some(s@),
                _ => None,
            }
        } else {
            None
        },
        _ => None,
    }
}

pub open spec fn opt_string(o: Option<String>) -> Option<Seq<char>> {
    match o {
        Some(s) => Some(s@),
        None => None,
    }
}

pub fn tile_url_template(doc: &JsonValue) -> (t: Option<String>)
    ensures
        opt_string(t) == tile_template_of(*doc),
{
    match json_get(doc, "tiles") {
        Some(JsonValue::Array(items)) => if items.len() > 0 {
            match &items[0] {
                JsonValue::Text(s) => Some(s.clone()),
                _ => None,
            }
        } else {
            None
        },
        _ => None,
    }
}

/// `serde_json::Value`, carried unread into the conversion below.
#[verifier::external_type_specification]
#[verifier::external_body]
pub struct ExSerdeJsonValue(serde_json::Value);

/// The JSON value that `serde_json::from_str` reads from a text, taken
/// variant by variant with numbers as their text; nothing when the text is
/// not JSON.
pub uninterp spec fn json_parse(text: Seq<char>) -> Option<JsonValue>;

/// A `serde_json::Value` as a `JsonValue`: each variant to its namesake,
/// a number to its text, arrays and objects entry by entry.
#[verifier::external_body]
fn json_value(v: serde_json::Value) -> JsonValue {
    match v {
        serde_json::Value::Null => JsonValue::Null,
        serde_json::Value::Bool(b) => JsonValue::Bool(b),
        serde_json::Value::Number(n) => JsonValue::Number(n.to_string()),
        serde_json::Value::String(s) => JsonValue::Text(s),
        serde_json::Value::Array(a) => JsonValue::Array(a.into_iter().map(json_value).collect()),
        serde_json::Value::Object(m) => JsonValue::Object(
            m.into_iter().map(|(k, v)| (k, json_value(v))).collect(),
        ),
    }
}

/// `serde_json::from_str::<serde_json::Value>`: the JSON value written in
/// `text`, or nothing when `text` is not JSON. The claim is only that the
/// result is a function of the text, named `json_parse`.
#[verifier::external_body]
pub fn parse_json(text: &str) -> (r: Option<JsonValue>)
    ensures
        r == json_parse(text@),
{
    match serde_json::from_str::<serde_json::Value>(text) {
        Ok(v) => Some(json_value(v)),
        Err(_) => None,
    }
}

/// The tile URL template that a TileJSON response body gives: nothing when
/// the body is not JSON or has no string first entry under `tiles`.
pub fn tile_url_from_body(body: &str) -> (t: Option<String>)
    ensures
        opt_string(t) == match json_parse(body@) {
            Some(v) => tile_template_of(v),
            None => None,
        },
{
    match parse_json(body) {
        Some(doc) => tile_url_template(&doc),
        None => None,
    }
}

} // verus!
