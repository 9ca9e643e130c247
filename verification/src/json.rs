//! JSON documents as the library holds them, and the one place where text is
//! parsed as JSON.
use vstd::prelude::*;

verus! {

/// The kind of a JSON value, with its contents.
#[derive(Debug)]
pub enum JsonKind {
    Null,
    Bool(bool),
    /// A number, by its decimal text.
    Number(String),
    Str(String),
    Array(Vec<JsonValue>),
    /// The members of an object, each key once.
    Object(Vec<(String, JsonValue)>),
}

/// A JSON value together with its compact serialisation.
#[derive(Debug)]
pub struct JsonValue {
    pub kind: JsonKind,
    pub text: String,
}

#[verifier::external_type_specification]
#[verifier::external_body]
pub struct ExSerdeJsonValue(serde_json::Value);

/// What `serde_json::from_str::<serde_json::Value>` makes of `text`, held as
/// a `JsonValue` (`None` when the text is not one JSON document).
pub uninterp spec fn json_parse(text: Seq<char>) -> Option<JsonValue>;

/// Converts a parsed `serde_json::Value` one for one into a `JsonValue`: each
/// node keeps its kind and contents, numbers their `Display` text, and every
/// node its compact serialisation (`to_string`).
#[verifier::external_body]
fn json_from_value(v: &serde_json::Value) -> JsonValue {
    let kind = match v {
        serde_json::Value::Null => JsonKind::Null,
        serde_json::Value::Bool(b) => JsonKind::Bool(*b),
        serde_json::Value::Number(n) => JsonKind::Number(n.to_string()),
        serde_json::Value::String(s) => JsonKind::Str(s.clone()),
        serde_json::Value::Array(a) => JsonKind::Array(a.iter().map(json_from_value).collect()),
        serde_json::Value::Object(m) => JsonKind::Object(m.iter().map(|(k, x)| (k.clone(), json_from_value(x))).collect()),
    };
    JsonValue { kind, text: v.to_string() }
}

/// `serde_json::from_str::<serde_json::Value>`: the result is named
/// `json_parse(text)`; nothing more is stated of the parser.
#[verifier::external_body]
pub(crate) fn parse_json(text: &str) -> (r: Option<JsonValue>)
    ensures
        r == json_parse(text@),
{
    match serde_json::from_str::<serde_json::Value>(text) {
        Ok(v) => Some(json_from_value(&v)),
        Err(_) => None,
    }
}


/// The value of the first member of `members` named `key`.
pub open spec fn first_member(members: Seq<(String, JsonValue)>, key: Seq<char>) -> Option<JsonValue>
    decreases members.len(),
{
    if members.len() == 0 {
        None
    } else if members[0].0@ == key {
        Some(members[0].1)
    } else {
        first_member(members.drop_first(), key)
    }
}

/// The member `key` of an object (`None` for any other value), as
/// `serde_json::Value::get` with a `&str` key gives it.
pub open spec fn field_of(v: JsonValue, key: Seq<char>) -> Option<JsonValue> {
    match v.kind {
        JsonKind::Object(members) => first_member(members@, key),
        _ => None,
    }
}

/// The text of a string value, as `as_str` gives it.
pub open spec fn str_of(v: Option<JsonValue>) -> Option<Seq<char>> {
    match v {
        Some(x) => match x.kind {
            JsonKind::Str(s) => Some(s@),
            _ => None,
        },
        None => None,
    }
}

/// The string member `key` of `v`, or `default` when `v` has no such member
/// or it is not a string.
pub open spec fn str_member_or(v: JsonValue, key: Seq<char>, default: Seq<char>) -> Seq<char> {
    match str_of(field_of(v, key)) {
        Some(s) => s,
        None => default,
    }
}

/// The elements of an array value, as `as_array` gives them.
pub open spec fn array_of(v: Option<JsonValue>) -> Option<Seq<JsonValue>> {
    match v {
        Some(x) => match x.kind {
            JsonKind::Array(items) => Some(items@),
            _ => None,
        },
        None => None,
    }
}

/// The member `key` of `v` when `v` is an object that has it.
pub fn get_field<'a>(v: &'a JsonValue, key: &str) -> (r: Option<&'a JsonValue>)
    ensures
        match r {
            Some(x) => field_of(*v, key@) == Some(*x),
            None => field_of(*v, key@) is None,
        },
{
    match &v.kind {
        JsonKind::Object(members) => {
            let k = key.to_owned();
            let mut i: usize = 0;
            assert(members@.skip(0) == members@);
            while i < members.len()
                invariant
                    i <= members@.len(),
                    k@ == key@,
                    field_of(*v, key@) == first_member(members@, key@),
                    first_member(members@, key@) == first_member(members@.skip(i as int), key@),
                decreases members@.len() - i,
            {
                assert(members@.skip(i as int).drop_first() == members@.skip(i + 1));
                if members[i].0 == k {
                    assert(members@.skip(i as int)[0] == members@[i as int]);
                    return Some(&members[i].1);
                }
                i = i + 1;
            }
            None
        },
        _ => None,
    }
}

/// The string member `key` of `v`, or `default`.
pub fn str_field_or(v: &JsonValue, key: &str, default: &str) -> (r: String)
    ensures
        r@ == str_member_or(*v, key@, default@),
{
    match get_field(v, key) {
        Some(x) => match &x.kind {
            JsonKind::Str(s) => s.clone(),
            _ => default.to_owned(),
        },
        None => default.to_owned(),
    }
}

/// The elements of `v` when it is an array.
pub fn as_array<'a>(v: Option<&'a JsonValue>) -> (r: Option<&'a Vec<JsonValue>>)
    ensures
        match v {
            Some(x) => match r {
                Some(items) => array_of(Some(*x)) == Some(items@),
                None => array_of(Some(*x)) is None,
            },
            None => r is None,
        },
{
    match v {
        Some(x) => match &x.kind {
            JsonKind::Array(items) => Some(items),
            _ => None,
        },
        None => None,
    }
}

} // verus!
