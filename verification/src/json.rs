//! JSON values, through `serde_json`.
use vstd::prelude::*;

verus! {

/// A JSON value, as `serde_json` has it. Nothing of its inside is known here.
#[verifier::external_type_specification]
#[verifier::external_body]
pub struct ExValue(serde_json::Value);

/// Why `serde_json` could not read a text.
#[verifier::external_type_specification]
#[verifier::external_body]
pub struct ExError(serde_json::Error);

/// The member of this name of a JSON object; nothing where the value is no object
/// or has no such member.
pub uninterp spec fn json_found(v: serde_json::Value, name: Seq<char>) -> Option<serde_json::Value>;

/// The member of this name of a JSON object.
///
/// Calls `serde_json::Value::get` with the name. Claims that whether there is a
/// member, and which, depends on the value and the name alone.
#[verifier::external_body]
pub(crate) fn find<'a>(v: &'a serde_json::Value, name: &str) -> (r: Option<&'a serde_json::Value>)
    ensures
        r is Some <==> json_found(*v, name@) is Some,
        r matches Some(m) ==> json_found(*v, name@) == Some(*m),
{
    v.get(name)
}

/// A JSON value as plain text: a string as it is, without quotes, and any other
/// value in compact JSON.
pub open spec fn plain_text(v: serde_json::Value) -> Seq<char> {
    match json_string(v) {
        Some(s) => s,
        None => json_text(v),
    }
}

/// The members of a JSON object by name, each as plain text. A value that is no
/// object has no members.
pub open spec fn member_texts(payload: serde_json::Value) -> Map<Seq<char>, Seq<char>> {
    Map::new(
        |name: Seq<char>| json_found(payload, name) is Some,
        |name: Seq<char>| plain_text(json_found(payload, name)->0),
    )
}

/// A JSON value as plain text.
pub fn text_of_value(v: &serde_json::Value) -> (r: String)
    ensures
        r@ == plain_text(*v),
{
    match string_of(v) {
        Some(s) => s.to_owned(),
        None => value_text(v),
    }
}

/// A member of a JSON object as plain text.
pub fn member_text(payload: &serde_json::Value, field: &str) -> (r: Option<String>)
    ensures
        r is Some <==> member_texts(*payload).contains_key(field@),
        r matches Some(s) ==> s@ == member_texts(*payload)[field@],
{
    match find(payload, field) {
        Some(v) => Some(text_of_value(v)),
        None => None,
    }
}

/// What a JSON value has under a name: a null where it is no object or has no
/// such member.
pub uninterp spec fn json_member(v: serde_json::Value, name: Seq<char>) -> serde_json::Value;

/// What a JSON value has under a name.
///
/// Indexes a `serde_json::Value` with a string, which never panics on a shared
/// value. Claims that what is found depends on the value and the name alone.
#[verifier::external_body]
pub(crate) fn member<'a>(v: &'a serde_json::Value, name: &str) -> (r: &'a serde_json::Value)
    ensures
        *r == json_member(*v, name@),
{
    &v[name]
}

/// The text of a JSON string; nothing where the value is no string.
pub uninterp spec fn json_string(v: serde_json::Value) -> Option<Seq<char>>;

/// The text of a JSON string.
///
/// Calls `serde_json::Value::as_str`. Claims that whether there is a text, and
/// which, depends on the value alone.
#[verifier::external_body]
pub(crate) fn string_of(v: &serde_json::Value) -> (r: Option<&str>)
    ensures
        r is Some <==> json_string(*v) is Some,
        r matches Some(s) ==> json_string(*v) == Some(s@),
{
    v.as_str()
}

/// The number of a JSON value that is an integer of 64 bits; nothing where it is
/// anything else.
pub uninterp spec fn json_integer(v: serde_json::Value) -> Option<i64>;

/// The number of a JSON value that is an integer.
///
/// Calls `serde_json::Value::as_i64`. Claims that whether there is a number, and
/// which, depends on the value alone.
#[verifier::external_body]
pub(crate) fn integer_of(v: &serde_json::Value) -> (r: Option<i64>)
    ensures
        r == json_integer(*v),
{
    v.as_i64()
}

/// A JSON value as text on several lines; nothing where it cannot be written.
pub uninterp spec fn json_pretty(v: serde_json::Value) -> Option<Seq<char>>;

/// Writes a JSON value as text on several lines.
///
/// Calls `serde_json::to_string_pretty`. Claims that whether it succeeds, and the
/// text it gives, depend on the value alone.
#[verifier::external_body]
pub(crate) fn pretty_text(v: &serde_json::Value) -> (r: Result<String, serde_json::Error>)
    ensures
        r is Ok <==> json_pretty(*v) is Some,
        r matches Ok(s) ==> json_pretty(*v) == Some(s@),
{
    serde_json::to_string_pretty(v)
}

/// The value that a JSON text stands for; nothing where it is no JSON.
pub uninterp spec fn parsed_json(raw: Seq<char>) -> Option<serde_json::Value>;

/// Reads a JSON text.
///
/// Calls `serde_json::from_str`. Claims that whether it succeeds, and the value
/// it gives, depend on the text alone.
#[verifier::external_body]
pub(crate) fn parse_json(raw: &str) -> (r: Result<serde_json::Value, serde_json::Error>)
    ensures
        r is Ok <==> parsed_json(raw@) is Some,
        r matches Ok(v) ==> parsed_json(raw@) == Some(v),
{
    serde_json::from_str(raw)
}

/// The names and strings of the JSON object that a text stands for; nothing where
/// it is no JSON object of strings.
pub uninterp spec fn parsed_strings(raw: Seq<char>) -> Option<Map<Seq<char>, Seq<char>>>;

/// Whether no name occurs twice.
pub open spec fn distinct_names(fields: Seq<(String, String)>) -> bool {
    forall|i: int, j: int| 0 <= i < j < fields.len() ==> (#[trigger] fields[i]).0@ != (#[trigger] fields[j]).0@
}

/// Reads a JSON object of strings.
///
/// Calls `serde_json::from_str` for a hash map of strings, and lists the map.
/// Claims that whether it succeeds, and what each name is given, depend on the
/// text alone, and that the list has each name once. Their order is left open.
#[verifier::external_body]
pub(crate) fn parse_strings(raw: &str) -> (r: Result<Vec<(String, String)>, serde_json::Error>)
    ensures
        r is Ok <==> parsed_strings(raw@) is Some,
        r matches Ok(v) ==> last_values(v@) == parsed_strings(raw@)->0 && distinct_names(v@),
{
    serde_json::from_str::<std::collections::HashMap<String, String>>(raw).map(|m| m.into_iter().collect())
}

/// The last value of each name in a list of names and values.
pub open spec fn last_values(fields: Seq<(String, String)>) -> Map<Seq<char>, Seq<char>>
    decreases fields.len(),
{
    if fields.len() == 0 {
        Map::empty()
    } else {
        last_values(fields.drop_last()).insert(fields.last().0@, fields.last().1@)
    }
}

/// The JSON object that has these members, each of them a JSON string.
pub uninterp spec fn string_object(members: Map<Seq<char>, Seq<char>>) -> serde_json::Value;

/// A JSON object with strings for members.
///
/// Calls `serde_json::Value::from_iter`, which makes a JSON string of each value
/// and keeps the last one of a name. Claims that the object depends on the names
/// and the last value of each alone, that it has those names for members and no
/// others, and that each member is the string of that value.
#[verifier::external_body]
pub(crate) fn object_of(fields: Vec<(String, String)>) -> (r: serde_json::Value)
    ensures
        r == string_object(last_values(fields@)),
        forall|name: Seq<char>| #[trigger]
            json_found(r, name) is Some <==> last_values(fields@).contains_key(name),
        forall|name: Seq<char>|
            last_values(fields@).contains_key(name) ==> json_string((#[trigger] json_found(r, name))->0) == Some(
                last_values(fields@)[name],
            ),
{
    serde_json::Value::from_iter(fields)
}

/// A JSON value as compact text.
pub uninterp spec fn json_text(v: serde_json::Value) -> Seq<char>;

/// Writes a JSON value as compact text.
///
/// Calls `to_string` of `serde_json::Value`. Claims that the text depends on the
/// value alone.
#[verifier::external_body]
pub(crate) fn value_text(v: &serde_json::Value) -> (r: String)
    ensures
        r@ == json_text(*v),
{
    v.to_string()
}

} // verus!
