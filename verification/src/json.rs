//! JSON values: what they hold, and how they are made and written.

use serde_json::Value;
use vstd::prelude::*;

verus! {

/// The declaration of a JSON value.
#[verifier::external_type_specification]
#[verifier::external_body]
pub struct ExValue(serde_json::Value);

/// What a JSON value holds.
pub enum Json {
    Text(Seq<char>),
    Number(u64),
    Members(Map<Seq<char>, Json>),
    /// Anything else.
    Other(Value),
}

/// What a `serde_json::Value` holds.
pub uninterp spec fn json_view(value: Value) -> Json;

/// The text that `serde_json::Value` is displayed as.
pub uninterp spec fn json_text(held: Json) -> Seq<char>;

/// The text of a member of an object, where it has that member and it is a text.
pub open spec fn member(held: Json, key: Seq<char>) -> Option<Seq<char>> {
    match held {
        Json::Members(m) => if m.dom().contains(key) {
            match m[key] {
                Json::Text(t) => Some(t),
                _ => None,
            }
        } else {
            None
        },
        _ => None,
    }
}

/// Calls `serde_json::Value::get` with a name, and `as_str` on what it finds.
#[verifier::external_body]
pub(crate) fn member_text(value: &Value, key: &str) -> (r: Option<String>)
    ensures
        match r {
            Some(t) => member(json_view(*value), key@) == Some(t@),
            None => member(json_view(*value), key@) is None,
        },
{
    Some(value.get(key)?.as_str()?.to_string())
}

/// Calls the conversion of a `&str` into a `serde_json::Value`.
#[verifier::external_body]
pub(crate) fn text_value(text: &str) -> (r: Value)
    ensures
        json_view(r) == Json::Text(text@),
{
    Value::from(text)
}

/// Calls the conversion of a `u64` into a `serde_json::Value`.
#[verifier::external_body]
pub(crate) fn number_value(n: u64) -> (r: Value)
    ensures
        json_view(r) == Json::Number(n),
{
    Value::from(n)
}

/// Makes an object without members: a `serde_json::Value` out of `serde_json::Map::new`.
#[verifier::external_body]
pub(crate) fn object_value() -> (r: Value)
    ensures
        json_view(r) == Json::Members(Map::empty()),
{
    Value::Object(serde_json::Map::new())
}

/// Calls `serde_json::Value::as_object_mut`, and `insert` on the object: sets a member, or
/// replaces it.
#[verifier::external_body]
pub(crate) fn set_member(object: &mut Value, key: &str, value: Value)
    requires
        json_view(*old(object)) is Members,
    ensures
        json_view(*final(object)) == Json::Members(
            json_view(*old(object))->Members_0.insert(key@, json_view(value)),
        ),
{
    if let Some(members) = object.as_object_mut() {
        members.insert(key.to_string(), value);
    }
}

/// Calls `to_string` of `serde_json::Value`: its compact notation, with the members of
/// objects in the order of their names. It depends on what the value holds alone.
#[verifier::external_body]
pub(crate) fn render(value: &Value) -> (r: String)
    ensures
        r@ == json_text(json_view(*value)),
{
    value.to_string()
}

/// The text of a member is there exactly where the value is an object that has the member,
/// and the member is a text; whatever other members there are.
pub proof fn law_member_is_its_text(held: Json, key: Seq<char>, text: Seq<char>)
    ensures
        member(held, key) == Some(text) <==> match held {
            Json::Members(m) => m.dom().contains(key) && m[key] == Json::Text(text),
            _ => false,
        },
{
}

} // verus!
