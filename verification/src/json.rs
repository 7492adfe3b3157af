//! JSON objects, built and written by `serde_json`.
//!
//! An object is held in a `serde_json::Map`, its values in
//! `serde_json::Value`. Verus sees nothing inside either; what they hold is
//! named by `members` and `member_of`, and the text that `serde_json`
//! writes for an object by `object_text`.

use vstd::prelude::*;

verus! {

/// Declares `serde_json::Value` to Verus as an opaque type.
#[verifier::external_type_specification]
#[verifier::external_body]
pub struct ExValue(serde_json::Value);

/// Declares `serde_json::Map` to Verus as an opaque type.
#[verifier::external_type_specification]
#[verifier::external_body]
#[verifier::reject_recursive_types(K)]
#[verifier::reject_recursive_types(V)]
pub struct ExMap<K, V>(serde_json::Map<K, V>);

/// What an object holds under one key.
pub enum Member {
    /// An unsigned number.
    Number(u64),
    /// A string, by its characters.
    Text(Seq<char>),
    /// Any other value, by the compact JSON text that stands for it.
    Other(Seq<char>),
}

/// What a value holds.
pub uninterp spec fn member_of(value: serde_json::Value) -> Member;

/// The members that an object holds, by key.
pub uninterp spec fn members(object: serde_json::Map<String, serde_json::Value>) -> Map<
    Seq<char>,
    Member,
>;

/// The compact JSON text that `serde_json` writes for an object with the
/// given members.
pub uninterp spec fn object_text(members: Map<Seq<char>, Member>) -> Seq<char>;

/// The members of an object that holds none.
pub open spec fn no_members() -> Map<Seq<char>, Member> {
    Map::empty()
}

/// Calls `<serde_json::Value as From<u64>>::from`.
///
/// Trusted: the value holds the number.
#[verifier::external_body]
pub(crate) fn number_value(number: u64) -> (value: serde_json::Value)
    ensures
        member_of(value) == Member::Number(number),
{
    serde_json::Value::from(number)
}

/// Calls `<serde_json::Value as From<&str>>::from`.
///
/// Trusted: the value holds the text.
#[verifier::external_body]
pub(crate) fn text_value(text: &str) -> (value: serde_json::Value)
    ensures
        member_of(value) == Member::Text(text@),
{
    serde_json::Value::from(text)
}

/// Calls `serde_json::Map::new`.
///
/// Trusted: the new object holds no member.
#[verifier::external_body]
pub(crate) fn object_new() -> (object: serde_json::Map<String, serde_json::Value>)
    ensures
        members(object) == no_members(),
{
    serde_json::Map::new()
}

/// Calls `serde_json::Map::insert`.
///
/// Trusted: afterwards the object holds the value under `key`, in place
/// of what it held there before, and every other member as before.
#[verifier::external_body]
pub(crate) fn object_put(
    object: &mut serde_json::Map<String, serde_json::Value>,
    key: &str,
    value: serde_json::Value,
)
    ensures
        members(*final(object)) == members(*old(object)).insert(key@, member_of(value)),
{
    object.insert(key.to_owned(), value);
}

/// Calls `to_string` on the object as a `serde_json::Value`, which writes
/// it through the `Display` of `serde_json::Value`.
///
/// Trusted: the result is the named text `object_text` of the members. It
/// depends on the members alone: `serde_json` keeps them ordered by key
/// and writes them in that order, in its compact form.
#[verifier::external_body]
pub(crate) fn object_to_text(object: serde_json::Map<String, serde_json::Value>) -> (text: String)
    ensures
        text@ == object_text(members(object)),
{
    serde_json::Value::Object(object).to_string()
}

} // verus!
