//! JSON values: reading a text, looking into a value, building an object.
use vstd::prelude::*;
use serde_json::Value;

verus! {

/// `serde_json::Value`.
#[verifier::external_type_specification]
#[verifier::external_body]
pub struct ExValue(serde_json::Value);

/// The value that a JSON text stands for; `None` where it is not JSON.
pub uninterp spec fn json_of(text: Seq<char>) -> Option<Value>;

/// The members of an object; `None` where the value is no object.
pub uninterp spec fn json_members(v: Value) -> Option<Map<Seq<char>, Value>>;

/// The characters of a string; `None` where the value is no string.
pub uninterp spec fn json_text(v: Value) -> Option<Seq<char>>;

/// The number that a value is, if it is one from 0 to the largest `u64`.
pub uninterp spec fn json_count(v: Value) -> Option<u64>;

/// The elements of an array; `None` where the value is no array.
pub uninterp spec fn json_items(v: Value) -> Option<Seq<Value>>;

/// The member `name` of a value, if it is an object that has one.
pub open spec fn json_member(v: Value, name: Seq<char>) -> Option<Value> {
    match json_members(v) {
        Some(members) => if members.contains_key(name) {
            Some(members[name])
        } else {
            None
        },
        None => None,
    }
}

/// `serde_json::from_str` at `serde_json::Value`: the value of a JSON text,
/// or nothing where the text is not JSON. The text alone determines it.
#[verifier::external_body]
pub(crate) fn parse_json(text: &str) -> (r: Option<Value>)
    ensures
        r == json_of(text@),
{
    serde_json::from_str::<Value>(text).ok()
}

/// `serde_json::Value::get` with a string: the member of that name of an
/// object, nothing where there is none or the value is no object.
#[verifier::external_body]
pub(crate) fn member<'a>(v: &'a Value, name: &str) -> (r: Option<&'a Value>)
    ensures
        match r {
            Some(m) => json_member(*v, name@) == Some(*m),
            None => json_member(*v, name@) is None,
        },
{
    v.get(name)
}

/// `serde_json::Value::as_str`: the characters of a string value.
pub assume_specification[ serde_json::Value::as_str ](v: &Value) -> (r: Option<&str>)
    ensures
        match r {
            Some(s) => json_text(*v) == Some(s@),
            None => json_text(*v) is None,
        },
;

/// `serde_json::Value::from` at `&str`: a string value.
#[verifier::external_body]
pub(crate) fn text_value(s: &str) -> (v: Value)
    ensures
        json_text(v) == Some(s@),
{
    Value::from(s)
}

/// `serde_json::Value::from` at `u8`: a number value.
#[verifier::external_body]
pub(crate) fn count_value(n: u8) -> (v: Value)
    ensures
        json_count(v) == Some(n as u64),
{
    Value::from(n)
}

/// `serde_json::Value::from` at a list of values: an array.
#[verifier::external_body]
pub(crate) fn array_value(items: Vec<Value>) -> (v: Value)
    ensures
        json_items(v) == Some(items@),
{
    Value::from(items)
}

/// The members that a list of names and values gives an object: the last
/// value of each name.
pub open spec fn members_of(fields: Seq<(String, Value)>) -> Map<Seq<char>, Value>
    decreases fields.len(),
{
    if fields.len() == 0 {
        Map::empty()
    } else {
        members_of(fields.drop_last()).insert(fields.last().0@, fields.last().1)
    }
}

/// Adds a name and its value to the fields of an object to be.
pub(crate) fn put(fields: &mut Vec<(String, Value)>, name: &str, value: Value)
    ensures
        members_of(final(fields)@) == members_of(old(fields)@).insert(name@, value),
{
    fields.push((name.to_owned(), value));
    assert(fields@.drop_last() =~= old(fields)@);
}

/// `serde_json::Value::from_iter` at names and values: an object with these
/// members.
#[verifier::external_body]
pub(crate) fn object_value(fields: Vec<(String, Value)>) -> (v: Value)
    ensures
        json_members(v) == Some(members_of(fields@)),
{
    fields.into_iter().collect::<Value>()
}

/// The members of an object that is put together are those that were put in, each
/// with the value that was last put in under its name.
pub proof fn law_members_are_those_put_in(
    fields: Seq<(String, Value)>,
    name: String,
    value: Value,
    other: Seq<char>,
)
    ensures
        members_of(Seq::empty()).dom() == Set::<Seq<char>>::empty(),
        members_of(fields.push((name, value))).contains_key(name@),
        members_of(fields.push((name, value)))[name@] == value,
        other != name@ ==> (members_of(fields.push((name, value))).contains_key(other)
            <==> members_of(fields).contains_key(other)),
        other != name@ && members_of(fields).contains_key(other) ==> members_of(
            fields.push((name, value)),
        )[other] == members_of(fields)[other],
{
    assert(fields.push((name, value)).drop_last() =~= fields);
}

/// A member is looked up among the members of an object, and nothing else has one.
pub proof fn law_members_are_looked_up(v: Value, name: Seq<char>)
    ensures
        json_members(v) is None ==> json_member(v, name) is None,
        json_members(v) matches Some(m) ==> (json_member(v, name) is Some <==> m.contains_key(name)),
        json_members(v) matches Some(m) ==> (m.contains_key(name) ==> json_member(v, name) == Some(
            m[name],
        )),
{
}

} // verus!
