//! JSON documents: the `Value` of `serde_json`, seen as a tree of plain values.
use serde_json::Value;
use vstd::prelude::*;

use crate::text::decimal;

verus! {

/// What a JSON document holds. A number is held as its text; the members of an object
/// have no order.
pub enum Json {
    Null,
    Bool(bool),
    Number(Seq<char>),
    Text(Seq<char>),
    Array(Seq<Json>),
    Object(Map<Seq<char>, Json>),
}

impl Json {
    /// The member of an object under a name. Nothing but an object has members.
    pub open spec fn member(self, name: Seq<char>) -> Option<Json> {
        match self {
            Json::Object(members) => if members.contains_key(name) {
                Some(members[name])
            } else {
                None
            },
            _ => None,
        }
    }

    /// The object with the member under a name replaced.
    pub open spec fn with_member(self, name: Seq<char>, value: Json) -> Json {
        match self {
            Json::Object(members) => Json::Object(members.insert(name, value)),
            _ => self,
        }
    }
}

/// How deep arrays and objects may be nested in a text for `serde_json` to parse it.
pub const MAX_NESTING: u8 = 127;

/// Whether a number is an integer of 64 bits, signed or not.
pub open spec fn is_integer(number: Seq<char>) -> bool {
    ||| exists|n: u64| number == #[trigger] decimal(n as nat)
    ||| exists|n: u64|
        1 <= n <= 0x8000_0000_0000_0000 && number == "-"@ + #[trigger] decimal(n as nat)
}

/// Whether all numbers in a document are integers of 64 bits.
pub open spec fn has_integers_only(document: Json) -> bool
    decreases document,
{
    match document {
        Json::Number(number) => is_integer(number),
        Json::Array(items) => forall|i: int|
            0 <= i < items.len() ==> has_integers_only(#[trigger] items[i]),
        Json::Object(members) => forall|name: Seq<char>|
            members.contains_key(name) ==> has_integers_only(#[trigger] members[name]),
        _ => true,
    }
}

/// Whether arrays and objects are nested in a document no deeper than given.
pub open spec fn is_nested_within(document: Json, nesting: nat) -> bool
    decreases nesting,
{
    match document {
        Json::Array(items) => nesting > 0 && forall|i: int|
            0 <= i < items.len() ==> is_nested_within(#[trigger] items[i], (nesting - 1) as nat),
        Json::Object(members) => nesting > 0 && forall|name: Seq<char>|
            members.contains_key(name) ==> is_nested_within(
                #[trigger] members[name],
                (nesting - 1) as nat,
            ),
        _ => true,
    }
}

/// The document type of `serde_json`.
#[verifier::external_type_specification]
#[verifier::external_body]
pub struct ExValue(Value);

/// The parse error of `serde_json`.
#[verifier::external_type_specification]
#[verifier::external_body]
pub struct ExJsonError(serde_json::Error);

/// What a document holds: its variant with its parts, each number as `serde_json`
/// prints it.
pub uninterp spec fn json_contents(value: Value) -> Json;

/// The document that a text is parsed to by `serde_json::from_str`, or `None` where the
/// text is refused.
pub uninterp spec fn json_parsed(text: Seq<char>) -> Option<Json>;

/// The text that `Value::to_string` prints a document to, without white space between
/// the tokens.
pub uninterp spec fn json_printed(document: Json) -> Seq<char>;

/// `serde_json::from_str` into a `Value`. A text that nests arrays and objects deeper than
/// `MAX_NESTING` is refused.
#[verifier::external_body]
pub(crate) fn parse_json(text: &str) -> (parsed: Result<Value, serde_json::Error>)
    ensures
        parsed is Ok <==> json_parsed(text@) is Some,
        parsed matches Ok(value) ==> json_parsed(text@) == Some(json_contents(value)),
        parsed matches Ok(value) ==> is_nested_within(json_contents(value), MAX_NESTING as nat),
{
    serde_json::from_str(text)
}

/// `Value::to_string`: one line, since line breaks in strings are escaped and none stand
/// between the tokens. `serde_json::from_str` parses the text back to the document, where
/// its numbers are integers of 64 bits and it is not nested too deep. Of fractions that is
/// left open: their last digits may change.
#[verifier::external_body]
pub(crate) fn print_json(value: &Value) -> (text: String)
    ensures
        text@ == json_printed(json_contents(*value)),
        !text@.contains('\n'),
        is_nested_within(json_contents(*value), MAX_NESTING as nat) && has_integers_only(
            json_contents(*value),
        ) ==> json_parsed(text@) == Some(json_contents(*value)),
{
    value.to_string()
}

/// `Value::get` with a member name: `None` where the document is no object or has no
/// such member.
#[verifier::external_body]
pub(crate) fn get_member<'a>(value: &'a Value, name: &str) -> (found: Option<&'a Value>)
    ensures
        found is Some <==> json_contents(*value).member(name@) is Some,
        found matches Some(member) ==> json_contents(*value).member(name@) == Some(
            json_contents(*member),
        ),
{
    value.get(name)
}

/// `IndexMut` of `Value` with the name of a member that is there: what is written through
/// the reference takes that member's place, and nothing else changes.
#[verifier::external_body]
pub(crate) fn member_mut<'a>(value: &'a mut Value, name: &str) -> (member: &'a mut Value)
    requires
        json_contents(*old(value)).member(name@) is Some,
    ensures
        json_contents(*old(value)).member(name@) == Some(json_contents(*member)),
        json_contents(*final(value)) == json_contents(*old(value)).with_member(
            name@,
            json_contents(*final(member)),
        ),
{
    &mut value[name]
}

/// The `Value::String` of a text.
#[verifier::external_body]
pub(crate) fn json_text(text: String) -> (value: Value)
    ensures
        json_contents(value) == Json::Text(text@),
{
    Value::String(text)
}

/// `Value::as_str`, the text copied out: `None` where the document is no string.
#[verifier::external_body]
pub(crate) fn text_value(value: &Value) -> (text: Option<String>)
    ensures
        text is Some <==> json_contents(*value) is Text,
        text matches Some(t) ==> json_contents(*value) == Json::Text(t@),
{
    value.as_str().map(|text| text.to_owned())
}

} // verus!
