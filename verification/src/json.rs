//! JSON, as far as it is exchanged with the stream engine.

use vstd::prelude::*;

verus! {

/// What `serde_json::from_str` and `Value::get` make of a text and a key: the text under that key, nothing
/// where the text is JSON but has no text under that key, or the message that says why it is not JSON.
pub uninterp spec fn json_text_member(text: Seq<char>, key: Seq<char>) -> Result<
    Option<Seq<char>>,
    Seq<char>,
>;

/// What `Value::to_string` writes for an object with these two members.
pub uninterp spec fn json_object_text(
    first: Seq<char>,
    first_value: Seq<char>,
    second: Seq<char>,
    second_value: Seq<char>,
) -> Seq<char>;

/// The text is JSON and holds this text under this key.
pub open spec fn holds_text(text: Seq<char>, key: Seq<char>, value: Seq<char>) -> bool {
    json_text_member(text, key) == Ok::<Option<Seq<char>>, Seq<char>>(Some(value))
}

/// A member of a JSON text, by its view.
pub open spec fn member_view(member: Result<Option<String>, String>) -> Result<
    Option<Seq<char>>,
    Seq<char>,
> {
    match member {
        Ok(Some(value)) => Ok(Some(value@)),
        Ok(None) => Ok(None),
        Err(message) => Err(message@),
    }
}

/// `serde_json::from_str` on a text, then `Value::get` and `Value::as_str` on what it holds. Which texts
/// are JSON, and how the message reads where one is not, is left to the name `json_text_member`; it depends
/// on the text and the key alone.
#[verifier::external_body]
pub(crate) fn text_member(text: &str, key: &str) -> (r: Result<Option<String>, String>)
    ensures
        member_view(r) == json_text_member(text@, key@),
{
    match serde_json::from_str::<serde_json::Value>(text) {
        Ok(value) => Ok(value.get(key).and_then(serde_json::Value::as_str).map(String::from)),
        Err(e) => Err(e.to_string()),
    }
}

/// `serde_json::Value::to_string` on an object with two members, both of them texts: what it writes, read
/// by `serde_json::from_str`, has those texts under those keys. How it writes them is left to the name
/// `json_object_text`. Keys that start with a dollar sign are left out, since the crate gives some of them
/// another meaning when it reads.
#[verifier::external_body]
pub(crate) fn object_text(
    first: &str,
    first_value: &str,
    second: &str,
    second_value: &str,
) -> (r: String)
    requires
        first@ != second@,
        first@.len() > 0,
        first@[0] != '$',
        second@.len() > 0,
        second@[0] != '$',
    ensures
        r@ == json_object_text(first@, first_value@, second@, second_value@),
        holds_text(r@, first@, first_value@),
        holds_text(r@, second@, second_value@),
{
    let mut members = serde_json::Map::new();
    members.insert(first.to_string(), serde_json::Value::from(first_value));
    members.insert(second.to_string(), serde_json::Value::from(second_value));
    serde_json::Value::Object(members).to_string()
}

/// A member is shown as it is.
pub proof fn law_members_are_shown_as_they_are(value: String, message: String)
    ensures
        member_view(Ok(Some(value))) == Ok::<Option<Seq<char>>, Seq<char>>(Some(value@)),
        member_view(Ok(None)) == Ok::<Option<Seq<char>>, Seq<char>>(None),
        member_view(Err(message)) == Err::<Option<Seq<char>>, Seq<char>>(message@),
{
}

} // verus!
