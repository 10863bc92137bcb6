//! Reading and writing of JSON texts.

use vstd::prelude::*;
use crate::distinct::texts;

verus! {

/// What looking up a member of a JSON text came to.
#[derive(Debug)]
pub enum JsonField {
    /// The text is no JSON.
    Invalid,
    /// The text is no object, or the object has no such member.
    Missing,
    /// The member is no string.
    NotText,
    /// The member is this string.
    Text(String),
}

/// What looking up a member of a JSON text came to, by what its text
/// says.
pub ghost enum JsonFieldView {
    Invalid,
    Missing,
    NotText,
    Text(Seq<char>),
}

impl View for JsonField {
    type V = JsonFieldView;

    open spec fn view(&self) -> JsonFieldView {
        match *self {
            JsonField::Invalid => JsonFieldView::Invalid,
            JsonField::Missing => JsonFieldView::Missing,
            JsonField::NotText => JsonFieldView::NotText,
            JsonField::Text(s) => JsonFieldView::Text(s@),
        }
    }
}

/// The string member `field` of the object that a JSON text states, as
/// `serde_json` reads it.
pub uninterp spec fn json_field_of(text: Seq<char>, field: Seq<char>) -> JsonFieldView;

/// The string member `field` of the object that a JSON text states, by
/// `serde_json::from_str`, `Value::get` and `Value::as_str`. The result
/// is a function of the two texts alone and is named [`json_field_of`].
#[verifier::external_body]
pub(crate) fn json_field(text: &str, field: &str) -> (r: JsonField)
    ensures
        r@ == json_field_of(text@, field@),
{
    match serde_json::from_str::<serde_json::Value>(text) {
        Err(_) => JsonField::Invalid,
        Ok(value) => match value.get(field) {
            None => JsonField::Missing,
            Some(member) => match member.as_str() {
                None => JsonField::NotText,
                Some(s) => JsonField::Text(s.to_string()),
            },
        },
    }
}

/// The member `field` of the object that a JSON text states, written out
/// as JSON without white space; `None` where the text is no JSON or
/// states no object with such a member.
pub uninterp spec fn json_member_text(text: Seq<char>, field: Seq<char>) -> Option<Seq<char>>;

/// The member `field` of the object that a JSON text states, written out
/// as JSON, by `serde_json::from_str`, `Value::get` and the `Display` of
/// the value. The result is a function of the two texts alone and is
/// named [`json_member_text`].
#[verifier::external_body]
pub(crate) fn json_member(text: &str, field: &str) -> (r: Option<String>)
    ensures
        match r {
            Some(m) => json_member_text(text@, field@) == Some(m@),
            None => json_member_text(text@, field@) is None,
        },
{
    let value = serde_json::from_str::<serde_json::Value>(text).ok();
    value.and_then(|v| v.get(field).map(|member| member.to_string()))
}

/// What a JSON text states, written out as JSON without white space;
/// `None` where the text is no JSON.
pub uninterp spec fn json_compact_text(text: Seq<char>) -> Option<Seq<char>>;

/// What a JSON text states, written out as JSON, by
/// `serde_json::from_str` and the `Display` of the value. The result is a
/// function of the text alone and is named [`json_compact_text`].
#[verifier::external_body]
pub(crate) fn json_compact(text: &str) -> (r: Option<String>)
    ensures
        match r {
            Some(m) => json_compact_text(text@) == Some(m@),
            None => json_compact_text(text@) is None,
        },
{
    serde_json::from_str::<serde_json::Value>(text).ok().map(|v| v.to_string())
}

/// A text written out as a JSON string: between quotes, with the
/// characters escaped that JSON wants escaped.
pub uninterp spec fn json_quoted(s: Seq<char>) -> Seq<char>;

/// A text written out as a JSON string, by `serde_json::to_string`. The
/// result is a function of the text alone and is named [`json_quoted`].
#[verifier::external_body]
pub(crate) fn json_quote(s: &str) -> (r: String)
    ensures
        r@ == json_quoted(s@),
{
    serde_json::to_string(s).unwrap_or_default()
}

/// The strings of the array that a JSON text states; `None` where the
/// text is no JSON array of strings.
pub uninterp spec fn json_strings(text: Seq<char>) -> Option<Seq<Seq<char>>>;

/// The strings of the array that a JSON text states, by
/// `serde_json::from_str`. The result is a function of the text alone
/// and is named [`json_strings`].
#[verifier::external_body]
pub(crate) fn json_string_list(text: &str) -> (r: Option<Vec<String>>)
    ensures
        match r {
            Some(list) => json_strings(text@) == Some(texts(list@)),
            None => json_strings(text@) is None,
        },
{
    serde_json::from_str::<Vec<String>>(text).ok()
}

/// A list of texts written out as a JSON array of strings.
pub uninterp spec fn json_list_text(list: Seq<Seq<char>>) -> Seq<char>;

/// A list of strings written out as a JSON array, by
/// `serde_json::to_string`. The result is a function of the strings alone
/// and is named [`json_list_text`].
#[verifier::external_body]
pub(crate) fn json_of_strings(list: &Vec<String>) -> (r: String)
    ensures
        r@ == json_list_text(texts(list@)),
{
    serde_json::to_string(list).unwrap_or_default()
}

} // verus!
