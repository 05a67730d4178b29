//! The little that is read out of JSON, and written as JSON, by hand.

use vstd::prelude::*;

use crate::text::{join, views};

verus! {

/// The error that `serde_json` gives for a text that is no JSON.
#[verifier::external_type_specification]
#[verifier::external_body]
pub struct JsonError(serde_json::Error);

/// A member of a JSON object, as far as it is a plain value.
#[derive(Debug, Clone, PartialEq, Eq)]
pub enum Member {
    Missing,
    Text(String),
    Flag(bool),
    Integer(i64),
    Other,
}

pub ghost enum MemberView {
    Missing,
    Text(Seq<char>),
    Flag(bool),
    Integer(int),
    Other,
}

impl View for Member {
    type V = MemberView;

    open spec fn view(&self) -> MemberView {
        match *self {
            Member::Missing => MemberView::Missing,
            Member::Text(s) => MemberView::Text(s@),
            Member::Flag(b) => MemberView::Flag(b),
            Member::Integer(i) => MemberView::Integer(i as int),
            Member::Other => MemberView::Other,
        }
    }
}

/// What `serde_json` finds under a key of the object that a text holds; nothing
/// where the text is no JSON.
pub uninterp spec fn json_member_of(text: Seq<char>, key: Seq<char>) -> Option<MemberView>;

/// `serde_json::from_str` into a `Value`, and `Value::get`: the member of an
/// object under a key. The result depends on the text and the key alone; a text
/// that is no JSON gives the error. Which texts are JSON is not stated here.
#[verifier::external_body]
pub(crate) fn json_member(text: &str, key: &str) -> (r: Result<Member, serde_json::Error>)
    ensures
        match r {
            Ok(m) => json_member_of(text@, key@) == Some(m@),
            Err(_) => json_member_of(text@, key@) is None,
        },
{
    let value: serde_json::Value = serde_json::from_str(text)?;
    Ok(match value.get(key) {
        None => Member::Missing,
        Some(serde_json::Value::String(s)) => Member::Text(s.clone()),
        Some(serde_json::Value::Bool(b)) => Member::Flag(*b),
        Some(serde_json::Value::Number(n)) => match n.as_i64() {
            Some(i) => Member::Integer(i),
            None => Member::Other,
        },
        Some(_) => Member::Other,
    })
}

/// The bytes that `serde_json` writes for a list of texts.
pub uninterp spec fn json_list_of(texts: Seq<Seq<char>>) -> Option<Seq<u8>>;

/// A text that stands in JSON as it is: printable ASCII with nothing to escape.
pub open spec fn is_plain(s: Seq<char>) -> bool {
    forall|i: int|
        0 <= i < s.len() ==> 32 <= (#[trigger] s[i]) as u32 <= 126 && s[i] != '"' && s[i] != '\\'
}

/// A list of plain texts in JSON.
pub open spec fn plain_list(texts: Seq<Seq<char>>) -> Seq<char> {
    "["@ + join(texts.map_values(|t: Seq<char>| "\""@ + t + "\""@), ","@) + "]"@
}

/// The bytes of an ASCII text.
pub open spec fn ascii_bytes(s: Seq<char>) -> Seq<u8> {
    Seq::new(s.len(), |i: int| s[i] as u8)
}

/// `serde_json::to_vec` of a list of strings: the bytes depend on the strings
/// alone, and where no string has anything to escape they are the strings in
/// quotes, with commas between them and brackets around them. How the others are
/// escaped is not stated here.
#[verifier::external_body]
pub(crate) fn json_list(texts: &Vec<String>) -> (r: Result<Vec<u8>, serde_json::Error>)
    ensures
        match r {
            Ok(b) => json_list_of(views(texts@)) == Some(b@),
            Err(_) => json_list_of(views(texts@)) is None,
        },
        (forall|i: int| 0 <= i < texts@.len() ==> is_plain(#[trigger] texts@[i]@)) ==> match r {
            Ok(b) => b@ == ascii_bytes(plain_list(views(texts@))),
            Err(_) => false,
        },
{
    serde_json::to_vec(texts)
}

} // verus!
