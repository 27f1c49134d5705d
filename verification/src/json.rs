use vstd::prelude::*;
use crate::text::{pairs_of, texts_of};

verus! {

/// The JSON values that stand one after the other in `data`, each as its
/// own text, up to the first that is malformed; and whether `data` was
/// read to the end without finding such a one.
pub uninterp spec fn json_documents(data: Seq<u8>) -> (Seq<Seq<char>>, bool);

/// The members of the JSON object that `text` spells, each as its key and
/// the text of its value; `None` where `text` spells no object.
pub uninterp spec fn json_object(text: Seq<char>) -> Option<Seq<(Seq<char>, Seq<char>)>>;

/// The string that the JSON string literal `text` spells; `None` where
/// `text` is no such literal.
pub uninterp spec fn json_string(text: Seq<char>) -> Option<Seq<char>>;

/// Splits a stream of JSON values.
///
/// Trusted: runs `serde_json::Deserializer::from_slice(data).into_iter()`
/// for raw values and collects the text of each value until the iterator
/// yields an error. The contract only names what was collected and
/// whether an error came.
#[verifier::external_body]
pub(crate) fn read_json_documents(data: &[u8]) -> (out: (Vec<String>, bool))
    ensures
        texts_of(out.0@) == json_documents(data@).0,
        out.1 == json_documents(data@).1,
{
    let mut documents: Vec<String> = Vec::new();
    let stream = serde_json::Deserializer::from_slice(data);
    for item in stream.into_iter::<Box<serde_json::value::RawValue>>() {
        match item {
            Ok(raw) => documents.push(raw.get().to_owned()),
            Err(_) => return (documents, false),
        }
    }
    (documents, true)
}

/// Splits a JSON object into its members.
///
/// Trusted: calls `serde_json::from_str` for a map from strings to raw
/// values and hands back each key with the text of its value, or `None`
/// where the call fails. The contract only names that result.
#[verifier::external_body]
pub(crate) fn read_json_object(text: &str) -> (out: Option<Vec<(String, String)>>)
    ensures
        match json_object(text@) {
            Some(members) => out matches Some(found) && pairs_of(found@) == members,
            None => out is None,
        },
{
    let parsed = serde_json::from_str::<
        std::collections::BTreeMap<String, Box<serde_json::value::RawValue>>,
    >(text);
    match parsed {
        Ok(members) => Some(members.into_iter().map(|(key, raw)| (key, raw.get().to_owned())).collect()),
        Err(_) => None,
    }
}

/// Decodes a JSON string literal.
///
/// Trusted: calls `serde_json::from_str` for a `String` and hands back the
/// string, or `None` where the call fails. The contract only names that
/// result.
#[verifier::external_body]
pub(crate) fn read_json_string(text: &str) -> (out: Option<String>)
    ensures
        match json_string(text@) {
            Some(value) => out matches Some(found) && found@ == value,
            None => out is None,
        },
{
    match serde_json::from_str::<String>(text) {
        Ok(value) => Some(value),
        Err(_) => None,
    }
}

/// The text that the JSON writer spells for the string `text`: the string
/// in double quotes, with the characters escaped that JSON asks for.
pub uninterp spec fn json_quoted(text: Seq<char>) -> Seq<char>;

/// Writes a string as a JSON string literal.
///
/// Trusted: calls `serde_json::to_string` on the string and hands back
/// what it wrote, and the empty string should it fail. The contract only
/// names the text.
#[verifier::external_body]
pub(crate) fn quote_json(text: &str) -> (out: String)
    ensures
        out@ == json_quoted(text@),
{
    match serde_json::to_string(text) {
        Ok(quoted) => quoted,
        Err(_) => String::new(),
    }
}

} // verus!
