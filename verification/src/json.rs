//! JSON texts.

use vstd::prelude::*;

use crate::text::views;

verus! {

/// The JSON array of strings that `serde_json::to_string` writes.
pub uninterp spec fn json_of_texts(texts: Seq<Seq<char>>) -> Seq<char>;

/// What `serde_json::from_str` reads from a text that should be a JSON array
/// of strings: the strings, or the text of its error.
pub uninterp spec fn texts_of_json(json: Seq<char>) -> Result<Seq<Seq<char>>, Seq<char>>;

/// What `serde_json::from_str` finds wrong with a text that should be some
/// JSON document, if anything.
pub uninterp spec fn json_fault(json: Seq<char>) -> Option<Seq<char>>;

/// A reading with its strings and its error message as plain text.
pub open spec fn shown(reading: Result<Vec<String>, String>) -> Result<
    Seq<Seq<char>>,
    Seq<char>,
> {
    match reading {
        Ok(texts) => Ok(views(texts@)),
        Err(message) => Err(message@),
    }
}

/// A successful reading.
pub open spec fn read_as(texts: Seq<Seq<char>>) -> Result<Seq<Seq<char>>, Seq<char>> {
    Ok(texts)
}

/// `serde_json::to_string` of a list of strings. Writing strings into memory
/// cannot fail, and `serde_json::from_str` reads the same strings back. What
/// the text is has a name only.
#[verifier::external_body]
pub(crate) fn write_texts(texts: &Vec<String>) -> (json: String)
    ensures
        json@ == json_of_texts(views(texts@)),
        texts_of_json(json@) == read_as(views(texts@)),
{
    serde_json::to_string(texts).unwrap()
}

/// `serde_json::from_str` to a list of strings. Which texts it reads, and as
/// what, has a name only.
#[verifier::external_body]
pub(crate) fn read_texts(json: &str) -> (reading: Result<Vec<String>, String>)
    ensures
        shown(reading) == texts_of_json(json@),
{
    match serde_json::from_str(json) {
        Ok(texts) => Ok(texts),
        Err(error) => Err(error.to_string()),
    }
}

/// `serde_json::from_str` to any document, of which only the error is kept.
/// Which texts are JSON has a name only.
#[verifier::external_body]
pub(crate) fn find_fault(json: &str) -> (fault: Option<String>)
    ensures
        crate::text::view_of(fault) == json_fault(json@),
{
    match serde_json::from_str::<serde_json::Value>(json) {
        Ok(_) => None,
        Err(error) => Some(error.to_string()),
    }
}

} // verus!
