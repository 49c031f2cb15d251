use vstd::prelude::*;
use crate::json::quoted;

verus! {

#[verifier::external_type_specification]
#[verifier::external_body]
pub struct ExJsonError(serde_json::Error);

pub open spec fn texts_of(v: Seq<String>) -> Seq<Seq<char>> {
    v.map_values(|s: String| s@)
}

/// What `serde_json::from_str::<Vec<String>>` reads from a text: the strings
/// of a JSON array of strings, or nothing when the text is not one.
pub uninterp spec fn decoded_string_list(text: Seq<char>) -> Option<Seq<Seq<char>>>;

/// The items of a non-empty pretty-printed list: each on its own line,
/// indented by two spaces, separated by commas.
pub open spec fn pretty_items(items: Seq<Seq<char>>) -> Seq<char>
    decreases items.len(),
{
    if items.len() == 0 {
        Seq::empty()
    } else if items.len() == 1 {
        "\n  "@ + quoted(items[0])
    } else {
        pretty_items(items.drop_last()) + ",\n  "@ + quoted(items.last())
    }
}

/// A list of strings as a pretty-printed JSON array: `[]` when empty, else
/// one item per line and the closing bracket on a line of its own.
pub open spec fn pretty_string_list(items: Seq<Seq<char>>) -> Seq<char> {
    if items.len() == 0 {
        "[]"@
    } else {
        "["@ + pretty_items(items) + "\n]"@
    }
}

/// Relies on `serde_json::from_str` into `Vec<String>`: a JSON array of
/// strings decodes to its strings, in order; any other text is an error.
#[verifier::external_body]
fn decode_string_list(text: &str) -> (r: Result<Vec<String>, serde_json::Error>)
    ensures
        match r {
            Ok(v) => decoded_string_list(text@) == Some(texts_of(v@)),
            Err(_) => decoded_string_list(text@) is None,
        },
{
    serde_json::from_str::<Vec<String>>(text)
}

/// Relies on `serde_json::to_string_pretty` for a `Vec<String>`: its
/// `PrettyFormatter` writes `[]` for an empty array, else `[`, then before
/// each item `\n` (first) or `,\n` and two spaces of indent, then `\n]`;
/// each string goes through `format_escaped_str`. Serialising a list of
/// strings into memory cannot fail.
#[verifier::external_body]
fn pretty_list(items: &Vec<String>) -> (r: String)
    ensures
        r@ == pretty_string_list(texts_of(items@)),
{
    match serde_json::to_string_pretty(items) {
        Ok(s) => s,
        Err(_) => String::new(),
    }
}

/// Why the model's blacklist answer could not be used.
#[derive(Debug, PartialEq, Eq, Structural, Clone, Copy)]
pub enum BlacklistError {
    /// The answer is not a JSON array of strings.
    NotAPathList,
}

/// The user message that asks the model which root entries hold build
/// output: the entries as a pretty-printed JSON array.
pub fn blacklist_request(root_entries: &Vec<String>) -> (r: String)
    ensures
        r@ == pretty_string_list(texts_of(root_entries@)),
{
    pretty_list(root_entries)
}

/// The paths to leave out of extraction, read from the model's answer, which
/// must be a JSON array of strings and nothing else.
pub fn parse_blacklist(answer: &str) -> (r: Result<Vec<String>, BlacklistError>)
    ensures
        match r {
            Ok(v) => decoded_string_list(answer@) == Some(texts_of(v@)),
            Err(e) => e == BlacklistError::NotAPathList && decoded_string_list(answer@) is None,
        },
{
    match decode_string_list(answer) {
        Ok(v) => Ok(v),
        Err(_) => Err(BlacklistError::NotAPathList),
    }
}

} // verus!
