//! Regular expressions: every match of a pattern in a text, and the text
//! with every match replaced.

use crate::text::texts;
use regex::Regex;
use vstd::prelude::*;

verus! {

/// `Regex` of the crate regex, a compiled regular expression: nothing is
/// known of what is inside one.
#[verifier::external_type_specification]
#[verifier::external_body]
pub struct ExRegex(regex::Regex);

/// `Error` of the crate regex, the fault found in a pattern: nothing is
/// known of what is inside one.
#[verifier::external_type_specification]
#[verifier::external_body]
pub struct ExRegexError(regex::Error);

/// What compiling `source` as a regular expression gives: the expression,
/// or the fault in `source`.
pub uninterp spec fn compiled(source: Seq<char>) -> Result<Regex, regex::Error>;

/// The matches of `re` in `text`, from the left and not overlapping.
pub uninterp spec fn found_by(re: Regex, text: Seq<char>) -> Seq<Seq<char>>;

/// `text` with every match of `re` replaced by `replacer`, in which `$` and
/// a group's number or name stand for what the group matched.
pub uninterp spec fn replaced_by(re: Regex, text: Seq<char>, replacer: Seq<char>) -> Seq<char>;

/// The matches of the pattern `source` in `text`, or nothing where `source`
/// is no pattern.
pub open spec fn matches_of(source: Seq<char>, text: Seq<char>) -> Option<Seq<Seq<char>>> {
    match compiled(source) {
        Ok(re) => Some(found_by(re, text)),
        Err(_) => None,
    }
}

/// `text` with every match of the pattern `source` replaced, or nothing
/// where `source` is no pattern.
pub open spec fn replaced(source: Seq<char>, text: Seq<char>, replacer: Seq<char>) -> Option<
    Seq<char>,
> {
    match compiled(source) {
        Ok(re) => Some(replaced_by(re, text, replacer)),
        Err(_) => None,
    }
}

/// `Regex::new` of the crate regex: the same source gives the same
/// expression, or the same fault.
#[verifier::external_body]
fn compile(source: &str) -> (out: Result<Regex, regex::Error>)
    ensures
        out == compiled(source@),
{
    Regex::new(source)
}

/// `Regex::find_iter` of the crate regex, each match taken as the text
/// that `Match::as_str` gives.
#[verifier::external_body]
fn find_iter(re: &Regex, text: &str) -> (found: Vec<String>)
    ensures
        texts(found@) == found_by(*re, text@),
{
    re.find_iter(text).map(|m| m.as_str().to_string()).collect()
}

/// `Regex::replace_all` of the crate regex.
#[verifier::external_body]
fn replace_all(re: &Regex, text: &str, replacer: &str) -> (out: String)
    ensures
        out@ == replaced_by(*re, text@, replacer@),
{
    re.replace_all(text, replacer).into_owned()
}

/// The texts of a list of strings, where there is one.
pub open spec fn found_view(found: Option<Vec<String>>) -> Option<Seq<Seq<char>>> {
    match found {
        Some(found) => Some(texts(found@)),
        None => None,
    }
}

/// The text of a string, where there is one.
pub open spec fn text_view(text: Option<String>) -> Option<Seq<char>> {
    match text {
        Some(text) => Some(text@),
        None => None,
    }
}

/// Every match of `pattern` in `text`, in order; nothing where `pattern`
/// is no regular expression.
pub fn find(pattern: &str, text: &str) -> (found: Option<Vec<String>>)
    ensures
        found_view(found) == matches_of(pattern@, text@),
{
    match compile(pattern) {
        Ok(re) => Some(find_iter(&re, text)),
        Err(_) => None,
    }
}

/// `text` with every match of `pattern` replaced by `replacer`; nothing
/// where `pattern` is no regular expression.
pub fn replace(pattern: &str, text: &str, replacer: &str) -> (out: Option<String>)
    ensures
        text_view(out) == replaced(pattern@, text@, replacer@),
{
    match compile(pattern) {
        Ok(re) => Some(replace_all(&re, text, replacer)),
        Err(_) => None,
    }
}

} // verus!
