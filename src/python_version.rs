//! Validates the Python-version restriction given for a reconcile, such as
//! `< '3.6'`, before it becomes a marker in the lock.
use vstd::prelude::*;

use crate::error::Error;
use crate::text::{chars_of, string_of};

verus! {

/// What `regex::Regex::is_match` answers for a regex built from `pattern`,
/// on `text`.
pub uninterp spec fn regex_matches(pattern: Seq<char>, text: Seq<char>) -> bool;

/// Relies on `regex::Regex::new`, which builds the regex or refuses the
/// pattern, and `regex::Regex::is_match`, which tells whether the regex
/// matches somewhere in `text`.
#[verifier::external_body]
fn regex_is_match(pattern: &str, text: &str) -> (r: Option<bool>)
    ensures
        r matches Some(b) ==> b == regex_matches(pattern@, text@),
{
    match regex::Regex::new(pattern) {
        Ok(re) => Some(re.is_match(text)),
        Err(_) => None,
    }
}

/// A comparison, one space, and a quoted version.
pub open spec fn version_pattern() -> Seq<char> {
    "^(==|<|<=|>|>=) (('.*?')|(\".*?\"))$"@
}

pub open spec fn version_hint() -> Seq<char> {
    "should match something like `<= '3.6'`"@
}

/// The restriction `python_version`, given whether it matched the pattern
/// (`None`: the pattern could not be built).
pub fn accept_python_version(python_version: &str, matched: Option<bool>) -> (r: Result<String, Error>)
    ensures
        matched == Some(true) ==> (r matches Ok(s) && s@ == python_version@),
        matched != Some(true) ==> (r matches Err(Error::Other { message }) && message@
            == version_hint()),
{
    match matched {
        Some(true) => Ok(string_of(&chars_of(python_version))),
        _ => Err(Error::Other { message: "should match something like `<= '3.6'`".to_string() }),
    }
}

/// Accepts a restriction such as `< '3.6'` or `>= "3.7"`.
pub fn parse_python_version(string: &str) -> (r: Result<String, Error>)
    ensures
        r matches Ok(s) ==> s@ == string@ && regex_matches(version_pattern(), string@),
        r matches Err(e) ==> (e matches Error::Other { message } && message@ == version_hint()),
{
    let matched = regex_is_match("^(==|<|<=|>|>=) (('.*?')|(\".*?\"))$", string);
    accept_python_version(string, matched)
}

} // verus!
