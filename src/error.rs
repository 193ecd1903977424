//! Errors reported by the lock engine and the `setup.cfg` reader.
use vstd::prelude::*;

use crate::text::{append, chars_of, string_of};

verus! {

/// Every variant matches a kind of error that the end user should see.
#[derive(Debug)]
pub enum Error {
    /// Free-form message.
    Other { message: String },
    /// A logical line of the lock is neither a simple nor a source-reference
    /// dependency. `line` is the 1-based number of its first physical line.
    MalformedLock { line: usize, details: String },
    /// No entry of the lock has the requested name.
    NothingToBump { name: String },
    /// More than one entry of the lock has the requested name.
    MultipleBumps { name: String },
    /// The entry with the requested name is not of the requested kind.
    IncorrectLockedType { name: String, expected_type: String },
    /// A line of `pip freeze` output is not of the form `name==version`.
    ParsePipFreezeError { line: String },
    /// The `setup.cfg` file could not be parsed.
    MalformedSetupCfg { path: String, message: String },
}

/// An `Error::Other` holding `message`.
pub fn new_error(message: String) -> (r: Error)
    ensures
        r == (Error::Other { message }),
{
    Error::Other { message }
}

/// `a` and `b`, one after the other.
pub fn concat2(a: &str, b: &str) -> (r: String)
    ensures
        r@ == a@ + b@,
{
    let mut res = chars_of(a);
    append(&mut res, &chars_of(b));
    string_of(&res)
}

/// `a`, `b` and `c`, one after the other.
pub fn concat3(a: &str, b: &str, c: &str) -> (r: String)
    ensures
        r@ == a@ + b@ + c@,
{
    let mut res = chars_of(a);
    append(&mut res, &chars_of(b));
    append(&mut res, &chars_of(c));
    string_of(&res)
}

/// The message shown to the user for `e`.
pub open spec fn message_of(e: Error) -> Seq<char> {
    match e {
        Error::Other { message } => message@,
        Error::MalformedLock { details, .. } => "Malformed lock: "@ + details@,
        Error::NothingToBump { name } => "'"@ + name@ + "' not found in lock"@,
        Error::MultipleBumps { name } => "multiple matches found for '"@ + name@ + "' in lock"@,
        Error::IncorrectLockedType { name, expected_type } => name@ + " is not a "@
            + expected_type@ + " dependency"@,
        Error::ParsePipFreezeError { line } => "could not parse `pip freeze` output at line: '"@
            + line@ + "'"@,
        Error::MalformedSetupCfg { path, message } => "Could not parse "@ + path@ + "\n"@
            + message@,
    }
}

impl Error {
    /// The message shown to the user.
    pub fn message(&self) -> (r: String)
        ensures
            r@ == message_of(*self),
    {
        match self {
            Error::Other { message } => message.clone(),
            Error::MalformedLock { details, .. } => concat2("Malformed lock: ", details.as_str()),
            Error::NothingToBump { name } => concat3("'", name.as_str(), "' not found in lock"),
            Error::MultipleBumps { name } => concat3(
                "multiple matches found for '",
                name.as_str(),
                "' in lock",
            ),
            Error::IncorrectLockedType { name, expected_type } => {
                let head = concat3(name.as_str(), " is not a ", expected_type.as_str());
                concat2(head.as_str(), " dependency")
            },
            Error::ParsePipFreezeError { line } => concat3(
                "could not parse `pip freeze` output at line: '",
                line.as_str(),
                "'",
            ),
            Error::MalformedSetupCfg { path, message } => {
                let head = concat3("Could not parse ", path.as_str(), "\n");
                concat2(head.as_str(), message.as_str())
            },
        }
    }
}

} // verus!
