//! What can go wrong when a desktop entry is read.

use vstd::prelude::*;

verus! {

/// `std::io::Error`. It is carried through as it is: nothing in it is
/// looked at, and nothing is assumed of it.
#[verifier::external_type_specification]
#[verifier::external_body]
pub struct ExIoError(std::io::Error);

/// Why no key file or no desktop entry could be had.
#[derive(Debug)]
pub enum Error {
    /// The bytes could not be read. The library reads nothing itself: this
    /// is for the caller that does, and is handed on as it is.
    Io(std::io::Error),
    /// The input is not a key file from its first byte to its last.
    Parse,
    /// The key file does not say that it describes an application.
    SchemaMismatch,
    /// The key file lacks the name or the command of the application.
    MissingRequiredField,
}

/// Calls `Display` for `std::io::Error` through `format!`. Nothing is
/// assumed of the text: the operating system words it.
#[verifier::external_body]
fn io_message(err: &std::io::Error) -> String {
    format!("IO error: {}", err)
}

/// Calls `std::error::Error::description` of `std::io::Error`. Nothing
/// is assumed of the text.
#[verifier::external_body]
#[allow(deprecated)]
fn io_description(err: &std::io::Error) -> &str {
    std::error::Error::description(err)
}

impl Error {
    /// The error in a few words, without what caused it.
    pub fn description(&self) -> (r: &str)
        ensures
            self is Parse ==> r@ == "Parse error"@,
            self is SchemaMismatch ==> r@ == "Not an application entry"@,
            self is MissingRequiredField ==> r@ == "Missing required field"@,
    {
        match self {
            Error::Io(err) => io_description(err),
            Error::Parse => "Parse error",
            Error::SchemaMismatch => "Not an application entry",
            Error::MissingRequiredField => "Missing required field",
        }
    }

    /// The error in words, as it is shown to a user.
    pub fn message(&self) -> (r: String)
        ensures
            self is Parse ==> r@ == "Parse error"@,
            self is SchemaMismatch ==> r@ == "Not an application entry"@,
            self is MissingRequiredField ==> r@ == "Missing required field"@,
    {
        match self {
            Error::Io(err) => io_message(err),
            Error::Parse => "Parse error".to_owned(),
            Error::SchemaMismatch => "Not an application entry".to_owned(),
            Error::MissingRequiredField => "Missing required field".to_owned(),
        }
    }

    /// The error underneath this one: the failed read, where there was one.
    pub fn cause(&self) -> (r: Option<&std::io::Error>)
        ensures
            r == match self {
                Error::Io(err) => Some(err),
                _ => None,
            },
    {
        match self {
            Error::Io(err) => Some(err),
            _ => None,
        }
    }
}

impl From<std::io::Error> for Error {
    fn from(err: std::io::Error) -> (r: Error) {
        Error::Io(err)
    }
}

impl vstd::std_specs::convert::FromSpecImpl<std::io::Error> for Error {
    open spec fn obeys_from_spec() -> bool {
        true
    }

    open spec fn from_spec(err: std::io::Error) -> Error {
        Error::Io(err)
    }
}

} // verus!
