//! The errors that parsing a clusterfile can end in.

use vstd::prelude::*;

use crate::text::{decimal, to_decimal};

verus! {

#[verifier::external_type_specification]
#[verifier::external_body]
pub struct ExIoError(std::io::Error);

#[verifier::external_type_specification]
#[verifier::external_body]
pub struct ExIoErrorKind(std::io::ErrorKind);

/// The kind of an I/O error: what `std::io::Error::kind` returns.
pub uninterp spec fn io_error_kind(e: std::io::Error) -> std::io::ErrorKind;

/// The text of the payload an I/O error was made with, which its `Display`
/// shows.
pub uninterp spec fn io_error_text(e: std::io::Error) -> Seq<char>;

/// `std::io::Error::new`: an I/O error of the given kind that carries
/// `message`; its documentation gives that `kind()` returns `kind` and that
/// the error is shown as the message.
#[verifier::external_body]
fn new_io_error(kind: std::io::ErrorKind, message: String) -> (e: std::io::Error)
    ensures
        io_error_kind(e) == kind,
        io_error_text(e) == message@,
{
    std::io::Error::new(kind, message)
}

/// An error met while reading or parsing a clusterfile.
#[derive(Debug)]
pub enum Error {
    ParseError { line: u32, message: String },
    IoError(std::io::Error),
}

/// The text a parse error is shown with: `[Line <line>]: <message>`.
pub open spec fn parse_error_text(line: u32, message: Seq<char>) -> Seq<char> {
    "[Line "@ + decimal(line as nat) + "]: "@ + message
}

impl Error {
    /// The text this error is shown with; for an I/O error, the text of the
    /// I/O error.
    pub fn message(&self) -> (m: String)
        ensures
            self matches Error::ParseError { line, message } ==> m@ == parse_error_text(*line, message@),
            self matches Error::IoError(x) ==> vstd::string::to_string_from_display_ensures::<
                std::io::Error,
            >(x, m),
    {
        match self {
            Error::ParseError { line, message } => {
                let mut m = String::from_str("[Line ");
                let n = to_decimal(*line as u64);
                m.append(n.as_str());
                m.append("]: ");
                m.append(message.as_str());
                m
            },
            Error::IoError(e) => e.to_string(),
        }
    }

    pub fn parse_error(line: u32, message: String) -> (e: Error)
        ensures
            e matches Error::ParseError { line: l, message: m } && l == line && m@ == message@,
    {
        Error::ParseError { line, message }
    }

    pub fn io_error(kind: std::io::ErrorKind, error: String) -> (e: Error)
        ensures
            e matches Error::IoError(x) && io_error_kind(x) == kind && io_error_text(x) == error@,
    {
        Error::IoError(new_io_error(kind, error))
    }
}

impl From<std::io::Error> for Error {
    fn from(e: std::io::Error) -> (r: Error) {
        Error::IoError(e)
    }
}

impl vstd::std_specs::convert::FromSpecImpl<std::io::Error> for Error {
    open spec fn obeys_from_spec() -> bool {
        true
    }

    open spec fn from_spec(e: std::io::Error) -> Error {
        Error::IoError(e)
    }
}

} // verus!
