//! The ways in which compression and decompression fail.

use vstd::prelude::*;

verus! {

/// `std::io::ErrorKind`, carried as it is.
#[verifier::external_type_specification]
#[verifier::external_body]
pub struct ExIoErrorKind(std::io::ErrorKind);

/// `std::io::Error`, of which only the kind is kept.
#[verifier::external_type_specification]
#[verifier::external_body]
pub struct ExIoError(std::io::Error);

/// The kind of a `std::io::Error`: what its `kind` returns.
pub uninterp spec fn kind_of(error: std::io::Error) -> std::io::ErrorKind;

/// The name of a `std::io::ErrorKind`: what `{:?}` writes for it.
pub uninterp spec fn kind_name(kind: std::io::ErrorKind) -> Seq<char>;

/// `std::io::Error::kind`.
pub assume_specification[ std::io::Error::kind ](error: &std::io::Error) -> (kind:
    std::io::ErrorKind)
    ensures
        kind == kind_of(*error),
;

/// `{:?}` of a `std::io::ErrorKind`: its name.
#[verifier::external_body]
fn kind_text(kind: &std::io::ErrorKind) -> (text: String)
    ensures
        text@ == kind_name(*kind),
{
    format!("{:?}", kind)
}

/// Why a call failed.
#[derive(Debug)]
pub enum Error {
    /// Reading or writing failed, with the kind of the failure.
    IO(std::io::ErrorKind),
    /// A text is not JSON, with the parser's message.
    JSONError(String),
    /// A value cannot be referenced, or names no entry of the reference
    /// list; with the text of that value.
    UnknownJSONValueRef(String),
}

impl Error {
    /// The text of this error: the name of the kind of an I/O failure, and
    /// the message that the other errors carry.
    pub fn to_string(&self) -> (text: String)
        ensures
            text@ == match *self {
                Error::IO(kind) => kind_name(kind),
                Error::JSONError(message) => message@,
                Error::UnknownJSONValueRef(message) => message@,
            },
    {
        match self {
            Error::IO(kind) => kind_text(kind),
            Error::JSONError(message) => message.clone(),
            Error::UnknownJSONValueRef(message) => message.clone(),
        }
    }
}

impl From<std::io::Error> for Error {
    fn from(error: std::io::Error) -> (made: Error) {
        Error::IO(error.kind())
    }
}

impl vstd::std_specs::convert::FromSpecImpl<std::io::Error> for Error {
    open spec fn obeys_from_spec() -> bool {
        true
    }

    open spec fn from_spec(error: std::io::Error) -> Error {
        Error::IO(kind_of(error))
    }
}

} // verus!
