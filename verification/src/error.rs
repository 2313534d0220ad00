//! What can go wrong.

use vstd::prelude::*;
use vstd::string::*;

use crate::hash;

verus! {

/// The kinds of input and output errors that the store tells apart.
#[derive(Clone, Copy, Debug, PartialEq, Eq, Structural)]
pub enum IoErrorKind {
    NotFound,
    AlreadyExists,
    InvalidData,
    Other,
}

/// An input or output error, as the caller reports it.
#[derive(Debug)]
pub struct IoError {
    pub kind: IoErrorKind,
    pub message: String,
}

/// An error of the store.
#[derive(Debug)]
pub enum Error {
    Io(IoError),
    Db(String),
    HashMismatch { expected: hash::Hash, actual: hash::Hash },
    InvalidPath(String),
    Utf8(String),
    Other(String),
}

/// What an error says, over mathematical values.
pub enum ErrorView {
    Io(IoErrorKind, Seq<char>),
    Db(Seq<char>),
    HashMismatch { expected: Seq<u8>, actual: Seq<u8> },
    InvalidPath(Seq<char>),
    Utf8(Seq<char>),
    Other(Seq<char>),
}

impl View for Error {
    type V = ErrorView;

    open spec fn view(&self) -> ErrorView {
        match *self {
            Error::Io(e) => ErrorView::Io(e.kind, e.message@),
            Error::Db(m) => ErrorView::Db(m@),
            Error::HashMismatch { expected, actual } => ErrorView::HashMismatch {
                expected: expected@,
                actual: actual@,
            },
            Error::InvalidPath(m) => ErrorView::InvalidPath(m@),
            Error::Utf8(m) => ErrorView::Utf8(m@),
            Error::Other(m) => ErrorView::Other(m@),
        }
    }
}

impl ErrorView {
    /// The message shown to the user.
    pub open spec fn message(self) -> Seq<char> {
        match self {
            ErrorView::Io(_, m) => "IO error: "@ + m,
            ErrorView::Db(m) => "database error: "@ + m,
            ErrorView::HashMismatch { expected, actual } => "hash mismatch: expected "@
                + hash::hex_text(expected) + ", got "@ + hash::hex_text(actual),
            ErrorView::InvalidPath(m) => "invalid path: "@ + m,
            ErrorView::Utf8(m) => "UTF-8 error in stored key: "@ + m,
            ErrorView::Other(m) => m,
        }
    }
}

impl Error {
    /// The message shown to the user.
    pub fn message(&self) -> (r: String)
        ensures
            r@ == self@.message(),
    {
        match self {
            Error::Io(e) => "IO error: ".to_owned().concat(e.message.as_str()),
            Error::Db(m) => "database error: ".to_owned().concat(m.as_str()),
            Error::HashMismatch { expected, actual } => "hash mismatch: expected ".to_owned().concat(
                expected.to_hex().as_str(),
            ).concat(", got ").concat(actual.to_hex().as_str()),
            Error::InvalidPath(m) => "invalid path: ".to_owned().concat(m.as_str()),
            Error::Utf8(m) => "UTF-8 error in stored key: ".to_owned().concat(m.as_str()),
            Error::Other(m) => m.clone(),
        }
    }
}

} // verus!
