//! Error values of the protocol, of commands and of the handshake.
use vstd::prelude::*;

use crate::codec::{Response, Text};

verus! {

#[verifier::external_type_specification]
#[verifier::external_body]
pub struct ExIoError(std::io::Error);

/// Protocol errors.
#[derive(Debug)]
pub enum Error {
    /// The codec found a malformed header, or a text line that is not valid.
    Parse(String),
    /// The peer closed the connection or the stream failed.
    PeerGone(Option<std::io::Error>),
}

impl Error {
    /// A copy of the error that keeps its kind and drops what it carries.
    pub fn clone_kind(&self) -> (r: Error)
        ensures
            self is Parse ==> r is Parse,
            self is PeerGone ==> r == Error::PeerGone(None),
    {
        match self {
            Error::Parse(_) => Error::Parse(String::new()),
            Error::PeerGone(_) => Error::PeerGone(None),
        }
    }
}

/// Errors of a command's execution.
#[derive(Debug)]
pub enum CommandError {
    /// The server answered with an error line; this is its text.
    Error(Text),
    /// The answer was well formed but the command could not read it.
    Output(&'static str, Response),
    /// A protocol level error.
    Protocol(Error),
}

} // verus!
