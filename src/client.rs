//! What a command execution returns, from what came back for its request.
use vstd::prelude::*;

use crate::cmd::Command;
use crate::codec::Response;
use crate::errors::{CommandError, Error};

verus! {

/// The result of executing `U`, given what came back for its request: a
/// protocol error, an error line of the server, or an answer that `U` reads.
pub fn command_result<U: Command>(res: Result<Response, Error>) -> (r: Result<U::Output, CommandError>)
    ensures
        match res {
            Err(e) => r == Err::<U::Output, CommandError>(CommandError::Protocol(e)),
            Ok(Response::Error(t)) => r == Err::<U::Output, CommandError>(CommandError::Error(t)),
            Ok(v) => U::reads_as(v, r),
        },
{
    match res {
        Err(e) => Err(CommandError::Protocol(e)),
        Ok(item) => match item.into_result() {
            Err(t) => Err(CommandError::Error(t)),
            Ok(v) => U::to_output(v),
        },
    }
}

/// What executing a command on a connection that is already closed returns.
pub fn closed_result<U: Command>() -> (r: Result<U::Output, CommandError>)
    ensures
        r == Err::<U::Output, CommandError>(CommandError::Protocol(Error::PeerGone(None))),
{
    Err(CommandError::Protocol(Error::PeerGone(None)))
}

} // verus!
