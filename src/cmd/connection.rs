//! Connection commands.
use vstd::prelude::*;
use vstd::string::StringSliceAdditionalSpecFns;

use super::{array2, is_ok_text, ok_text, Command};
use crate::codec::{lemma_request_frames, request_frames, Request, Response, Text};
use crate::errors::CommandError;
use crate::resp::{decimal, Frame};

verus! {

broadcast use vstd::seq::group_seq_axioms;

/// SELECT: selects the logical database `db`; the answer is whether it was selected.
#[allow(non_snake_case)]
pub fn Select(db: u32) -> (r: SelectCommand)
    ensures
        r.spec_request() == Frame::Array(
            seq![Frame::Bulk("SELECT".spec_bytes()), Frame::Bulk(decimal(db as int))],
        ),
{
    SelectCommand(array2(Request::from_static("SELECT"), Request::BulkInteger(db as i64)))
}

pub struct SelectCommand(pub Request);

impl Command for SelectCommand {
    type Output = bool;

    open spec fn spec_request(&self) -> Frame {
        self.0@
    }

    open spec fn reads_as(val: Response, r: Result<bool, CommandError>) -> bool {
        match val {
            Response::String(t) => r == Ok::<bool, CommandError>(t@ == ok_text()),
            _ => r == Ok::<bool, CommandError>(false),
        }
    }

    fn to_request(self) -> (r: Request) {
        self.0
    }

    fn to_output(val: Response) -> (r: Result<bool, CommandError>) {
        match val {
            Response::String(t) => Ok(is_ok_text(&t)),
            _ => Ok(false),
        }
    }
}

/// A command of one word.
fn single(name: Request) -> (r: Request)
    ensures
        r@ == Frame::Array(seq![name@]),
{
    let ghost n = name@;
    let v = vec![name];
    proof {
        lemma_request_frames(v@);
        assert(request_frames(v@) =~= seq![n]);
    }
    Request::Array(v)
}

/// Reads a status answer: a simple string is the output; an error line is
/// the server's error.
pub open spec fn status_reads_as(val: Response, r: Result<Text, CommandError>) -> bool {
    match val {
        Response::String(t) => r == Ok::<Text, CommandError>(t),
        Response::Error(t) => r == Err::<Text, CommandError>(CommandError::Error(t)),
        _ => r matches Err(CommandError::Output(_, v)) && v == val,
    }
}

fn status_output(val: Response) -> (r: Result<Text, CommandError>)
    ensures
        status_reads_as(val, r),
{
    match val {
        Response::String(t) => Ok(t),
        Response::Error(t) => Err(CommandError::Error(t)),
        _ => Err(CommandError::Output("Unknown response", val)),
    }
}

/// PING: the answer is the text the server sends back, normally PONG.
#[allow(non_snake_case)]
pub fn Ping() -> (r: PingCommand)
    ensures
        r.spec_request() == Frame::Array(seq![Frame::Bulk("PING".spec_bytes())]),
{
    PingCommand(single(Request::from_static("PING")))
}

pub struct PingCommand(pub Request);

impl Command for PingCommand {
    type Output = Text;

    open spec fn spec_request(&self) -> Frame {
        self.0@
    }

    open spec fn reads_as(val: Response, r: Result<Text, CommandError>) -> bool {
        status_reads_as(val, r)
    }

    fn to_request(self) -> (r: Request) {
        self.0
    }

    fn to_output(val: Response) -> (r: Result<Text, CommandError>) {
        status_output(val)
    }
}

/// RESET: resets the server side of the connection; the answer is normally RESET.
#[allow(non_snake_case)]
pub fn Reset() -> (r: ResetCommand)
    ensures
        r.spec_request() == Frame::Array(seq![Frame::Bulk("RESET".spec_bytes())]),
{
    ResetCommand(single(Request::from_static("RESET")))
}

pub struct ResetCommand(pub Request);

impl Command for ResetCommand {
    type Output = Text;

    open spec fn spec_request(&self) -> Frame {
        self.0@
    }

    open spec fn reads_as(val: Response, r: Result<Text, CommandError>) -> bool {
        status_reads_as(val, r)
    }

    fn to_request(self) -> (r: Request) {
        self.0
    }

    fn to_output(val: Response) -> (r: Result<Text, CommandError>) {
        status_output(val)
    }
}

} // verus!
