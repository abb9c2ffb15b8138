//! Typed commands: each one builds its request frame and reads the
//! server's answer into a typed output.
use vstd::prelude::*;
use vstd::string::StringSliceAdditionalSpecFns;

use crate::codec::{
    lemma_request_frames, lemma_request_frames_push, request_frames, BulkString, Request, Response, Text,
};
use crate::errors::CommandError;
use crate::resp::Frame;

mod auth;
mod connection;
mod hashes;
mod keys;
mod lists;
mod pubsub;
mod strings;

pub use self::auth::{Auth, AuthCommand};
pub use self::connection::{Ping, PingCommand, Reset, ResetCommand, Select, SelectCommand};
pub use self::hashes::{HDel, HDelCommand, HGet, HLen, HSet, HSetCommand};
pub use self::keys::{
    Del, Exists, Expire, ExpireAt, Keys, KeysCommand, KeysPatternCommand, Ttl, TtlCommand,
    TtlResult,
};
pub use self::lists::{LIndex, LPop, LPush, LPushCommand, RPop, RPush};
pub use self::pubsub::{
    PSubscribe, PUnSubscribe, PubSubCommand, Publish, SPublish, SSubscribe, SUnSubscribe,
    Subscribe, SubscribeItem, SubscribeOutputCommand, UnSubscribe, UnSubscribeOutputCommand,
};
pub use self::strings::{Expiry, Get, IncrBy, SetCommand, SetValue};

verus! {

broadcast use vstd::seq::group_seq_axioms;

/// A command: a request frame, and how the answer to it is read.
pub trait Command: Sized {
    /// What a successful answer is read into.
    type Output;

    /// The frame that the command sends.
    spec fn spec_request(&self) -> Frame;

    /// `r` is what the answer `val` is read into.
    spec fn reads_as(val: Response, r: Result<Self::Output, CommandError>) -> bool;

    /// The request frame of the command.
    fn to_request(self) -> (r: Request)
        ensures
            r@ == self.spec_request(),
    ;

    /// Reads an answer of the server that is not an error line.
    fn to_output(val: Response) -> (r: Result<Self::Output, CommandError>)
        ensures
            Self::reads_as(val, r),
    ;
}

/// The bytes of "AUTH".
pub open spec fn auth_word() -> Seq<u8> {
    "AUTH".spec_bytes()
}

/// An array of bulk strings.
pub open spec fn words(ws: Seq<Seq<u8>>) -> Frame {
    Frame::Array(ws.map_values(|w: Seq<u8>| Frame::Bulk(w)))
}

/// Appends bulk strings to the words of a command.
pub open spec fn with_words(f: Frame, ws: Seq<Seq<u8>>) -> Frame {
    match f {
        Frame::Array(items) => Frame::Array(items + ws.map_values(|w: Seq<u8>| Frame::Bulk(w))),
        _ => f,
    }
}

/// The bytes of each bulk string.
pub open spec fn bulk_views(v: Seq<BulkString>) -> Seq<Seq<u8>> {
    v.map_values(|b: BulkString| b@)
}

/// The bytes of "OK".
pub open spec fn ok_text() -> Seq<u8> {
    seq![79u8, 75u8]
}

/// Whether a text is "OK".
pub(crate) fn is_ok_text(text: &Text) -> (r: bool)
    ensures
        r == (text@ == ok_text()),
{
    let t = text.as_slice();
    if t.len() == 2 && t[0] == 79 && t[1] == 75 {
        assert(t@ =~= ok_text());
        true
    } else {
        false
    }
}

/// Appends a bulk string as a request.
pub(crate) fn push_word(v: &mut Vec<Request>, w: BulkString)
    ensures
        request_frames(final(v)@) == request_frames(old(v)@) + seq![Frame::Bulk(w@)],
        final(v)@.len() == old(v)@.len() + 1,
        forall|m: int| 0 <= m < old(v)@.len() ==> #[trigger] final(v)@[m] == old(v)@[m],
{
    let ghost before = v@;
    let ghost x = w@;
    proof {
        lemma_request_frames_push(v@, Request::BulkString(w));
    }
    v.push(Request::BulkString(w));
    assert(request_frames(before).push(Frame::Bulk(x)) =~= request_frames(before) + seq![Frame::Bulk(x)]);
}

pub proof fn lemma_one_word(w: Seq<u8>)
    ensures
        seq![w].map_values(|x: Seq<u8>| Frame::Bulk(x)) == seq![Frame::Bulk(w)],
{
    assert(seq![w].map_values(|x: Seq<u8>| Frame::Bulk(x)) =~= seq![Frame::Bulk(w)]);
}

/// Appends each bulk string as a request.
pub(crate) fn push_words(v: &mut Vec<Request>, items: Vec<BulkString>)
    ensures
        request_frames(final(v)@) == request_frames(old(v)@) + bulk_views(items@).map_values(
            |w: Seq<u8>| Frame::Bulk(w),
        ),
{
    let ghost start = request_frames(v@);
    let ghost all = bulk_views(items@).map_values(|w: Seq<u8>| Frame::Bulk(w));
    let mut rest = items;
    let ghost total = rest@.len();
    while rest.len() > 0
        invariant
            total == items@.len(),
            rest@.len() <= total,
            all == bulk_views(items@).map_values(|w: Seq<u8>| Frame::Bulk(w)),
            forall|m: int| 0 <= m < rest@.len() ==> #[trigger] rest@[m] == items@[total - rest@.len() + m],
            request_frames(v@) == start + all.take(total - rest@.len()),
        decreases rest@.len(),
    {
        let ghost done = total - rest@.len();
        let b = rest.remove(0);
        proof {
            lemma_request_frames_push(v@, Request::BulkString(b));
        }
        v.push(Request::BulkString(b));
        assert(all.take(done).push(all[done]) =~= all.take(done + 1));
    }
    assert(all.take(total as int) =~= all);
}

/// Two requests as an array.
pub(crate) fn array2(a: Request, b: Request) -> (r: Request)
    ensures
        r@ == Frame::Array(seq![a@, b@]),
{
    let ghost (fa, fb) = (a@, b@);
    let v = vec![a, b];
    proof {
        lemma_request_frames(v@);
        assert(request_frames(v@) =~= seq![fa, fb]);
    }
    Request::Array(v)
}

/// Three requests as an array.
pub(crate) fn array3(a: Request, b: Request, c: Request) -> (r: Request)
    ensures
        r@ == Frame::Array(seq![a@, b@, c@]),
{
    let ghost (fa, fb, fc) = (a@, b@, c@);
    let v = vec![a, b, c];
    proof {
        lemma_request_frames(v@);
        assert(request_frames(v@) =~= seq![fa, fb, fc]);
    }
    Request::Array(v)
}

pub proof fn lemma_words2(a: Seq<u8>, b: Seq<u8>)
    ensures
        words(seq![a, b]) == Frame::Array(seq![Frame::Bulk(a), Frame::Bulk(b)]),
{
    assert(seq![a, b].map_values(|w: Seq<u8>| Frame::Bulk(w)) =~= seq![Frame::Bulk(a), Frame::Bulk(b)]);
}

pub proof fn lemma_words3(a: Seq<u8>, b: Seq<u8>, c: Seq<u8>)
    ensures
        words(seq![a, b, c]) == Frame::Array(seq![Frame::Bulk(a), Frame::Bulk(b), Frame::Bulk(c)]),
{
    assert(seq![a, b, c].map_values(|w: Seq<u8>| Frame::Bulk(w)) =~= seq![
        Frame::Bulk(a),
        Frame::Bulk(b),
        Frame::Bulk(c),
    ]);
}

pub proof fn lemma_words4(a: Seq<u8>, b: Seq<u8>, c: Seq<u8>, d: Seq<u8>)
    ensures
        words(seq![a, b, c, d]) == Frame::Array(
            seq![Frame::Bulk(a), Frame::Bulk(b), Frame::Bulk(c), Frame::Bulk(d)],
        ),
{
    assert(seq![a, b, c, d].map_values(|w: Seq<u8>| Frame::Bulk(w)) =~= seq![
        Frame::Bulk(a),
        Frame::Bulk(b),
        Frame::Bulk(c),
        Frame::Bulk(d),
    ]);
}

/// An integer answer that is a count, as a `usize`.
pub(crate) fn count_output(val: Response) -> (r: Result<usize, CommandError>)
    ensures
        count_reads_as(val, r),
{
    match val {
        Response::Integer(x) => if 0 <= x && (x as u64) <= (usize::MAX as u64) {
            Ok(x as usize)
        } else {
            Err(CommandError::Output("Cannot parse response", Response::Integer(x)))
        },
        _ => Err(CommandError::Output("Cannot parse response", val)),
    }
}

/// A count answer: an integer that fits a `usize`.
pub open spec fn count_reads_as(val: Response, r: Result<usize, CommandError>) -> bool {
    match val {
        Response::Integer(x) => if 0 <= x <= usize::MAX {
            r == Ok::<usize, CommandError>(x as usize)
        } else {
            r matches Err(CommandError::Output(_, v)) && v == val
        },
        _ => r matches Err(CommandError::Output(_, v)) && v == val,
    }
}

/// A command whose answer is a bulk string, or nil.
pub struct BulkOutputCommand(pub Request);

impl Command for BulkOutputCommand {
    type Output = Option<Vec<u8>>;

    open spec fn spec_request(&self) -> Frame {
        self.0@
    }

    open spec fn reads_as(val: Response, r: Result<Option<Vec<u8>>, CommandError>) -> bool {
        match val {
            Response::Nil => r == Ok::<Option<Vec<u8>>, CommandError>(None),
            Response::Bytes(b) => r == Ok::<Option<Vec<u8>>, CommandError>(Some(b)),
            _ => r matches Err(CommandError::Output(_, v)) && v == val,
        }
    }

    fn to_request(self) -> (r: Request) {
        self.0
    }

    fn to_output(val: Response) -> (r: Result<Option<Vec<u8>>, CommandError>) {
        match val {
            Response::Nil => Ok(None),
            Response::Bytes(b) => Ok(Some(b)),
            _ => Err(CommandError::Output("Cannot parse response", val)),
        }
    }
}

/// A command whose answer is an integer.
pub struct IntOutputCommand(pub Request);

impl Command for IntOutputCommand {
    type Output = i64;

    open spec fn spec_request(&self) -> Frame {
        self.0@
    }

    open spec fn reads_as(val: Response, r: Result<i64, CommandError>) -> bool {
        match val {
            Response::Integer(x) => r == Ok::<i64, CommandError>(x),
            _ => r matches Err(CommandError::Output(_, v)) && v == val,
        }
    }

    fn to_request(self) -> (r: Request) {
        self.0
    }

    fn to_output(val: Response) -> (r: Result<i64, CommandError>) {
        match val {
            Response::Integer(x) => Ok(x),
            _ => Err(CommandError::Output("Cannot parse response", val)),
        }
    }
}

/// A command whose answer is the integer 0 or 1.
pub struct BoolOutputCommand(pub Request);

impl Command for BoolOutputCommand {
    type Output = bool;

    open spec fn spec_request(&self) -> Frame {
        self.0@
    }

    open spec fn reads_as(val: Response, r: Result<bool, CommandError>) -> bool {
        match val {
            Response::Integer(0) => r == Ok::<bool, CommandError>(false),
            Response::Integer(1) => r == Ok::<bool, CommandError>(true),
            _ => r matches Err(CommandError::Output(_, v)) && v == val,
        }
    }

    fn to_request(self) -> (r: Request) {
        self.0
    }

    fn to_output(val: Response) -> (r: Result<bool, CommandError>) {
        match val.to_bool() {
            Ok(b) => Ok(b),
            Err((reason, v)) => Err(CommandError::Output(reason, v)),
        }
    }
}

} // verus!
