//! List commands.
use vstd::prelude::*;
use vstd::string::StringSliceAdditionalSpecFns;

use super::{
    array2, array3, bulk_views, count_output, count_reads_as, lemma_words2, lemma_words3,
    push_word, push_words, lemma_one_word, with_words, words, BulkOutputCommand, Command,
};
use crate::codec::{
    lemma_request_frames, request_frames, same_bytes, BulkString,
    Request, Response,
};
use crate::errors::CommandError;
use crate::resp::{decimal, Frame};

verus! {

broadcast use vstd::seq::group_seq_axioms;

/// LINDEX: the element at `index` of the list at `key`, or nil.
#[allow(non_snake_case)]
pub fn LIndex(key: BulkString, index: i64) -> (r: BulkOutputCommand)
    ensures
        r.spec_request() == words(seq!["LINDEX".spec_bytes(), key@, decimal(index as int)]),
{
    let ghost k = key@;
    let req = array3(
        Request::from_static("LINDEX"),
        Request::BulkString(key),
        Request::BulkInteger(index),
    );
    proof {
        lemma_words3("LINDEX".spec_bytes(), k, decimal(index as int));
    }
    BulkOutputCommand(req)
}

/// LPOP: removes and returns the first element of the list at `key`.
#[allow(non_snake_case)]
pub fn LPop(key: BulkString) -> (r: BulkOutputCommand)
    ensures
        r.spec_request() == words(seq!["LPOP".spec_bytes(), key@]),
{
    let ghost k = key@;
    let req = array2(Request::from_static("LPOP"), Request::BulkString(key));
    proof {
        lemma_words2("LPOP".spec_bytes(), k);
    }
    BulkOutputCommand(req)
}

/// RPOP: removes and returns the last element of the list at `key`.
#[allow(non_snake_case)]
pub fn RPop(key: BulkString) -> (r: BulkOutputCommand)
    ensures
        r.spec_request() == words(seq!["RPOP".spec_bytes(), key@]),
{
    let ghost k = key@;
    let req = array2(Request::from_static("RPOP"), Request::BulkString(key));
    proof {
        lemma_words2("RPOP".spec_bytes(), k);
    }
    BulkOutputCommand(req)
}

/// LPUSH: inserts values at the head of the list at `key`; the answer is
/// the length of the list.
#[allow(non_snake_case)]
pub fn LPush(key: BulkString, value: BulkString) -> (r: LPushCommand)
    ensures
        r.spec_request() == words(seq!["LPUSH".spec_bytes(), key@, value@]),
        r.0@.len() == 3,
        r.0@[0] matches Request::BulkStatic(b) && b@ == "LPUSH".spec_bytes(),
{
    push_command(Request::from_static("LPUSH"), key, value)
}

/// RPUSH: inserts values at the tail of the list at `key`; the answer is
/// the length of the list.
#[allow(non_snake_case)]
pub fn RPush(key: BulkString, value: BulkString) -> (r: LPushCommand)
    ensures
        r.spec_request() == words(seq!["RPUSH".spec_bytes(), key@, value@]),
        r.0@.len() == 3,
        r.0@[0] matches Request::BulkStatic(b) && b@ == "RPUSH".spec_bytes(),
{
    push_command(Request::from_static("RPUSH"), key, value)
}

fn push_command(name: Request, key: BulkString, value: BulkString) -> (r: LPushCommand)
    requires
        name@ is Bulk,
    ensures
        r.spec_request() == words(seq![name@->Bulk_0, key@, value@]),
        r.0@.len() == 3,
        r.0@[0] == name,
{
    let ghost (n, k, w) = (name@, key@, value@);
    let v = vec![name, Request::BulkString(key), Request::BulkString(value)];
    proof {
        lemma_request_frames(v@);
        lemma_words3(n->Bulk_0, k, w);
        assert(request_frames(v@) =~= seq![n, Frame::Bulk(k), Frame::Bulk(w)]);
    }
    LPushCommand(v)
}

/// LPUSH or RPUSH with their values.
pub struct LPushCommand(pub Vec<Request>);

/// The name that `if_exists` gives to a push command whose first word is `first`.
pub open spec fn pushx_name(first: Request) -> Seq<u8> {
    match first {
        Request::BulkStatic(s) => if s@ == "LPUSH".spec_bytes() || s@ == "LPUSHX".spec_bytes() {
            "LPUSHX".spec_bytes()
        } else {
            "RPUSHX".spec_bytes()
        },
        _ => "LPUSHX".spec_bytes(),
    }
}

impl LPushCommand {
    /// Turns LPUSH into LPUSHX and RPUSH into RPUSHX: values are only
    /// inserted when the key already holds a list.
    pub fn if_exists(self) -> (r: Self)
        requires
            self.0@.len() > 0,
        ensures
            r.0@.len() == self.0@.len(),
            r.0@[0]@ == Frame::Bulk(pushx_name(self.0@[0])),
            r.spec_request() == Frame::Array(
                request_frames(self.0@).update(0, Frame::Bulk(pushx_name(self.0@[0]))),
            ),
    {
        let mut v = self.0;
        let ghost before = v@;
        let lpush = match &v[0] {
            Request::BulkStatic(s) => same_bytes(s, "LPUSH".as_bytes()) || same_bytes(
                s,
                "LPUSHX".as_bytes(),
            ),
            _ => true,
        };
        let name = if lpush {
            Request::from_static("LPUSHX")
        } else {
            Request::from_static("RPUSHX")
        };
        v.set(0, name);
        proof {
            lemma_request_frames(before);
            lemma_request_frames(v@);
            assert(request_frames(v@) =~= request_frames(before).update(
                0,
                Frame::Bulk(pushx_name(before[0])),
            ));
        }
        LPushCommand(v)
    }

    /// Adds a value.
    pub fn value(self, other: BulkString) -> (r: Self)
        ensures
            r.spec_request() == with_words(self.spec_request(), seq![other@]),
            r.0@.len() == self.0@.len() + 1,
            self.0@.len() > 0 ==> r.0@[0] == self.0@[0],
    {
        proof {
            lemma_one_word(other@);
        }
        let mut v = self.0;
        push_word(&mut v, other);
        LPushCommand(v)
    }

    /// Adds more values.
    pub fn extend(self, others: Vec<BulkString>) -> (r: Self)
        ensures
            r.spec_request() == with_words(self.spec_request(), bulk_views(others@)),
    {
        let mut v = self.0;
        push_words(&mut v, others);
        LPushCommand(v)
    }
}

impl Command for LPushCommand {
    type Output = usize;

    open spec fn spec_request(&self) -> Frame {
        Frame::Array(request_frames(self.0@))
    }

    open spec fn reads_as(val: Response, r: Result<usize, CommandError>) -> bool {
        count_reads_as(val, r)
    }

    fn to_request(self) -> (r: Request) {
        Request::Array(self.0)
    }

    fn to_output(val: Response) -> (r: Result<usize, CommandError>) {
        count_output(val)
    }
}

} // verus!
