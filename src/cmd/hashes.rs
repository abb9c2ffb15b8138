//! Hash commands.
use vstd::prelude::*;
use vstd::string::StringSliceAdditionalSpecFns;

use super::{
    array2, array3, bulk_views, count_output, count_reads_as, lemma_words2, lemma_words3,
    lemma_words4, push_word, push_words, lemma_one_word, with_words, words, BulkOutputCommand, Command, IntOutputCommand,
};
use crate::codec::{
    lemma_request_frames, request_frames, BulkString, Request, Response,
};
use crate::errors::CommandError;
use crate::resp::Frame;

verus! {

broadcast use vstd::seq::group_seq_axioms;

/// HGET: the value of `field` in the hash at `key`, or nil.
#[allow(non_snake_case)]
pub fn HGet(key: BulkString, field: BulkString) -> (r: BulkOutputCommand)
    ensures
        r.spec_request() == words(seq!["HGET".spec_bytes(), key@, field@]),
{
    let ghost (k, f) = (key@, field@);
    let req = array3(
        Request::from_static("HGET"),
        Request::BulkString(key),
        Request::BulkString(field),
    );
    proof {
        lemma_words3("HGET".spec_bytes(), k, f);
    }
    BulkOutputCommand(req)
}

/// HSET: sets `field` to `value` in the hash at `key`; the answer is how
/// many fields were added.
#[allow(non_snake_case)]
pub fn HSet(key: BulkString, field: BulkString, value: BulkString) -> (r: HSetCommand)
    ensures
        r.spec_request() == words(seq!["HSET".spec_bytes(), key@, field@, value@]),
{
    let ghost (k, f, w) = (key@, field@, value@);
    let v = vec![
        Request::from_static("HSET"),
        Request::BulkString(key),
        Request::BulkString(field),
        Request::BulkString(value),
    ];
    proof {
        lemma_request_frames(v@);
        lemma_words4("HSET".spec_bytes(), k, f, w);
        assert(request_frames(v@) =~= seq![
            Frame::Bulk("HSET".spec_bytes()),
            Frame::Bulk(k),
            Frame::Bulk(f),
            Frame::Bulk(w),
        ]);
    }
    HSetCommand(v)
}

pub struct HSetCommand(pub Vec<Request>);

impl HSetCommand {
    /// Adds a field and its value.
    pub fn insert(self, field: BulkString, value: BulkString) -> (r: Self)
        ensures
            r.spec_request() == with_words(self.spec_request(), seq![field@, value@]),
    {
        let ghost (f, w) = (field@, value@);
        let ghost start = request_frames(self.0@);
        let mut v = self.0;
        push_word(&mut v, field);
        push_word(&mut v, value);
        assert(seq![f, w].map_values(|x: Seq<u8>| Frame::Bulk(x)) =~= seq![
            Frame::Bulk(f),
            Frame::Bulk(w),
        ]);
        assert(request_frames(v@) =~= start + seq![Frame::Bulk(f), Frame::Bulk(w)]);
        HSetCommand(v)
    }
}

impl Command for HSetCommand {
    type Output = usize;

    open spec fn spec_request(&self) -> Frame {
        Frame::Array(request_frames(self.0@))
    }

    open spec fn reads_as(val: Response, r: Result<usize, CommandError>) -> bool {
        count_reads_as(val, r)
    }

    fn to_request(self) -> (r: Request) {
        Request::Array(self.0)
    }

    fn to_output(val: Response) -> (r: Result<usize, CommandError>) {
        count_output(val)
    }
}

/// HDEL: removes fields from the hash at `key`; the answer is how many were removed.
#[allow(non_snake_case)]
pub fn HDel(key: BulkString, field: BulkString) -> (r: HDelCommand)
    ensures
        r.spec_request() == words(seq!["HDEL".spec_bytes(), key@, field@]),
{
    let ghost (k, f) = (key@, field@);
    let v = vec![Request::from_static("HDEL"), Request::BulkString(key), Request::BulkString(field)];
    proof {
        lemma_request_frames(v@);
        lemma_words3("HDEL".spec_bytes(), k, f);
        assert(request_frames(v@) =~= seq![
            Frame::Bulk("HDEL".spec_bytes()),
            Frame::Bulk(k),
            Frame::Bulk(f),
        ]);
    }
    HDelCommand(v)
}

pub struct HDelCommand(pub Vec<Request>);

impl HDelCommand {
    /// Adds a field to remove.
    pub fn remove(self, field: BulkString) -> (r: Self)
        ensures
            r.spec_request() == with_words(self.spec_request(), seq![field@]),
    {
        proof {
            lemma_one_word(field@);
        }
        let mut v = self.0;
        push_word(&mut v, field);
        HDelCommand(v)
    }

    /// Adds more fields to remove.
    pub fn remove_all(self, others: Vec<BulkString>) -> (r: Self)
        ensures
            r.spec_request() == with_words(self.spec_request(), bulk_views(others@)),
    {
        let mut v = self.0;
        push_words(&mut v, others);
        HDelCommand(v)
    }
}

impl Command for HDelCommand {
    type Output = usize;

    open spec fn spec_request(&self) -> Frame {
        Frame::Array(request_frames(self.0@))
    }

    open spec fn reads_as(val: Response, r: Result<usize, CommandError>) -> bool {
        count_reads_as(val, r)
    }

    fn to_request(self) -> (r: Request) {
        Request::Array(self.0)
    }

    fn to_output(val: Response) -> (r: Result<usize, CommandError>) {
        count_output(val)
    }
}

/// HLEN: the number of fields in the hash at `key`.
#[allow(non_snake_case)]
pub fn HLen(key: BulkString) -> (r: IntOutputCommand)
    ensures
        r.spec_request() == words(seq!["HLEN".spec_bytes(), key@]),
{
    let ghost k = key@;
    let req = array2(Request::from_static("HLEN"), Request::BulkString(key));
    proof {
        lemma_words2("HLEN".spec_bytes(), k);
    }
    IntOutputCommand(req)
}

} // verus!
