//! Key space commands.
use vstd::prelude::*;
use vstd::string::StringSliceAdditionalSpecFns;

use super::{
    array2, array3, bulk_views, count_output, count_reads_as, lemma_words2, lemma_words3,
    push_word, push_words, lemma_one_word, with_words, words, BoolOutputCommand, Command,
};
use crate::codec::{
    lemma_request_frames, request_frames, text_of, BulkString, Request,
    Response,
};
use crate::errors::CommandError;
use crate::resp::{decimal, Frame};

verus! {

broadcast use vstd::seq::group_seq_axioms;

/// DEL: removes the keys; the answer is how many were removed.
#[allow(non_snake_case)]
pub fn Del(key: BulkString) -> (r: KeysCommand)
    ensures
        r.spec_request() == words(seq!["DEL".spec_bytes(), key@]),
{
    keys_command(Request::from_static("DEL"), key)
}

/// EXISTS: the answer is how many of the keys exist.
#[allow(non_snake_case)]
pub fn Exists(key: BulkString) -> (r: KeysCommand)
    ensures
        r.spec_request() == words(seq!["EXISTS".spec_bytes(), key@]),
{
    keys_command(Request::from_static("EXISTS"), key)
}

fn keys_command(name: Request, key: BulkString) -> (r: KeysCommand)
    requires
        name@ is Bulk,
    ensures
        r.spec_request() == words(seq![name@->Bulk_0, key@]),
{
    let ghost (n, k) = (name@, key@);
    let v = vec![name, Request::BulkString(key)];
    proof {
        lemma_request_frames(v@);
        lemma_words2(n->Bulk_0, k);
        assert(request_frames(v@) =~= seq![n, Frame::Bulk(k)]);
    }
    KeysCommand(v)
}

/// A command over a list of keys whose answer is a count.
pub struct KeysCommand(pub Vec<Request>);

impl KeysCommand {
    /// Adds a key.
    pub fn key(self, other: BulkString) -> (r: Self)
        ensures
            r.spec_request() == with_words(self.spec_request(), seq![other@]),
    {
        proof {
            lemma_one_word(other@);
        }
        let mut v = self.0;
        push_word(&mut v, other);
        KeysCommand(v)
    }

    /// Adds more keys.
    pub fn keys(self, others: Vec<BulkString>) -> (r: Self)
        ensures
            r.spec_request() == with_words(self.spec_request(), bulk_views(others@)),
    {
        let mut v = self.0;
        push_words(&mut v, others);
        KeysCommand(v)
    }
}

impl Command for KeysCommand {
    type Output = usize;

    open spec fn spec_request(&self) -> Frame {
        Frame::Array(request_frames(self.0@))
    }

    open spec fn reads_as(val: Response, r: Result<usize, CommandError>) -> bool {
        count_reads_as(val, r)
    }

    fn to_request(self) -> (r: Request) {
        Request::Array(self.0)
    }

    fn to_output(val: Response) -> (r: Result<usize, CommandError>) {
        count_output(val)
    }
}

/// EXPIRE: sets a timeout of `seconds` on `key`; the answer is whether it was set.
#[allow(non_snake_case)]
pub fn Expire(key: BulkString, seconds: i64) -> (r: BoolOutputCommand)
    ensures
        r.spec_request() == words(seq!["EXPIRE".spec_bytes(), key@, decimal(seconds as int)]),
{
    let ghost k = key@;
    let req = array3(
        Request::from_static("EXPIRE"),
        Request::BulkString(key),
        Request::BulkInteger(seconds),
    );
    proof {
        lemma_words3("EXPIRE".spec_bytes(), k, decimal(seconds as int));
    }
    BoolOutputCommand(req)
}

/// EXPIREAT: sets a timeout on `key` at a unix time; the answer is whether it was set.
#[allow(non_snake_case)]
pub fn ExpireAt(key: BulkString, timestamp: i64) -> (r: BoolOutputCommand)
    ensures
        r.spec_request() == words(seq!["EXPIREAT".spec_bytes(), key@, decimal(timestamp as int)]),
{
    let ghost k = key@;
    let req = array3(
        Request::from_static("EXPIREAT"),
        Request::BulkString(key),
        Request::BulkInteger(timestamp),
    );
    proof {
        lemma_words3("EXPIREAT".spec_bytes(), k, decimal(timestamp as int));
    }
    BoolOutputCommand(req)
}

/// TTL: the remaining time to live of `key`.
#[allow(non_snake_case)]
pub fn Ttl(key: BulkString) -> (r: TtlCommand)
    ensures
        r.spec_request() == words(seq!["TTL".spec_bytes(), key@]),
{
    let ghost k = key@;
    let v = vec![Request::from_static("TTL"), Request::BulkString(key)];
    proof {
        lemma_request_frames(v@);
        lemma_words2("TTL".spec_bytes(), k);
        assert(request_frames(v@) =~= seq![Frame::Bulk("TTL".spec_bytes()), Frame::Bulk(k)]);
    }
    TtlCommand(v)
}

/// What TTL answers.
#[derive(Debug, PartialEq, Eq)]
pub enum TtlResult {
    Seconds(i64),
    NoExpire,
    NotFound,
}

pub struct TtlCommand(pub Vec<Request>);

impl Command for TtlCommand {
    type Output = TtlResult;

    open spec fn spec_request(&self) -> Frame {
        Frame::Array(request_frames(self.0@))
    }

    open spec fn reads_as(val: Response, r: Result<TtlResult, CommandError>) -> bool {
        match val {
            Response::Integer(-1) => r == Ok::<TtlResult, CommandError>(TtlResult::NoExpire),
            Response::Integer(-2) => r == Ok::<TtlResult, CommandError>(TtlResult::NotFound),
            Response::Integer(s) => r == Ok::<TtlResult, CommandError>(TtlResult::Seconds(s)),
            _ => r matches Err(CommandError::Output(_, v)) && v == val,
        }
    }

    fn to_request(self) -> (r: Request) {
        Request::Array(self.0)
    }

    fn to_output(val: Response) -> (r: Result<TtlResult, CommandError>) {
        match val.to_i64() {
            Err((reason, v)) => Err(CommandError::Output(reason, v)),
            Ok(-1) => Ok(TtlResult::NoExpire),
            Ok(-2) => Ok(TtlResult::NotFound),
            Ok(s) => Ok(TtlResult::Seconds(s)),
        }
    }
}

/// KEYS: the keys that match a pattern.
#[allow(non_snake_case)]
pub fn Keys(pattern: BulkString) -> (r: KeysPatternCommand)
    ensures
        r.spec_request() == words(seq!["KEYS".spec_bytes(), pattern@]),
{
    let ghost p = pattern@;
    let req = array2(Request::from_static("KEYS"), Request::BulkString(pattern));
    proof {
        lemma_words2("KEYS".spec_bytes(), p);
    }
    KeysPatternCommand(req)
}

pub struct KeysPatternCommand(pub Request);

/// The response that a list of texts fails on: the first element that is
/// not text (nil in place of a bulk string that is not UTF-8).
pub open spec fn first_non_text(items: Seq<Response>, e: Response) -> bool {
    exists|k: int|
        0 <= k < items.len() && (forall|m: int| 0 <= m < k ==> #[trigger] text_of(items[m]@) is Some)
            && text_of(items[k]@) is None && e == (if items[k] is Bytes {
            Response::Nil
        } else {
            items[k]
        })
}

impl Command for KeysPatternCommand {
    type Output = Vec<Vec<u8>>;

    open spec fn spec_request(&self) -> Frame {
        self.0@
    }

    open spec fn reads_as(val: Response, r: Result<Vec<Vec<u8>>, CommandError>) -> bool {
        match val {
            Response::Array(items) => if forall|k: int|
                0 <= k < items@.len() ==> #[trigger] text_of(items@[k]@) is Some {
                r matches Ok(out) && out@.len() == items@.len() && forall|k: int|
                    0 <= k < items@.len() ==> #[trigger] text_of(items@[k]@) == Some(out@[k]@)
            } else {
                r matches Err(CommandError::Output(_, e)) && first_non_text(items@, e)
            },
            _ => r matches Err(CommandError::Output(_, v)) && v == val,
        }
    }

    fn to_request(self) -> (r: Request) {
        self.0
    }

    fn to_output(val: Response) -> (r: Result<Vec<Vec<u8>>, CommandError>) {
        let ghost orig = val;
        match val {
            Response::Array(items) => {
                let ghost all = items@;
                let mut rest = items;
                let mut out: Vec<Vec<u8>> = Vec::new();
                while rest.len() > 0
                    invariant
                        orig == val,
                        orig matches Response::Array(its) && its@ == all,
                        out@.len() + rest@.len() == all.len(),
                        forall|m: int| 0 <= m < rest@.len() ==> #[trigger] rest@[m] == all[out@.len() + m],
                        forall|m: int| 0 <= m < out@.len() ==> #[trigger] text_of(all[m]@) == Some(out@[m]@),
                    decreases rest@.len(),
                {
                    let item = rest.remove(0);
                    let ghost k = out@.len() as int;
                    match item.to_text() {
                        Ok(t) => out.push(t),
                        Err((_, e)) => {
                            assert(0 <= k < all.len() && (forall|m: int|
                                0 <= m < k ==> #[trigger] text_of(all[m]@) is Some) && text_of(all[k]@) is None
                                && e == (if all[k] is Bytes {
                                Response::Nil
                            } else {
                                all[k]
                            }));
                            assert(first_non_text(all, e));
                            assert(!(forall|m: int| 0 <= m < all.len() ==> #[trigger] text_of(all[m]@) is Some));
                            let res = Err(CommandError::Output("Cannot parse response", e));
                            assert(Self::reads_as(orig, res));
                            return res;
                        },
                    }
                }
                Ok(out)
            },
            _ => Err(CommandError::Output("Cannot parse response", val)),
        }
    }
}

} // verus!
