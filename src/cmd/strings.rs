//! String commands.
use vstd::prelude::*;
use vstd::string::StringSliceAdditionalSpecFns;

use super::{
    array2, array3, is_ok_text, lemma_words2, lemma_words3, ok_text, words, BulkOutputCommand,
    Command, IntOutputCommand,
};
use crate::codec::{
    lemma_request_frames, lemma_request_frames_push, request_frames, BulkString, Request, Response,
};
use crate::errors::CommandError;
use crate::resp::{decimal, Frame};

verus! {

broadcast use vstd::seq::group_seq_axioms;

/// GET: the value of `key`, or nil when there is none.
#[allow(non_snake_case)]
pub fn Get(key: BulkString) -> (r: BulkOutputCommand)
    ensures
        r.spec_request() == words(seq!["GET".spec_bytes(), key@]),
{
    let ghost k = key@;
    let req = array2(Request::from_static("GET"), Request::BulkString(key));
    proof {
        lemma_words2("GET".spec_bytes(), k);
    }
    BulkOutputCommand(req)
}

/// SET: stores `value` at `key`. The answer is true when the value was set.
#[allow(non_snake_case)]
pub fn SetValue(key: BulkString, value: BulkString) -> (r: SetCommand)
    ensures
        request_frames(r.req@) == seq![
            Frame::Bulk("SET".spec_bytes()),
            Frame::Bulk(key@),
            Frame::Bulk(value@),
        ],
        r.expire == Expiry::Unset,
        !r.keepttl,
        r.exists is None,
{
    let ghost (k, v) = (key@, value@);
    let req = vec![
        Request::from_static("SET"),
        Request::BulkString(key),
        Request::BulkString(value),
    ];
    proof {
        lemma_request_frames(req@);
        assert(request_frames(req@) =~= seq![
            Frame::Bulk("SET".spec_bytes()),
            Frame::Bulk(k),
            Frame::Bulk(v),
        ]);
    }
    SetCommand { req, expire: Expiry::Unset, keepttl: false, exists: None }
}

/// The expiry option of SET.
#[derive(Debug, PartialEq, Eq)]
pub enum Expiry {
    Unset,
    /// In seconds.
    Ex(i64),
    /// In milliseconds.
    Px(i64),
}

/// SET with its options.
pub struct SetCommand {
    /// SET, the key and the value.
    pub req: Vec<Request>,
    pub expire: Expiry,
    pub keepttl: bool,
    /// `Some(true)`: only when the key exists; `Some(false)`: only when it does not.
    pub exists: Option<bool>,
}

impl SetCommand {
    /// Sets the expire time, in seconds.
    pub fn expire_secs(self, secs: i64) -> (r: Self)
        ensures
            r.req == self.req && r.keepttl == self.keepttl && r.exists == self.exists,
            r.expire == Expiry::Ex(secs),
    {
        SetCommand { expire: Expiry::Ex(secs), ..self }
    }

    /// Sets the expire time, in milliseconds.
    pub fn expire_millis(self, millis: i64) -> (r: Self)
        ensures
            r.req == self.req && r.keepttl == self.keepttl && r.exists == self.exists,
            r.expire == Expiry::Px(millis),
    {
        SetCommand { expire: Expiry::Px(millis), ..self }
    }

    /// Only sets the key if it already exists.
    pub fn if_exists(self) -> (r: Self)
        ensures
            r.req == self.req && r.keepttl == self.keepttl && r.expire == self.expire,
            r.exists == Some(true),
    {
        SetCommand { exists: Some(true), ..self }
    }

    /// Only sets the key if it does not already exist.
    pub fn if_not_exists(self) -> (r: Self)
        ensures
            r.req == self.req && r.keepttl == self.keepttl && r.expire == self.expire,
            r.exists == Some(false),
    {
        SetCommand { exists: Some(false), ..self }
    }

    /// Keeps the time to live of the key.
    pub fn keepttl(self) -> (r: Self)
        ensures
            r.req == self.req && r.exists == self.exists && r.expire == self.expire,
            r.keepttl,
    {
        SetCommand { keepttl: true, ..self }
    }
}

/// The words that the options of SET add, in order: EX or PX with the
/// time, then XX or NX, then KEEPTTL.
pub open spec fn set_options(expire: Expiry, exists: Option<bool>, keepttl: bool) -> Seq<Frame> {
    let e = match expire {
        Expiry::Unset => Seq::empty(),
        Expiry::Ex(s) => seq![Frame::Bulk("EX".spec_bytes()), Frame::Bulk(decimal(s as int))],
        Expiry::Px(s) => seq![Frame::Bulk("PX".spec_bytes()), Frame::Bulk(decimal(s as int))],
    };
    let x = match exists {
        Some(true) => seq![Frame::Bulk("XX".spec_bytes())],
        Some(false) => seq![Frame::Bulk("NX".spec_bytes())],
        None => Seq::empty(),
    };
    let k = if keepttl {
        seq![Frame::Bulk("KEEPTTL".spec_bytes())]
    } else {
        Seq::empty()
    };
    e + x + k
}

impl Command for SetCommand {
    type Output = bool;

    open spec fn spec_request(&self) -> Frame {
        Frame::Array(request_frames(self.req@) + set_options(self.expire, self.exists, self.keepttl))
    }

    open spec fn reads_as(val: Response, r: Result<bool, CommandError>) -> bool {
        match val {
            Response::Nil => r == Ok::<bool, CommandError>(false),
            Response::String(t) => if t@ == ok_text() {
                r == Ok::<bool, CommandError>(true)
            } else {
                r matches Err(CommandError::Output(_, v)) && v == val
            },
            _ => r matches Err(CommandError::Output(_, v)) && v == val,
        }
    }

    fn to_request(self) -> (r: Request) {
        let ghost start = request_frames(self.req@);
        let mut req = self.req;
        let ghost e = match self.expire {
            Expiry::Unset => Seq::<Frame>::empty(),
            Expiry::Ex(s) => seq![Frame::Bulk("EX".spec_bytes()), Frame::Bulk(decimal(s as int))],
            Expiry::Px(s) => seq![Frame::Bulk("PX".spec_bytes()), Frame::Bulk(decimal(s as int))],
        };
        match self.expire {
            Expiry::Unset => {},
            Expiry::Ex(s) => {
                let w = Request::from_static("EX");
                proof {
                    lemma_request_frames_push(req@, w);
                }
                req.push(w);
                proof {
                    lemma_request_frames_push(req@, Request::BulkInteger(s));
                }
                req.push(Request::BulkInteger(s));
            },
            Expiry::Px(s) => {
                let w = Request::from_static("PX");
                proof {
                    lemma_request_frames_push(req@, w);
                }
                req.push(w);
                proof {
                    lemma_request_frames_push(req@, Request::BulkInteger(s));
                }
                req.push(Request::BulkInteger(s));
            },
        }
        assert(request_frames(req@) =~= start + e);
        let ghost mid = request_frames(req@);
        match self.exists {
            Some(exists) => {
                let word = if exists {
                    Request::from_static("XX")
                } else {
                    Request::from_static("NX")
                };
                proof {
                    lemma_request_frames_push(req@, word);
                }
                req.push(word);
            },
            None => {},
        }
        let ghost after = request_frames(req@);
        if self.keepttl {
            let w = Request::from_static("KEEPTTL");
            proof {
                lemma_request_frames_push(req@, w);
            }
            req.push(w);
        }
        proof {
            let x = match self.exists {
                Some(true) => seq![Frame::Bulk("XX".spec_bytes())],
                Some(false) => seq![Frame::Bulk("NX".spec_bytes())],
                None => Seq::<Frame>::empty(),
            };
            assert(after =~= mid + x);
            let k = if self.keepttl {
                seq![Frame::Bulk("KEEPTTL".spec_bytes())]
            } else {
                Seq::<Frame>::empty()
            };
            assert(request_frames(req@) =~= after + k);
            assert(request_frames(req@) =~= start + set_options(self.expire, self.exists, self.keepttl));
        }
        Request::Array(req)
    }

    fn to_output(val: Response) -> (r: Result<bool, CommandError>) {
        match val {
            Response::Nil => Ok(false),
            Response::String(t) => if is_ok_text(&t) {
                Ok(true)
            } else {
                Err(CommandError::Output("Unexpected value within String", Response::String(t)))
            },
            _ => Err(CommandError::Output("Unexpected value", val)),
        }
    }
}

/// INCRBY: adds `increment` to the integer stored at `key`; the answer is
/// the new value.
#[allow(non_snake_case)]
pub fn IncrBy(key: BulkString, increment: i64) -> (r: IntOutputCommand)
    ensures
        r.spec_request() == words(seq!["INCRBY".spec_bytes(), key@, decimal(increment as int)]),
{
    let ghost k = key@;
    let req = array3(
        Request::from_static("INCRBY"),
        Request::BulkString(key),
        Request::BulkInteger(increment),
    );
    proof {
        lemma_words3("INCRBY".spec_bytes(), k, decimal(increment as int));
    }
    IntOutputCommand(req)
}

} // verus!
