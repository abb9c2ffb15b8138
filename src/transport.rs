//! The in-flight queue of a pipelined connection: one waiter for each
//! request written to the socket, answered in the order the requests were
//! written.
use std::collections::VecDeque;
use vstd::prelude::*;

use crate::codec::{Codec, Request, Response};
use crate::errors::Error;
use crate::resp::{frame_bytes, items_bytes, lemma_items_bytes_push, Frame};

verus! {

broadcast use vstd::seq::group_seq_axioms;

/// The waiters of the requests that were written and not yet answered, and
/// whether the connection is still open.
pub struct Inflight<W> {
    queue: VecDeque<W>,
    open: bool,
}

impl<W> Inflight<W> {
    /// The waiters, oldest first.
    pub closed spec fn waiters(&self) -> Seq<W> {
        self.queue@
    }

    /// Whether the connection still takes requests.
    pub closed spec fn spec_open(&self) -> bool {
        self.open
    }

    /// An open connection with nothing in flight.
    pub fn new() -> (r: Self)
        ensures
            r.waiters() == Seq::<W>::empty(),
            r.spec_open(),
    {
        Inflight { queue: VecDeque::new(), open: true }
    }

    pub fn is_open(&self) -> (r: bool)
        ensures
            r == self.spec_open(),
    {
        self.open
    }

    /// The number of requests in flight.
    pub fn len(&self) -> (r: usize)
        ensures
            r == self.waiters().len(),
    {
        self.queue.len()
    }

    /// Writes `req` to `buf` and puts its waiter last in the queue, in one
    /// step, so that the queue keeps the order of the bytes. On a closed
    /// connection nothing is written and the waiter comes back with
    /// `PeerGone`.
    pub fn submit(&mut self, req: Request, waiter: W, buf: &mut Vec<u8>) -> (r: Result<(), (W, Error)>)
        ensures
            final(self).spec_open() == old(self).spec_open(),
            !old(self).spec_open() ==> (r matches Err((w, Error::PeerGone(None))) && w == waiter
                && final(self).waiters() == old(self).waiters() && final(buf)@ == old(buf)@),
            old(self).spec_open() ==> r is Ok && final(self).waiters() == old(self).waiters().push(
                waiter,
            ) && final(buf)@ == old(buf)@ + frame_bytes(req@),
    {
        if !self.open {
            return Err((waiter, Error::PeerGone(None)));
        }
        match Codec.encode(req, buf) {
            Err(e) => Err((waiter, e)),
            Ok(()) => {
                self.queue.push_back(waiter);
                Ok(())
            },
        }
    }

    /// A frame came from the server: it answers the oldest waiter. With no
    /// waiter the frame answers nobody and comes back.
    pub fn on_frame(&mut self, frame: Response) -> (r: Result<(W, Response), Response>)
        ensures
            final(self).spec_open() == old(self).spec_open(),
            old(self).waiters().len() > 0 ==> (r matches Ok((w, f)) && w == old(self).waiters()[0]
                && f == frame && final(self).waiters() == old(self).waiters().drop_first()),
            old(self).waiters().len() == 0 ==> (r matches Err(f) && f == frame && final(self).waiters()
                == old(self).waiters()),
    {
        match self.queue.pop_front() {
            Some(w) => Ok((w, frame)),
            None => Err(frame),
        }
    }

    /// Frames from the server, in the order they came: the k-th goes to the
    /// k-th waiter. Frames beyond the waiters answer nobody and come back.
    pub fn dispatch(&mut self, frames: Vec<Response>) -> (r: (Vec<(W, Response)>, Vec<Response>))
        ensures
            final(self).spec_open() == old(self).spec_open(),
            r.0@ == delivered(old(self).waiters(), frames@),
            final(self).waiters() == old(self).waiters().skip(r.0@.len() as int),
            r.1@ == frames@.skip(r.0@.len() as int),
    {
        let ghost q0 = self.waiters();
        let ghost all = frames@;
        let mut out: Vec<(W, Response)> = Vec::new();
        let mut rest = frames;
        let mut unanswered: Vec<Response> = Vec::new();
        while rest.len() > 0
            invariant
                self.spec_open() == old(self).spec_open(),
                q0 == old(self).waiters(),
                all == frames@,
                out@.len() + rest@.len() + unanswered@.len() == all.len(),
                out@.len() <= q0.len(),
                unanswered@.len() > 0 ==> out@.len() == q0.len(),
                self.waiters() == q0.skip(out@.len() as int),
                forall|m: int| 0 <= m < rest@.len() ==> #[trigger] rest@[m] == all[out@.len() + unanswered@.len() + m],
                forall|m: int| 0 <= m < out@.len() ==> #[trigger] out@[m] == (q0[m], all[m]),
                forall|m: int| 0 <= m < unanswered@.len() ==> #[trigger] unanswered@[m] == all[out@.len() + m],
            decreases rest@.len(),
        {
            let frame = rest.remove(0);
            match self.on_frame(frame) {
                Ok(pair) => {
                    assert(unanswered@.len() == 0);
                    out.push(pair);
                },
                Err(f) => unanswered.push(f),
            }
        }
        assert(out@ =~= delivered(q0, all));
        assert(unanswered@ =~= all.skip(out@.len() as int));
        (out, unanswered)
    }

    /// The connection failed: the oldest waiter gets `err` when there is one
    /// (the error that stopped the reading), every other waiter gets
    /// `PeerGone`. Afterwards the connection is closed and nothing is in
    /// flight.
    pub fn fail(&mut self, err: Option<Error>) -> (r: Vec<(W, Error)>)
        ensures
            !final(self).spec_open(),
            final(self).waiters() == Seq::<W>::empty(),
            r@ == drained(old(self).waiters(), err),
    {
        let ghost q0 = self.waiters();
        self.open = false;
        let mut out: Vec<(W, Error)> = Vec::new();
        let mut first = err;
        while self.queue.len() > 0
            invariant
                !self.open,
                self.waiters() == q0.skip(out@.len() as int),
                out@.len() <= q0.len(),
                out@.len() == 0 ==> first == err,
                out@.len() > 0 ==> first is None,
                forall|k: int| 0 <= k < out@.len() ==> (#[trigger] out@[k]).0 == q0[k],
                forall|k: int|
                    0 <= k < out@.len() ==> (#[trigger] out@[k]).1 == if k == 0 && err is Some {
                        err->Some_0
                    } else {
                        Error::PeerGone(None)
                    },
            decreases self.waiters().len(),
        {
            let w = self.queue.pop_front().unwrap();
            let e = match first {
                Some(e) => e,
                None => Error::PeerGone(None),
            };
            first = None;
            out.push((w, e));
        }
        assert(out@ =~= drained(q0, err));
        out
    }
}

/// Every waiter with the error it gets when the connection fails: `err`
/// for the oldest when there is one, `PeerGone` for the others.
pub open spec fn drained<W>(waiters: Seq<W>, err: Option<Error>) -> Seq<(W, Error)> {
    Seq::new(
        waiters.len(),
        |k: int|
            (waiters[k], if k == 0 && err is Some {
                err->Some_0
            } else {
                Error::PeerGone(None)
            }),
    )
}

/// The waiters and the written bytes after `reqs` were submitted one by one,
/// with the waiters `ws`, to an open connection with nothing in flight: each
/// step puts one waiter last and the request's bytes after the others.
pub open spec fn submitted<W>(reqs: Seq<Frame>, ws: Seq<W>) -> (Seq<W>, Seq<u8>)
    decreases reqs.len(),
{
    if reqs.len() == 0 || ws.len() == 0 {
        (Seq::empty(), Seq::empty())
    } else {
        let before = submitted(reqs.drop_last(), ws.drop_last());
        (before.0.push(ws.last()), before.1 + frame_bytes(reqs.last()))
    }
}

/// Requests submitted in some order are written in that order, their
/// waiters queue in that order, and the k-th answer read from the server
/// goes to the waiter of the k-th request.
pub proof fn pipelining_order<W>(reqs: Seq<Frame>, ws: Seq<W>, frames: Seq<Response>)
    requires
        reqs.len() == ws.len(),
    ensures
        submitted(reqs, ws) == (ws, items_bytes(reqs)),
        forall|k: int|
            0 <= k < ws.len() && k < frames.len() ==> #[trigger] delivered(ws, frames)[k] == (
                ws[k],
                frames[k],
            ),
    decreases reqs.len(),
{
    if reqs.len() > 0 {
        pipelining_order(reqs.drop_last(), ws.drop_last(), frames);
        lemma_items_bytes_push(reqs.drop_last(), reqs.last());
        assert(reqs.drop_last().push(reqs.last()) =~= reqs);
        assert(ws.drop_last().push(ws.last()) =~= ws);
    } else {
        assert(ws =~= Seq::<W>::empty());
    }
}

/// When the peer goes away, every request still in flight is answered
/// with `PeerGone` and none with a response.
pub proof fn disconnection_drain<W>(waiters: Seq<W>)
    ensures
        drained(waiters, None).len() == waiters.len(),
        forall|k: int|
            0 <= k < waiters.len() ==> (#[trigger] drained(waiters, None)[k]).1 == Error::PeerGone(
                None,
            ) && drained(waiters, None)[k].0 == waiters[k],
{
}

/// The k-th frame paired with the k-th waiter, for as many as both have.
pub open spec fn delivered<W>(waiters: Seq<W>, frames: Seq<Response>) -> Seq<(W, Response)> {
    let n = if waiters.len() < frames.len() {
        waiters.len()
    } else {
        frames.len()
    };
    Seq::new(n, |k: int| (waiters[k], frames[k]))
}

} // verus!
