//! The AUTH handshake that a connection goes through before it is used.
use vstd::prelude::*;

use crate::cmd::{Auth, AuthCommand, Command};
use crate::codec::BulkString;
use crate::errors::{CommandError, Error};

verus! {

broadcast use vstd::seq::group_seq_axioms;

/// What the handshake asks for next.
pub enum AuthStep {
    /// Execute this AUTH command and report its result.
    Send(AuthCommand),
    /// The connection may be used.
    Ready,
    /// No password was accepted.
    Unauthorized,
    /// The connection failed during the handshake.
    Failed(Error),
}

/// The passwords that remain to be tried, in the order they were configured.
pub struct Handshake {
    remaining: Vec<BulkString>,
}

impl Handshake {
    pub closed spec fn remaining(&self) -> Seq<Seq<u8>> {
        self.remaining@.map_values(|b: BulkString| b@)
    }

    pub fn new(passwords: Vec<BulkString>) -> (r: Self)
        ensures
            r.remaining() == passwords@.map_values(|b: BulkString| b@),
    {
        Handshake { remaining: passwords }
    }

    /// The first step: with no password the connection is ready at once;
    /// otherwise the first password is tried.
    pub fn start(&mut self) -> (r: AuthStep)
        ensures
            old(self).remaining().len() == 0 ==> r is Ready && final(self).remaining() == old(self).remaining(),
            old(self).remaining().len() > 0 ==> (r matches AuthStep::Send(c) && c.spec_request()
                == crate::cmd::words(seq![crate::cmd::auth_word(), old(self).remaining()[0]])
                && final(self).remaining() == old(self).remaining().drop_first()),
    {
        if self.remaining.len() == 0 {
            AuthStep::Ready
        } else {
            self.next_password()
        }
    }

    fn next_password(&mut self) -> (r: AuthStep)
        requires
            old(self).remaining().len() > 0,
        ensures
            r matches AuthStep::Send(c) && c.spec_request() == crate::cmd::words(
                seq![crate::cmd::auth_word(), old(self).remaining()[0]],
            ),
            final(self).remaining() == old(self).remaining().drop_first(),
    {
        let ghost before = self.remaining@;
        let password = self.remaining.remove(0);
        assert(self.remaining().len() == before.len() - 1);
        assert(self.remaining() =~= before.map_values(|b: BulkString| b@).drop_first());
        AuthStep::Send(Auth(password))
    }

    /// The result of the last AUTH: accepted, the connection is ready; a
    /// refusal or an error answer of the server tries the next password, and
    /// with none left the handshake ends unauthorized; a protocol error ends
    /// it as failed.
    pub fn on_reply(&mut self, reply: Result<bool, CommandError>) -> (r: AuthStep)
        ensures
            reply == Ok::<bool, CommandError>(true) ==> r is Ready && final(self).remaining() == old(self).remaining(),
            reply matches Err(CommandError::Protocol(e)) ==> (r matches AuthStep::Failed(f) && f == e
                && final(self).remaining() == old(self).remaining()),
            !(reply == Ok::<bool, CommandError>(true) || reply is Err && reply->Err_0 is Protocol)
                ==> (if old(self).remaining().len() == 0 {
                r is Unauthorized && final(self).remaining() == old(self).remaining()
            } else {
                r matches AuthStep::Send(c) && c.spec_request() == crate::cmd::words(
                    seq![crate::cmd::auth_word(), old(self).remaining()[0]],
                ) && final(self).remaining() == old(self).remaining().drop_first()
            }),
    {
        match reply {
            Ok(true) => AuthStep::Ready,
            Err(CommandError::Protocol(e)) => AuthStep::Failed(e),
            _ => if self.remaining.len() == 0 {
                AuthStep::Unauthorized
            } else {
                self.next_password()
            },
        }
    }
}

} // verus!
