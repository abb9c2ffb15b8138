//! The AUTH command.
use vstd::prelude::*;
use vstd::string::StringSliceAdditionalSpecFns;

use super::{array2, is_ok_text, lemma_words2, ok_text, words, Command};
use crate::codec::{BulkString, Request, Response};
use crate::errors::CommandError;
use crate::resp::Frame;

verus! {

/// AUTH: authenticates the connection; the answer is whether the password
/// was accepted.
#[allow(non_snake_case)]
pub fn Auth(password: BulkString) -> (r: AuthCommand)
    ensures
        r.spec_request() == words(seq!["AUTH".spec_bytes(), password@]),
{
    let ghost p = password@;
    let req = array2(Request::from_static("AUTH"), Request::BulkString(password));
    proof {
        lemma_words2("AUTH".spec_bytes(), p);
    }
    AuthCommand(req)
}

pub struct AuthCommand(pub Request);

impl Command for AuthCommand {
    type Output = bool;

    open spec fn spec_request(&self) -> Frame {
        self.0@
    }

    open spec fn reads_as(val: Response, r: Result<bool, CommandError>) -> bool {
        match val {
            Response::String(t) => r == Ok::<bool, CommandError>(t@ == ok_text()),
            _ => r == Ok::<bool, CommandError>(false),
        }
    }

    fn to_request(self) -> (r: Request) {
        self.0
    }

    fn to_output(val: Response) -> (r: Result<bool, CommandError>) {
        match val {
            Response::String(t) => Ok(is_ok_text(&t)),
            _ => Ok(false),
        }
    }
}

} // verus!
