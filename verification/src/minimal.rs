//! The smallest useful instantiation of the shell: a single access level,
//! an I/O that reads nothing and discards its output, and a handler with
//! one `status` command.

use vstd::prelude::*;
use vstd::std_specs::cmp::PartialOrdSpecImpl;
use core::cmp::Ordering;
use crate::auth::{ordered, AccessLevel};
use crate::config::MinimalConfig;
use crate::error::CliError;
use crate::io::CharIo;
use crate::response::Response;
use crate::shell::handler::CommandHandler;
use crate::text::{lemma_utf8_len_empty, lemma_utf8_len_push, str_eq};

verus! {

/// The only access level: every user may reach every node.
#[derive(Debug, Copy, Clone, PartialEq, Eq, Structural, Ord)]
pub enum Level {
    /// Regular user
    User,
}

impl PartialOrd for Level {
    fn partial_cmp(&self, other: &Level) -> (r: Option<Ordering>) {
        Some(Ordering::Equal)
    }
}

impl PartialOrdSpecImpl for Level {
    open spec fn obeys_partial_cmp_spec() -> bool {
        true
    }

    open spec fn partial_cmp_spec(&self, other: &Level) -> Option<Ordering> {
        Some(Ordering::Equal)
    }
}

impl AccessLevel for Level {
    fn from_str(s: &str) -> (r: Option<Self>)
        ensures
            r == (if s@ == "User"@ {
                Some(Level::User)
            } else {
                None::<Level>
            }),
    {
        if str_eq(s, "User") {
            Some(Level::User)
        } else {
            None
        }
    }

    fn as_str(&self) -> (r: &'static str)
        ensures
            r@ == "User"@,
    {
        "User"
    }
}

/// `Level` compares as its specification says, so the shell's contracts
/// hold in full for it.
pub proof fn lemma_level_ordered()
    ensures
        ordered::<Level>(),
{
}

/// An I/O that never has input and discards all output.
#[derive(Debug, Copy, Clone)]
pub struct MinimalIo;

impl CharIo for MinimalIo {
    type Error = ();

    /// Every write succeeds.
    open spec fn puts(&self, c: char, after: MinimalIo, r: Result<(), ()>) -> bool {
        r == Ok::<(), ()>(())
    }

    fn get_char(&mut self) -> (r: Result<Option<char>, ()>)
        ensures
            r == Ok::<Option<char>, ()>(None),
    {
        Ok(None)
    }

    fn put_char(&mut self, c: char) -> (r: Result<(), ()>)
        ensures
            r == Ok::<(), ()>(()),
    {
        Ok(())
    }
}

/// A handler that knows the single command `status`.
#[derive(Debug, Copy, Clone)]
pub struct MinHandlers;

impl CommandHandler<MinimalConfig> for MinHandlers {
    /// `status` answers `OK`; every other id is unknown.
    open spec fn executes(&self, id: Seq<char>, args: Seq<Seq<char>>, r: Result<Response<MinimalConfig>, CliError>) -> bool {
        &&& id == "status"@ ==> (r matches Ok(resp) && resp.message@ == "OK"@ && resp.is_success
            && resp.default_flags())
        &&& id != "status"@ ==> r == Err::<Response<MinimalConfig>, CliError>(
            CliError::CommandNotFound,
        )
    }

    fn execute_sync(&self, id: &str, args: &[&str]) -> (r: Result<Response<MinimalConfig>, CliError>)
        ensures
            id@ == "status"@ ==> (r matches Ok(resp) && resp.message@ == "OK"@ && resp.is_success
                && resp.default_flags()),
            id@ != "status"@ ==> r == Err::<Response<MinimalConfig>, CliError>(
                CliError::CommandNotFound,
            ),
    {
        if str_eq(id, "status") {
            let resp = Response::success("OK");
            proof {
                reveal_strlit("OK");
                let e = Seq::<char>::empty();
                lemma_utf8_len_empty();
                lemma_utf8_len_push(e, 'O');
                lemma_utf8_len_push(e.push('O'), 'K');
                assert(e.push('O').push('K') =~= "OK"@);
            }
            Ok(resp)
        } else {
            Err(CliError::CommandNotFound)
        }
    }
}

} // verus!
