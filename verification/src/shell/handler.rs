//! Command handlers: the execution side of the command tree. Commands are
//! described by `CommandMeta` in the tree; a handler runs them by id.

use vstd::prelude::*;
use crate::config::ShellConfig;
use crate::error::CliError;
use crate::response::Response;

verus! {

/// The texts of a list of arguments.
pub open spec fn arg_texts(args: Seq<&str>) -> Seq<Seq<char>> {
    args.map_values(|a: &str| a@)
}

/// Command execution handler, implemented by applications.
///
/// The shell dispatches on the unique command id (`CommandMeta::id`), not
/// on the display name, so names may repeat across directories. The
/// arguments have already been counted against the command's limits.
///
/// `executes` states what the handler may answer: `execute_sync` returns
/// only an answer that `executes` allows for the id and the arguments it
/// was given.
pub trait CommandHandler<C: ShellConfig> {
    /// Whether `r` is an answer of this handler to the command `id` with
    /// arguments `args`. A handler that does not define it states nothing
    /// of its answers.
    open spec fn executes(&self, id: Seq<char>, args: Seq<Seq<char>>, r: Result<Response<C>, CliError>) -> bool {
        true
    }

    /// Execute a synchronous command by its id; `Err(CommandNotFound)`
    /// for an id the handler does not know.
    fn execute_sync(&self, id: &str, args: &[&str]) -> (r: Result<Response<C>, CliError>)
        ensures
            self.executes(id@, arg_texts(args@), r),
    ;
}

} // verus!
