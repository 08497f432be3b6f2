//! Interactive command shell for small systems: path-based command trees,
//! line editing, completion, history and optional login.

pub mod auth;
pub mod bounded;
pub mod config;
pub mod error;
pub mod io;
pub mod minimal;
pub mod response;
pub mod shell;
pub mod text;
pub mod tree;

pub use auth::{AccessLevel, ConstCredentialProvider, CredentialProvider, NoCredentials, PasswordHasher, Sha256Hasher, User};
pub use config::{DefaultConfig, MinimalConfig, ShellConfig};
pub use error::CliError;
pub use io::CharIo;
pub use response::Response;
pub use shell::handler::CommandHandler;
pub use shell::{CliState, HistoryDirection, Request, Shell};
pub use tree::{CommandKind, CommandMeta, Directory, Node};

use vstd::prelude::*;

verus! {

/// Library version
pub const VERSION: &'static str = "0.1.0";

/// Library name
pub const NAME: &'static str = "nut_shell";

} // verus!
