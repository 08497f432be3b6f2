//! The command handler trait, under the name the command tree's
//! documentation uses.

pub use crate::shell::handler::CommandHandler;
