//! Buffer sizes, capacity limits and user-visible messages, chosen at
//! compile time through the `ShellConfig` trait.

use vstd::prelude::*;

verus! {

/// Shell configuration: buffer sizes, capacity limits and messages.
///
/// The shell's internal buffers use the sizes of `DefaultConfig`; the
/// messages are taken from the configuration the shell is built with.
pub trait ShellConfig {
    /// Maximum input buffer size (default: 128)
    const MAX_INPUT: usize;

    /// Maximum path depth (default: 8)
    const MAX_PATH_DEPTH: usize;

    /// Maximum number of command arguments (default: 16)
    const MAX_ARGS: usize;

    /// Maximum prompt length (default: 64)
    const MAX_PROMPT: usize;

    /// Maximum response message length (default: 256)
    const MAX_RESPONSE: usize;

    /// Command history size (default: 10)
    const HISTORY_SIZE: usize;

    /// Welcome message shown on activation
    const MSG_WELCOME: &'static str;

    /// Login prompt
    const MSG_LOGIN_PROMPT: &'static str;

    /// Login success message
    const MSG_LOGIN_SUCCESS: &'static str;

    /// Login failed message
    const MSG_LOGIN_FAILED: &'static str;

    /// Logout message
    const MSG_LOGOUT: &'static str;

    /// Invalid login format message
    const MSG_INVALID_LOGIN_FORMAT: &'static str;
}

/// Default configuration for typical embedded systems.
#[derive(Debug, Copy, Clone, PartialEq, Eq)]
pub struct DefaultConfig;

impl ShellConfig for DefaultConfig {
    const MAX_INPUT: usize = 128;
    const MAX_PATH_DEPTH: usize = 8;
    const MAX_ARGS: usize = 16;
    const MAX_PROMPT: usize = 64;
    const MAX_RESPONSE: usize = 256;
    const HISTORY_SIZE: usize = 10;
    const MSG_WELCOME: &'static str = "Welcome to nut-shell! Type '?' for help.";
    const MSG_LOGIN_PROMPT: &'static str = "Login> ";
    const MSG_LOGIN_SUCCESS: &'static str = "Logged in.";
    const MSG_LOGIN_FAILED: &'static str = "Login failed. Try again.";
    const MSG_LOGOUT: &'static str = "Logged out.";
    const MSG_INVALID_LOGIN_FORMAT: &'static str = "Invalid format. Use <username>:<password>";
}

/// Minimal configuration for resource-constrained systems.
#[derive(Debug, Copy, Clone, PartialEq, Eq)]
pub struct MinimalConfig;

impl ShellConfig for MinimalConfig {
    const MAX_INPUT: usize = 64;
    const MAX_PATH_DEPTH: usize = 4;
    const MAX_ARGS: usize = 8;
    const MAX_PROMPT: usize = 32;
    const MAX_RESPONSE: usize = 128;
    const HISTORY_SIZE: usize = 4;
    const MSG_WELCOME: &'static str = "Welcome!";
    const MSG_LOGIN_PROMPT: &'static str = "Login> ";
    const MSG_LOGIN_SUCCESS: &'static str = "Logged in";
    const MSG_LOGIN_FAILED: &'static str = "Login failed";
    const MSG_LOGOUT: &'static str = "Logged out";
    const MSG_INVALID_LOGIN_FORMAT: &'static str = "Invalid format. Use name:password";
}

} // verus!
