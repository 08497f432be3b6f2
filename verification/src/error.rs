//! Error conditions of command processing and their user-facing text.

use vstd::prelude::*;
use crate::text::{decimal, decimal_chars, push_chars, push_str, chars_to_string};

verus! {

/// CLI error type.
///
/// `InvalidPath` stands both for a path that does not exist and for one the
/// user may not access, so that an error never reveals which.
#[derive(Debug, Clone, PartialEq, Eq)]
pub enum CliError {
    /// Command not found in tree
    CommandNotFound,
    /// Path doesn't exist OR user lacks access (intentionally ambiguous)
    InvalidPath,
    /// Wrong number of arguments
    InvalidArgumentCount {
        /// Minimum expected arguments
        expected_min: usize,
        /// Maximum expected arguments
        expected_max: usize,
        /// Number of arguments received
        received: usize,
    },
    /// Invalid argument format/type
    InvalidArgumentFormat {
        /// Which argument (0-indexed)
        arg_index: usize,
        /// What was expected (e.g., "integer", "IP address")
        expected: String,
    },
    /// Buffer capacity exceeded
    BufferFull,
    /// Path exceeds the maximum depth
    PathTooDeep,
    /// Authentication failed - wrong credentials
    AuthenticationFailed,
    /// Tried to execute command while logged out
    NotAuthenticated,
    /// I/O error occurred
    IoError,
    /// Async command called from sync context
    AsyncInSyncContext,
    /// Operation timed out
    Timeout,
    /// Command executed but reported failure
    CommandFailed(String),
    /// Generic error with message
    Other(String),
}

/// The text shown for an error.
pub open spec fn error_text(e: CliError) -> Seq<char> {
    match e {
        CliError::CommandNotFound => "Command not found"@,
        CliError::InvalidPath => "Invalid path"@,
        CliError::InvalidArgumentCount { expected_min, expected_max, received } => {
            if expected_min == expected_max {
                "Expected "@ + decimal(expected_min as nat) + " arguments, got "@ + decimal(
                    received as nat,
                )
            } else {
                "Expected "@ + decimal(expected_min as nat) + "-"@ + decimal(expected_max as nat)
                    + " arguments, got "@ + decimal(received as nat)
            }
        },
        CliError::InvalidArgumentFormat { arg_index, expected } => "Argument "@ + decimal(
            (arg_index + 1) as nat,
        ) + ": expected "@ + expected@,
        CliError::BufferFull => "Buffer full"@,
        CliError::PathTooDeep => "Path too deep"@,
        CliError::AuthenticationFailed => "Authentication failed"@,
        CliError::NotAuthenticated => "Not authenticated"@,
        CliError::IoError => "I/O error"@,
        CliError::AsyncInSyncContext => "Async command requires async context"@,
        CliError::Timeout => "Timeout"@,
        CliError::CommandFailed(msg) => msg@,
        CliError::Other(msg) => msg@,
    }
}

/// The text a shell shows after `Error: ` when a command line fails: a
/// short label for each kind of error (the argument count in full), and
/// `Unknown error` for the errors that only a command handler or the
/// authentication layer gives.
pub open spec fn report_text(e: CliError) -> Seq<char> {
    match e {
        CliError::CommandNotFound => "Command not found"@,
        CliError::InvalidPath => "Invalid path"@,
        CliError::InvalidArgumentCount { .. } => error_text(e),
        CliError::InvalidArgumentFormat { .. } => "Invalid argument format"@,
        CliError::BufferFull => "Buffer full"@,
        CliError::PathTooDeep => "Path too deep"@,
        CliError::AsyncInSyncContext => "Async command requires process_char_async()"@,
        _ => "Unknown error"@,
    }
}

impl CliError {
    /// The user-facing text of this error, as characters.
    pub fn message_chars(&self) -> (v: Vec<char>)
        ensures
            v@ == error_text(*self),
    {
        let mut v: Vec<char> = Vec::new();
        match self {
            CliError::CommandNotFound => push_str(&mut v, "Command not found"),
            CliError::InvalidPath => push_str(&mut v, "Invalid path"),
            CliError::InvalidArgumentCount { expected_min, expected_max, received } => {
                push_str(&mut v, "Expected ");
                let a = decimal_chars(*expected_min as u128);
                push_chars(&mut v, a.as_slice());
                if *expected_min != *expected_max {
                    push_str(&mut v, "-");
                    let b = decimal_chars(*expected_max as u128);
                    push_chars(&mut v, b.as_slice());
                }
                push_str(&mut v, " arguments, got ");
                let c = decimal_chars(*received as u128);
                push_chars(&mut v, c.as_slice());
            },
            CliError::InvalidArgumentFormat { arg_index, expected } => {
                push_str(&mut v, "Argument ");
                let a = decimal_chars(*arg_index as u128 + 1);
                push_chars(&mut v, a.as_slice());
                push_str(&mut v, ": expected ");
                push_str(&mut v, expected.as_str());
            },
            CliError::BufferFull => push_str(&mut v, "Buffer full"),
            CliError::PathTooDeep => push_str(&mut v, "Path too deep"),
            CliError::AuthenticationFailed => push_str(&mut v, "Authentication failed"),
            CliError::NotAuthenticated => push_str(&mut v, "Not authenticated"),
            CliError::IoError => push_str(&mut v, "I/O error"),
            CliError::AsyncInSyncContext => push_str(&mut v, "Async command requires async context"),
            CliError::Timeout => push_str(&mut v, "Timeout"),
            CliError::CommandFailed(msg) => push_str(&mut v, msg.as_str()),
            CliError::Other(msg) => push_str(&mut v, msg.as_str()),
        }
        v
    }

    /// The text a shell shows for this error after `Error: `.
    pub fn report_chars(&self) -> (v: Vec<char>)
        ensures
            v@ == report_text(*self),
    {
        match self {
            CliError::CommandNotFound | CliError::InvalidPath | CliError::InvalidArgumentCount { .. }
            | CliError::BufferFull | CliError::PathTooDeep => self.message_chars(),
            CliError::InvalidArgumentFormat { .. } => {
                let mut v: Vec<char> = Vec::new();
                push_str(&mut v, "Invalid argument format");
                v
            },
            CliError::AsyncInSyncContext => {
                let mut v: Vec<char> = Vec::new();
                push_str(&mut v, "Async command requires process_char_async()");
                v
            },
            _ => {
                let mut v: Vec<char> = Vec::new();
                push_str(&mut v, "Unknown error");
                v
            },
        }
    }

    /// The user-facing text of this error (what `Display` shows).
    pub fn message(&self) -> (s: String)
        ensures
            s@ == error_text(*self),
    {
        let v = self.message_chars();
        chars_to_string(v.as_slice())
    }
}

} // verus!
