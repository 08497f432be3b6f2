//! Command responses: a message and the flags that govern how the shell
//! shows it.

use vstd::prelude::*;
use core::marker::PhantomData;
use crate::bounded::BoundedString;
use crate::config::ShellConfig;
use crate::text::utf8_len;

verus! {

/// Capacity of a response message, in bytes.
pub const RESPONSE_CAPACITY: usize = 256;

/// Command execution response with message and formatting flags.
/// Command failures return `Err(CliError::CommandFailed(msg))`.
#[derive(Debug, PartialEq)]
pub struct Response<C: ShellConfig> {
    /// Response message (at most 256 bytes)
    pub message: BoundedString<256>,
    /// Whether the response reports success
    pub is_success: bool,
    /// Message is inline (don't echo newline after command input)
    pub inline_message: bool,
    /// Add newline before message
    pub prefix_newline: bool,
    /// Indent output (2 spaces)
    pub indent_message: bool,
    /// Add newline after message
    pub postfix_newline: bool,
    /// Display prompt after response
    pub show_prompt: bool,
    /// Prevent input from being saved to history
    pub exclude_from_history: bool,
    /// Configuration marker (zero-size)
    pub _phantom: PhantomData<C>,
}

/// The message kept for `text`: all of it when it fits, else nothing.
pub open spec fn kept_message(text: Seq<char>) -> Seq<char> {
    if utf8_len(text) <= RESPONSE_CAPACITY {
        text
    } else {
        Seq::empty()
    }
}

impl<C: ShellConfig> Clone for Response<C> {
    fn clone(&self) -> (r: Self)
        ensures
            r.same_except(self, false, false, false, false, false, false),
    {
        Response {
            message: self.message.duplicate(),
            is_success: self.is_success,
            inline_message: self.inline_message,
            prefix_newline: self.prefix_newline,
            indent_message: self.indent_message,
            postfix_newline: self.postfix_newline,
            show_prompt: self.show_prompt,
            exclude_from_history: self.exclude_from_history,
            _phantom: PhantomData,
        }
    }
}

impl<C: ShellConfig> Response<C> {
    /// Whether the formatting flags are the defaults: no prefix newline,
    /// no indent, not inline, newline after, prompt shown, kept in history.
    pub open spec fn default_flags(&self) -> bool {
        &&& !self.inline_message
        &&& !self.prefix_newline
        &&& !self.indent_message
        &&& self.postfix_newline
        &&& self.show_prompt
        &&& !self.exclude_from_history
    }

    /// Whether `self` and `other` agree on all fields but those named.
    pub open spec fn same_except(&self, other: &Self, inline: bool, prefix: bool, indent: bool, postfix: bool, prompt: bool, history: bool) -> bool {
        &&& self.message@ == other.message@
        &&& self.is_success == other.is_success
        &&& (inline || self.inline_message == other.inline_message)
        &&& (prefix || self.prefix_newline == other.prefix_newline)
        &&& (indent || self.indent_message == other.indent_message)
        &&& (postfix || self.postfix_newline == other.postfix_newline)
        &&& (prompt || self.show_prompt == other.show_prompt)
        &&& (history || self.exclude_from_history == other.exclude_from_history)
    }

    fn with_message(message: &str, is_success: bool) -> (r: Self)
        ensures
            r.message@ == kept_message(message@),
            r.is_success == is_success,
            r.default_flags(),
    {
        let mut msg: BoundedString<256> = BoundedString::new();
        proof {
            crate::text::lemma_utf8_len_empty();
        }
        let pushed = msg.push_str(message);
        assert(Seq::<char>::empty() + message@ =~= message@);
        Response {
            message: msg,
            is_success,
            inline_message: false,
            prefix_newline: false,
            indent_message: false,
            postfix_newline: true,
            show_prompt: true,
            exclude_from_history: false,
            _phantom: PhantomData,
        }
    }

    /// Create success response with default formatting. A message longer
    /// than 256 bytes is not kept (the message is then empty).
    pub fn success(message: &str) -> (r: Self)
        ensures
            r.message@ == kept_message(message@),
            r.is_success,
            r.default_flags(),
    {
        Self::with_message(message, true)
    }

    /// Create error response with default formatting.
    pub fn error(message: &str) -> (r: Self)
        ensures
            r.message@ == kept_message(message@),
            !r.is_success,
            r.default_flags(),
    {
        Self::with_message(message, false)
    }

    /// Create success response that excludes input from history.
    pub fn success_no_history(message: &str) -> (r: Self)
        ensures
            r.message@ == kept_message(message@),
            r.is_success,
            r.exclude_from_history,
            !r.inline_message && !r.prefix_newline && !r.indent_message,
            r.postfix_newline && r.show_prompt,
    {
        let response = Self::success(message);
        response.without_history()
    }

    /// Builder method to exclude command from history.
    pub fn without_history(self) -> (r: Self)
        ensures
            r.exclude_from_history,
            r.same_except(&self, false, false, false, false, false, true),
    {
        let mut s = self;
        s.exclude_from_history = true;
        s
    }

    /// Builder method for inline response (on the same line as the command).
    pub fn inline(self) -> (r: Self)
        ensures
            r.inline_message,
            r.same_except(&self, true, false, false, false, false, false),
    {
        let mut s = self;
        s.inline_message = true;
        s
    }

    /// Builder method to add blank line before response.
    pub fn with_prefix_newline(self) -> (r: Self)
        ensures
            r.prefix_newline,
            r.same_except(&self, false, true, false, false, false, false),
    {
        let mut s = self;
        s.prefix_newline = true;
        s
    }

    /// Builder method to indent response (2 spaces per line).
    pub fn indented(self) -> (r: Self)
        ensures
            r.indent_message,
            r.same_except(&self, false, false, true, false, false, false),
    {
        let mut s = self;
        s.indent_message = true;
        s
    }

    /// Builder method to suppress newline after response.
    pub fn without_postfix_newline(self) -> (r: Self)
        ensures
            !r.postfix_newline,
            r.same_except(&self, false, false, false, true, false, false),
    {
        let mut s = self;
        s.postfix_newline = false;
        s
    }

    /// Builder method to suppress prompt after response.
    pub fn without_prompt(self) -> (r: Self)
        ensures
            !r.show_prompt,
            r.same_except(&self, false, false, false, false, true, false),
    {
        let mut s = self;
        s.show_prompt = false;
        s
    }
}

} // verus!
