//! Input parser: the escape-sequence state machine of the decoder, applied
//! directly to a line buffer (characters are appended, backspace removes
//! the last one, double ESC clears it).

use vstd::prelude::*;
use crate::bounded::BoundedString;
use crate::error::CliError;
use crate::text::{char_width, is_control, is_ctrl, utf8_len};

verus! {

/// Parser state for escape sequence handling.
#[derive(Debug, Copy, Clone, PartialEq, Eq)]
pub enum ParserState {
    /// Normal input mode
    Normal,
    /// Saw first ESC character
    EscapeStart,
    /// Saw ESC [ (start of escape sequence)
    EscapeSequence,
}

/// Parse event result.
#[derive(Debug, Copy, Clone, PartialEq, Eq)]
pub enum ParseEvent {
    /// No event (accumulating sequence)
    NoEvent,
    /// Regular character added to buffer
    Character(char),
    /// Backspace key
    Backspace,
    /// Enter key (submit command)
    Enter,
    /// Tab key (completion)
    Tab,
    /// Up arrow key (history previous)
    UpArrow,
    /// Down arrow key (history next)
    DownArrow,
    /// Double ESC pressed (buffer cleared)
    ClearAndRedraw,
}

/// Outcome of one parser step: next state, result, buffer afterwards.
pub type ParseOutcome = (ParserState, Result<ParseEvent, CliError>, Seq<char>);

/// Parsing of `c` in `Normal` state with buffer `buf` of capacity `cap` bytes.
pub open spec fn parse_normal_spec(c: char, buf: Seq<char>, cap: nat) -> ParseOutcome {
    if c == '\x1b' {
        (ParserState::EscapeStart, Ok(ParseEvent::NoEvent), buf)
    } else if c == '\n' || c == '\r' {
        (ParserState::Normal, Ok(ParseEvent::Enter), buf)
    } else if c == '\t' {
        (ParserState::Normal, Ok(ParseEvent::Tab), buf)
    } else if c == '\x08' || c == '\x7f' {
        (
            ParserState::Normal,
            Ok(ParseEvent::Backspace),
            if buf.len() > 0 {
                buf.drop_last()
            } else {
                buf
            },
        )
    } else if is_ctrl(c) {
        (ParserState::Normal, Ok(ParseEvent::NoEvent), buf)
    } else if utf8_len(buf) + char_width(c) <= cap {
        (ParserState::Normal, Ok(ParseEvent::Character(c)), buf.push(c))
    } else {
        (ParserState::Normal, Err(CliError::BufferFull), buf)
    }
}

/// One parser step for `c` in `state` with buffer `buf` of capacity `cap`.
pub open spec fn parse_spec(state: ParserState, c: char, buf: Seq<char>, cap: nat) -> ParseOutcome {
    match state {
        ParserState::Normal => parse_normal_spec(c, buf, cap),
        ParserState::EscapeStart => {
            if c == '\x1b' {
                (ParserState::Normal, Ok(ParseEvent::ClearAndRedraw), Seq::empty())
            } else if c == '[' {
                (ParserState::EscapeSequence, Ok(ParseEvent::NoEvent), buf)
            } else {
                parse_normal_spec(c, buf, cap)
            }
        },
        ParserState::EscapeSequence => {
            if c == 'A' {
                (ParserState::Normal, Ok(ParseEvent::UpArrow), buf)
            } else if c == 'B' {
                (ParserState::Normal, Ok(ParseEvent::DownArrow), buf)
            } else {
                (ParserState::Normal, Ok(ParseEvent::NoEvent), buf)
            }
        },
    }
}

/// What a parser step does to the line: a refused character (the only
/// error, `BufferFull`, when it does not fit) leaves the line unchanged;
/// a typed character is appended, and is never a control character;
/// Backspace removes the last character; double ESC clears the line; every
/// other event leaves it as it was. A line within its capacity stays
/// within it.
pub proof fn lemma_parse_line_effect(state: ParserState, c: char, buf: Seq<char>, cap: nat)
    ensures
        ({
            let (ns, r, nb) = parse_spec(state, c, buf, cap);
            &&& r is Err ==> r == Err::<ParseEvent, CliError>(CliError::BufferFull) && nb == buf
                && utf8_len(buf) + char_width(c) > cap
            &&& r matches Ok(ParseEvent::Character(x)) ==> x == c && nb == buf.push(x) && !((x as u32) <= 0x1f
                || (0x7f <= (x as u32) && (x as u32) <= 0x9f))
            &&& r == Ok::<ParseEvent, CliError>(ParseEvent::Backspace) ==> nb == (if buf.len() > 0 {
                buf.drop_last()
            } else {
                buf
            })
            &&& r == Ok::<ParseEvent, CliError>(ParseEvent::ClearAndRedraw) ==> nb.len() == 0
            &&& (r is Ok && !(r matches Ok(ParseEvent::Character(_))) && r != Ok::<ParseEvent, CliError>(
                ParseEvent::Backspace,
            ) && r != Ok::<ParseEvent, CliError>(ParseEvent::ClearAndRedraw)) ==> nb == buf
            &&& utf8_len(buf) <= cap ==> utf8_len(nb) <= cap
        }),
{
    crate::text::lemma_utf8_len_push(buf, c);
    crate::text::lemma_utf8_len_empty();
    if buf.len() > 0 {
        crate::text::lemma_utf8_len_push(buf.drop_last(), buf.last());
        assert(buf.drop_last().push(buf.last()) =~= buf);
    }
}

/// Terminal input parser with escape sequence handling.
#[derive(Debug)]
pub struct InputParser {
    state: ParserState,
}

impl InputParser {
    /// The parser's state.
    pub closed spec fn spec_state(&self) -> ParserState {
        self.state
    }

    /// Create new parser in Normal state.
    pub fn new() -> (r: Self)
        ensures
            r.spec_state() == ParserState::Normal,
    {
        InputParser { state: ParserState::Normal }
    }

    /// Process single character, updating `buffer` and the state.
    /// Fails with `BufferFull` when a character does not fit in `buffer`.
    pub fn process_char<const N: usize>(&mut self, c: char, buffer: &mut BoundedString<N>) -> (r:
        Result<ParseEvent, CliError>)
        ensures
            (final(self).spec_state(), r, final(buffer)@) == parse_spec(
                old(self).spec_state(),
                c,
                old(buffer)@,
                N as nat,
            ),
    {
        match self.state {
            ParserState::Normal => self.process_normal(c, buffer),
            ParserState::EscapeStart => self.process_escape_start(c, buffer),
            ParserState::EscapeSequence => self.process_escape_sequence(c),
        }
    }

    fn process_normal<const N: usize>(&mut self, c: char, buffer: &mut BoundedString<N>) -> (r:
        Result<ParseEvent, CliError>)
        ensures
            (final(self).spec_state(), r, final(buffer)@) == parse_normal_spec(
                c,
                old(buffer)@,
                N as nat,
            ),
    {
        if c == '\x1b' {
            self.state = ParserState::EscapeStart;
            Ok(ParseEvent::NoEvent)
        } else if c == '\n' || c == '\r' {
            self.state = ParserState::Normal;
            Ok(ParseEvent::Enter)
        } else if c == '\t' {
            self.state = ParserState::Normal;
            Ok(ParseEvent::Tab)
        } else if c == '\x08' || c == '\x7f' {
            self.state = ParserState::Normal;
            if !buffer.is_empty() {
                buffer.pop();
            }
            Ok(ParseEvent::Backspace)
        } else if is_control(c) {
            self.state = ParserState::Normal;
            Ok(ParseEvent::NoEvent)
        } else {
            self.state = ParserState::Normal;
            match buffer.push(c) {
                Ok(()) => Ok(ParseEvent::Character(c)),
                Err(()) => Err(CliError::BufferFull),
            }
        }
    }

    fn process_escape_start<const N: usize>(&mut self, c: char, buffer: &mut BoundedString<N>) -> (r:
        Result<ParseEvent, CliError>)
        requires
            old(self).spec_state() == ParserState::EscapeStart,
        ensures
            (final(self).spec_state(), r, final(buffer)@) == parse_spec(
                ParserState::EscapeStart,
                c,
                old(buffer)@,
                N as nat,
            ),
    {
        if c == '\x1b' {
            self.state = ParserState::Normal;
            buffer.clear();
            Ok(ParseEvent::ClearAndRedraw)
        } else if c == '[' {
            self.state = ParserState::EscapeSequence;
            Ok(ParseEvent::NoEvent)
        } else {
            self.state = ParserState::Normal;
            self.process_normal(c, buffer)
        }
    }

    fn process_escape_sequence(&mut self, c: char) -> (r: Result<ParseEvent, CliError>)
        requires
            old(self).spec_state() == ParserState::EscapeSequence,
        ensures
            final(self).spec_state() == ParserState::Normal,
            r == (if c == 'A' {
                Ok::<ParseEvent, CliError>(ParseEvent::UpArrow)
            } else if c == 'B' {
                Ok(ParseEvent::DownArrow)
            } else {
                Ok(ParseEvent::NoEvent)
            }),
    {
        self.state = ParserState::Normal;
        if c == 'A' {
            Ok(ParseEvent::UpArrow)
        } else if c == 'B' {
            Ok(ParseEvent::DownArrow)
        } else {
            Ok(ParseEvent::NoEvent)
        }
    }

    /// Reset parser state to Normal.
    pub fn reset(&mut self)
        ensures
            final(self).spec_state() == ParserState::Normal,
    {
        self.state = ParserState::Normal;
    }

    /// Current parser state.
    pub fn state(&self) -> (r: ParserState)
        ensures
            r == self.spec_state(),
    {
        self.state
    }
}

impl Default for InputParser {
    fn default() -> (r: Self)
        ensures
            r.spec_state() == ParserState::Normal,
    {
        Self::new()
    }
}

/// The buffer never grows past its capacity: a step that starts with at
/// most `cap` bytes ends with at most `cap` bytes.
pub proof fn lemma_parse_respects_capacity(state: ParserState, c: char, buf: Seq<char>, cap: nat)
    requires
        utf8_len(buf) <= cap,
    ensures
        utf8_len(parse_spec(state, c, buf, cap).2) <= cap,
{
    crate::text::lemma_utf8_len_push(buf, c);
    crate::text::lemma_utf8_len_empty();
    if buf.len() > 0 {
        crate::text::lemma_utf8_len_prefix(buf, buf.len() - 1);
        assert(buf.take(buf.len() - 1) =~= buf.drop_last());
    }
}

/// Only a printable character or backspace changes the buffer's
/// contents other than by clearing: arrow keys, tab and enter leave it
/// as it was.
pub proof fn lemma_navigation_keys_keep_buffer(state: ParserState, c: char, buf: Seq<char>, cap: nat)
    requires
        parse_spec(state, c, buf, cap).1 matches Ok(e) && (e == ParseEvent::UpArrow || e
            == ParseEvent::DownArrow || e == ParseEvent::Tab || e == ParseEvent::Enter || e
            == ParseEvent::NoEvent),
    ensures
        parse_spec(state, c, buf, cap).2 == buf,
{
}

} // verus!
