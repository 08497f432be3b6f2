//! Terminal input decoder: turns raw characters (including ANSI escape
//! sequences) into logical input events. A pure state machine: no buffers
//! and no I/O.

use vstd::prelude::*;
use crate::text::{is_control, is_ctrl};

verus! {

/// Decoder state for escape sequence handling.
#[derive(Debug, Copy, Clone, PartialEq, Eq)]
pub enum InputState {
    /// Normal input mode
    Normal,
    /// Saw first ESC character
    EscapeStart,
    /// Saw ESC [ (start of escape sequence)
    EscapeSequence,
}

/// Logical input event from terminal.
#[derive(Debug, Copy, Clone, PartialEq, Eq)]
pub enum InputEvent {
    /// No event (accumulating sequence)
    NoEvent,
    /// Regular character typed
    Char(char),
    /// Backspace key (ASCII BS or DEL)
    Backspace,
    /// Enter key (line feed or carriage return)
    Enter,
    /// Tab key
    Tab,
    /// Up arrow key (history previous)
    UpArrow,
    /// Down arrow key (history next)
    DownArrow,
    /// Double ESC pressed
    DoubleEsc,
}

/// Decoding of `c` in `Normal` state.
pub open spec fn decode_normal_spec(c: char) -> (InputState, InputEvent) {
    if c == '\x1b' {
        (InputState::EscapeStart, InputEvent::NoEvent)
    } else if c == '\n' || c == '\r' {
        (InputState::Normal, InputEvent::Enter)
    } else if c == '\t' {
        (InputState::Normal, InputEvent::Tab)
    } else if c == '\x08' || c == '\x7f' {
        (InputState::Normal, InputEvent::Backspace)
    } else if is_ctrl(c) {
        (InputState::Normal, InputEvent::NoEvent)
    } else {
        (InputState::Normal, InputEvent::Char(c))
    }
}

/// One decoder step: the next state and the event for `c` in `state`.
pub open spec fn decode_spec(state: InputState, c: char) -> (InputState, InputEvent) {
    match state {
        InputState::Normal => decode_normal_spec(c),
        InputState::EscapeStart => {
            if c == '\x1b' {
                (InputState::Normal, InputEvent::DoubleEsc)
            } else if c == '[' {
                (InputState::EscapeSequence, InputEvent::NoEvent)
            } else {
                (InputState::Normal, InputEvent::Char(c))
            }
        },
        InputState::EscapeSequence => {
            if c == 'A' {
                (InputState::Normal, InputEvent::UpArrow)
            } else if c == 'B' {
                (InputState::Normal, InputEvent::DownArrow)
            } else {
                (InputState::Normal, InputEvent::NoEvent)
            }
        },
    }
}

/// Whether `c` is a Unicode control character (general category Cc:
/// U+0000..=U+001F and U+007F..=U+009F).
pub open spec fn is_cc(c: char) -> bool {
    (c as u32) <= 0x1f || (0x7f <= (c as u32) && (c as u32) <= 0x9f)
}

/// Typed text is never a control character: in the normal state, ESC,
/// CR, LF, Tab, BS and DEL are keys, every other control character is
/// ignored, and any other character is typed as itself.
pub proof fn lemma_control_chars_ignored(c: char)
    ensures
        is_cc(c) && c != '\x1b' && c != '\r' && c != '\n' && c != '\t' && c != '\x08' && c != '\x7f'
            ==> decode_spec(InputState::Normal, c) == (InputState::Normal, InputEvent::NoEvent),
        !is_cc(c) ==> decode_spec(InputState::Normal, c) == (InputState::Normal, InputEvent::Char(c)),
        decode_spec(InputState::Normal, c).1 matches InputEvent::Char(x) ==> x == c && !is_cc(x),
{
}

/// Terminal input decoder with escape sequence handling.
#[derive(Debug)]
pub struct InputDecoder {
    state: InputState,
}

impl InputDecoder {
    /// The decoder's state.
    pub closed spec fn spec_state(&self) -> InputState {
        self.state
    }

    /// Create new decoder in Normal state.
    pub fn new() -> (r: Self)
        ensures
            r.spec_state() == InputState::Normal,
    {
        InputDecoder { state: InputState::Normal }
    }

    /// Decode single character into input event, updating the state.
    pub fn decode_char(&mut self, c: char) -> (e: InputEvent)
        ensures
            (final(self).spec_state(), e) == decode_spec(old(self).spec_state(), c),
    {
        match self.state {
            InputState::Normal => self.decode_normal(c),
            InputState::EscapeStart => self.decode_escape_start(c),
            InputState::EscapeSequence => self.decode_escape_sequence(c),
        }
    }

    fn decode_normal(&mut self, c: char) -> (e: InputEvent)
        ensures
            (final(self).spec_state(), e) == decode_normal_spec(c),
    {
        if c == '\x1b' {
            self.state = InputState::EscapeStart;
            InputEvent::NoEvent
        } else if c == '\n' || c == '\r' {
            self.state = InputState::Normal;
            InputEvent::Enter
        } else if c == '\t' {
            self.state = InputState::Normal;
            InputEvent::Tab
        } else if c == '\x08' || c == '\x7f' {
            self.state = InputState::Normal;
            InputEvent::Backspace
        } else if is_control(c) {
            self.state = InputState::Normal;
            InputEvent::NoEvent
        } else {
            self.state = InputState::Normal;
            InputEvent::Char(c)
        }
    }

    fn decode_escape_start(&mut self, c: char) -> (e: InputEvent)
        requires
            old(self).spec_state() == InputState::EscapeStart,
        ensures
            (final(self).spec_state(), e) == decode_spec(InputState::EscapeStart, c),
    {
        if c == '\x1b' {
            self.state = InputState::Normal;
            InputEvent::DoubleEsc
        } else if c == '[' {
            self.state = InputState::EscapeSequence;
            InputEvent::NoEvent
        } else {
            self.state = InputState::Normal;
            InputEvent::Char(c)
        }
    }

    fn decode_escape_sequence(&mut self, c: char) -> (e: InputEvent)
        requires
            old(self).spec_state() == InputState::EscapeSequence,
        ensures
            (final(self).spec_state(), e) == decode_spec(InputState::EscapeSequence, c),
    {
        self.state = InputState::Normal;
        if c == 'A' {
            InputEvent::UpArrow
        } else if c == 'B' {
            InputEvent::DownArrow
        } else {
            InputEvent::NoEvent
        }
    }

    /// Reset decoder state to Normal.
    pub fn reset(&mut self)
        ensures
            final(self).spec_state() == InputState::Normal,
    {
        self.state = InputState::Normal;
    }

    /// Current decoder state.
    pub fn state(&self) -> (r: InputState)
        ensures
            r == self.spec_state(),
    {
        self.state
    }
}

impl Default for InputDecoder {
    fn default() -> (r: Self)
        ensures
            r.spec_state() == InputState::Normal,
    {
        Self::new()
    }
}

/// Every event other than `NoEvent` leaves the decoder in `Normal` state: a
/// key is reported only once its whole sequence has been read.
pub proof fn lemma_event_ends_sequence(state: InputState, c: char)
    ensures
        decode_spec(state, c).1 != InputEvent::NoEvent ==> decode_spec(state, c).0
            == InputState::Normal,
{
}

/// From `Normal` state, ESC `[` `A` decodes to the up arrow, ESC `[` `B`
/// to the down arrow and ESC ESC to a double escape, whatever came before.
pub proof fn lemma_escape_sequences()
    ensures
        decode_spec(InputState::Normal, '\x1b') == (InputState::EscapeStart, InputEvent::NoEvent),
        decode_spec(InputState::EscapeStart, '[') == (
            InputState::EscapeSequence,
            InputEvent::NoEvent,
        ),
        decode_spec(InputState::EscapeSequence, 'A') == (InputState::Normal, InputEvent::UpArrow),
        decode_spec(InputState::EscapeSequence, 'B') == (
            InputState::Normal,
            InputEvent::DownArrow,
        ),
        decode_spec(InputState::EscapeStart, '\x1b') == (
            InputState::Normal,
            InputEvent::DoubleEsc,
        ),
{
}

/// A printable character typed in `Normal` state is reported as itself.
pub proof fn lemma_printable_passes_through(c: char)
    requires
        !is_ctrl(c),
    ensures
        decode_spec(InputState::Normal, c) == (InputState::Normal, InputEvent::Char(c)),
{
}

} // verus!
