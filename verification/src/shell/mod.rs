//! Shell orchestration: the interactive state machine that turns input
//! characters into edits, commands, completions and output.

pub mod decoder;
pub mod handler;
pub mod handlers;
pub mod history;
pub mod laws;
pub mod model;
pub mod nav;
pub mod parser;

use vstd::prelude::*;
use core::marker::PhantomData;
use crate::auth::{
    level_allows, level_of, login_answer, ordered, AccessLevel, CredentialProvider, NoCredentials, User,
};
use crate::bounded::BoundedString;
use crate::config::ShellConfig;
use crate::error::CliError;
use crate::io::CharIo;
use crate::response::Response;
use crate::shell::decoder::{InputDecoder, InputEvent, InputState};
use crate::shell::handler::{arg_texts, CommandHandler};
use crate::shell::history::CommandHistory;
use crate::shell::model::{
    down_step, echo_char, event_step, first_index, indent_breaks, lemma_first_index_found,
    line_compares_levels, line_dispatch, line_overflows, line_step, login_parts, login_step,
    match_list, nav_reply, prompt_of, real_segments, redraw, reply_of, reply_text, step,
    step_compares_levels, step_dispatch, step_login, step_overflows, tab_step, tree_dispatch,
    tree_outcome, tree_step, up_step, view_wf, with_buffer, with_line_recorded, Reply, ShellView,
};
use crate::shell::nav::{dir_at_path, ls_chars, prompt_chars, resolve_segments, segs_view};
use crate::text::{
    chars_eq_str, chars_to_string, count_of, push_chars, push_str, split_nonempty, split_pieces,
    trimmed,
};
use crate::tree::completion::{completion_spec, ref_level, suggest_completions};
use crate::tree::{CommandKind, Directory};

verus! {

/// History navigation direction.
#[derive(Debug, Copy, Clone, PartialEq, Eq)]
pub enum HistoryDirection {
    /// Up arrow key (navigate to older command)
    Previous,
    /// Down arrow key (navigate to newer command or restore original)
    Next,
}

/// CLI state: whether the shell is active and whether a user is logged in.
#[derive(Debug, Copy, Clone, PartialEq, Eq)]
pub enum CliState {
    /// CLI not active
    Inactive,
    /// Awaiting authentication
    LoggedOut,
    /// Authenticated, or a shell without authentication
    LoggedIn,
}

/// A parsed piece of user input.
#[derive(Debug)]
pub enum Request<C: ShellConfig> {
    /// Well-formed authentication attempt
    Login {
        /// Username (at most 32 bytes)
        username: BoundedString<32>,
        /// Password (at most 64 bytes)
        password: BoundedString<64>,
    },
    /// Malformed authentication attempt
    InvalidLogin,
    /// Execute a command
    Command {
        /// Command path
        path: BoundedString<128>,
        /// Command arguments
        args: Vec<BoundedString<128>>,
        /// Original command line, for the history
        original: BoundedString<128>,
        /// Configuration marker (zero-size)
        _phantom: PhantomData<C>,
    },
    /// Request completions
    TabComplete {
        /// Partial path to complete
        path: BoundedString<128>,
    },
    /// Navigate the history
    History {
        /// Navigation direction
        direction: HistoryDirection,
        /// Current buffer content
        buffer: BoundedString<128>,
    },
}

/// The interactive shell.
///
/// Generic over the tree's lifetime, the access level `L`, the I/O `IO`,
/// the command handler `H`, the configuration `C` (whose messages it
/// shows) and the credential provider `P` (none for a shell without
/// authentication).
pub struct Shell<'tree, L, IO, H, C, P = NoCredentials<L>> where
    L: AccessLevel,
    IO: CharIo,
    H: CommandHandler<C>,
    C: ShellConfig,
    P: CredentialProvider<L, Error = ()> + 'tree,
 {
    tree: &'tree Directory<L>,
    current_user: Option<User<L>>,
    state: CliState,
    input_buffer: BoundedString<128>,
    current_path: Vec<usize>,
    decoder: InputDecoder,
    history: CommandHistory<10, 128>,
    io: IO,
    handler: H,
    credential_provider: Option<&'tree P>,
    _config: PhantomData<C>,
}

impl<'tree, L, IO, H, C, P> View for Shell<'tree, L, IO, H, C, P> where
    L: AccessLevel,
    IO: CharIo,
    H: CommandHandler<C>,
    C: ShellConfig,
    P: CredentialProvider<L, Error = ()> + 'tree,
 {
    type V = ShellView<L>;

    closed spec fn view(&self) -> ShellView<L> {
        ShellView {
            state: self.state,
            user: self.current_user,
            buffer: self.input_buffer@,
            path: self.current_path@,
            decoder: self.decoder.spec_state(),
            history: self.history.entries(),
            position: self.history.position(),
        }
    }
}

/// The view of a new shell: inactive, nobody logged in, at the root, with
/// an empty line and an empty history.
pub open spec fn initial_view<L: AccessLevel>() -> ShellView<L> {
    ShellView {
        state: CliState::Inactive,
        user: None,
        buffer: Seq::empty(),
        path: Seq::empty(),
        decoder: InputState::Normal,
        history: Seq::empty(),
        position: None,
    }
}

/// The view after activation: logged out when authentication is on,
/// logged in otherwise.
pub open spec fn activated<L: AccessLevel>(auth: bool, v: ShellView<L>) -> ShellView<L> {
    ShellView {
        state: if auth {
            CliState::LoggedOut
        } else {
            CliState::LoggedIn
        },
        ..v
    }
}

/// The text shown on activation: the welcome message, then the login
/// prompt or the shell prompt.
pub open spec fn activation_text<L: AccessLevel, C: ShellConfig>(root: Directory<L>, auth: bool, v: ShellView<L>) -> Seq<char> {
    if auth {
        C::MSG_WELCOME@ + C::MSG_LOGIN_PROMPT@
    } else {
        C::MSG_WELCOME@ + prompt_of(root, activated(auth, v))
    }
}

/// A handler's result, as the shell sees it.
pub open spec fn reply_result<C: ShellConfig>(r: Result<Response<C>, CliError>) -> Result<Reply, CliError> {
    match r {
        Ok(resp) => Ok(reply_of(resp)),
        Err(e) => Err(e),
    }
}

/// `s` with every line break `\r\n` followed by two spaces.
pub fn indent_chars(s: &[char]) -> (r: Vec<char>)
    ensures
        r@ == indent_breaks(s@),
{
    let mut out: Vec<char> = Vec::new();
    let mut i: usize = 0;
    assert(s@.skip(0) =~= s@);
    while i < s.len()
        invariant
            i <= s@.len(),
            indent_breaks(s@) == out@ + indent_breaks(s@.skip(i as int)),
        decreases s.len() - i,
    {
        let ghost rest = s@.skip(i as int);
        assert(rest[0] == s@[i as int]);
        if s[i] == '\r' && i + 1 < s.len() && s[i + 1] == '\n' {
            assert(rest[1] == s@[i + 1]);
            assert(rest.skip(2) =~= s@.skip(i + 2));
            push_str(&mut out, "\r\n  ");
            i = i + 2;
        } else {
            assert(rest.skip(1) =~= s@.skip(i + 1));
            out.push(s[i]);
            i = i + 1;
        }
        assert(indent_breaks(s@) =~= out@ + indent_breaks(s@.skip(i as int)));
    }
    assert(s@.skip(i as int) =~= Seq::<char>::empty());
    assert(out@ + Seq::<char>::empty() =~= out@);
    out
}

/// Appends the text of `resp` (see `reply_text`).
pub fn push_reply<C: ShellConfig>(resp: &Response<C>, out: &mut Vec<char>)
    ensures
        final(out)@ == old(out)@ + reply_text(reply_of(*resp)),
{
    if resp.prefix_newline {
        push_str(out, "\r\n");
    }
    if resp.indent_message {
        push_str(out, "  ");
        let m = resp.message.to_chars();
        let ind = indent_chars(m.as_slice());
        push_chars(out, ind.as_slice());
    } else {
        push_str(out, resp.message.as_str());
    }
    if resp.postfix_newline {
        push_str(out, "\r\n");
    }
    assert(final(out)@ =~= old(out)@ + reply_text(reply_of(*resp)));
}

/// The view after deactivation: inactive, nobody logged in, at the root,
/// with an empty line.
pub open spec fn deactivated<L: AccessLevel>(v: ShellView<L>) -> ShellView<L> {
    ShellView { state: CliState::Inactive, user: None, buffer: Seq::empty(), path: Seq::empty(), ..v }
}

impl<'tree, L, IO, H, C> Shell<'tree, L, IO, H, C, NoCredentials<L>> where
    L: AccessLevel,
    IO: CharIo,
    H: CommandHandler<C>,
    C: ShellConfig,
 {
    /// Create a shell without authentication. It starts `Inactive`:
    /// `activate()` shows the welcome message and the prompt.
    pub fn new(tree: &'tree Directory<L>, handler: H, io: IO) -> (r: Self)
        ensures
            r.wf(),
            r@ == initial_view::<L>(),
            r.spec_tree() == *tree,
            !r.spec_auth(),
    {
        let r = Shell {
            tree,
            current_user: None,
            state: CliState::Inactive,
            input_buffer: BoundedString::new(),
            current_path: Vec::new(),
            decoder: InputDecoder::new(),
            history: CommandHistory::new(),
            io,
            handler,
            credential_provider: None,
            _config: PhantomData,
        };
        proof {
            crate::text::lemma_utf8_len_empty();
        }
        assert(r@ =~= initial_view::<L>());
        r
    }
}

impl<'tree, L, IO, H, C, P> Shell<'tree, L, IO, H, C, P> where
    L: AccessLevel,
    IO: CharIo,
    H: CommandHandler<C>,
    C: ShellConfig,
    P: CredentialProvider<L, Error = ()> + 'tree,
 {
    /// The command tree.
    pub closed spec fn spec_tree(&self) -> Directory<L> {
        *self.tree
    }

    /// The I/O interface.
    pub closed spec fn spec_io(&self) -> IO {
        self.io
    }

    /// Whether the shell asks for a login.
    pub closed spec fn spec_auth(&self) -> bool {
        self.credential_provider is Some
    }

    /// The command handler.
    pub closed spec fn spec_handler(&self) -> H {
        self.handler
    }

    /// The credential provider (none without authentication).
    pub closed spec fn spec_provider(&self) -> Option<P> {
        match self.credential_provider {
            Some(p) => Some(*p),
            None => None,
        }
    }

    /// The shell's well-formedness (see `view_wf`).
    pub open spec fn wf(&self) -> bool {
        view_wf(self.spec_tree(), self.spec_auth(), self@)
    }

    /// Whether `other` is this shell over the same tree, with the same
    /// authentication mode, command handler and credential provider.
    pub open spec fn same_setup(&self, other: &Self) -> bool {
        &&& self.spec_tree() == other.spec_tree()
        &&& self.spec_auth() == other.spec_auth()
        &&& self.spec_handler() == other.spec_handler()
        &&& self.spec_provider() == other.spec_provider()
    }

    /// Create a shell that asks for a login checked by `credential_provider`.
    /// It starts `Inactive`: `activate()` shows the welcome message and the
    /// login prompt.
    pub fn with_auth(tree: &'tree Directory<L>, handler: H, credential_provider: &'tree P, io: IO) -> (r: Self)
        ensures
            r.wf(),
            r@ == initial_view::<L>(),
            r.spec_tree() == *tree,
            r.spec_auth(),
    {
        let r = Shell {
            tree,
            current_user: None,
            state: CliState::Inactive,
            input_buffer: BoundedString::new(),
            current_path: Vec::new(),
            decoder: InputDecoder::new(),
            history: CommandHistory::new(),
            io,
            handler,
            credential_provider: Some(credential_provider),
            _config: PhantomData,
        };
        proof {
            crate::text::lemma_utf8_len_empty();
        }
        assert(r@ =~= initial_view::<L>());
        r
    }

    /// The I/O interface.
    pub fn io(&self) -> (r: &IO)
        ensures
            *r == self.spec_io(),
    {
        &self.io
    }

    /// The I/O interface, for changing it in place.
    pub fn io_mut(&mut self) -> (r: &mut IO)
        ensures
            *r == old(self).spec_io(),
            *final(r) == final(self).spec_io(),
            final(self)@ == old(self)@,
            final(self).same_setup(old(self)),
    {
        &mut self.io
    }

    /// The CLI state.
    pub fn state(&self) -> (r: CliState)
        ensures
            r == self@.state,
    {
        self.state
    }

    /// The line being edited.
    pub fn input(&self) -> (r: &str)
        ensures
            r@ == self@.buffer,
    {
        self.input_buffer.as_str()
    }

    /// The current directory, as child indices from the root.
    pub fn current_path(&self) -> (r: &[usize])
        ensures
            r@ == self@.path,
    {
        self.current_path.as_slice()
    }

    /// The logged-in user, if any.
    pub fn current_user(&self) -> (r: Option<&User<L>>)
        ensures
            match r {
                Some(u) => self@.user == Some(*u),
                None => self@.user is None,
            },
    {
        match &self.current_user {
            Some(u) => Some(u),
            None => None,
        }
    }

    /// Set (or clear) the logged-in user directly, as a successful login
    /// (or a logout) would, without asking the credential provider.
    pub fn set_authenticated_user(&mut self, user: Option<User<L>>) -> (r: Result<(), CliError>)
        requires
            old(self).wf(),
            old(self).spec_auth(),
        ensures
            r is Ok,
            final(self).wf(),
            final(self).same_setup(old(self)),
            final(self)@ == (ShellView {
                user: user,
                state: if user is Some {
                    CliState::LoggedIn
                } else {
                    CliState::LoggedOut
                },
                ..old(self)@
            }),
    {
        let is_some = user.is_some();
        self.current_user = user;
        if is_some {
            self.state = CliState::LoggedIn;
        } else {
            self.state = CliState::LoggedOut;
        }
        Ok(())
    }

    /// The prompt for the current user and directory.
    fn prompt(&self) -> (r: Vec<char>)
        requires
            self.wf(),
        ensures
            r@ == prompt_of(self.spec_tree(), self@),
    {
        prompt_chars(&self.current_user, self.tree, self.current_path.as_slice())
    }

    /// Clear the line and redraw prompt and buffer.
    fn redraw(&self) -> (r: Vec<char>)
        requires
            self.wf(),
        ensures
            r@ == redraw(self.spec_tree(), self@),
    {
        let mut out: Vec<char> = Vec::new();
        push_str(&mut out, "\r\x1b[K");
        let p = self.prompt();
        push_chars(&mut out, p.as_slice());
        push_str(&mut out, self.input_buffer.as_str());
        assert(out@ =~= redraw(self.spec_tree(), self@));
        out
    }

    /// Activate the shell and return the welcome text instead of writing
    /// it.
    pub fn start(&mut self) -> (out: String)
        requires
            old(self).wf(),
        ensures
            final(self).wf(),
            final(self).same_setup(old(self)),
            final(self)@ == activated(old(self).spec_auth(), old(self)@),
            out@ == activation_text::<L, C>(old(self).spec_tree(), old(self).spec_auth(), old(self)@),
    {
        let mut out: Vec<char> = Vec::new();
        if self.credential_provider.is_some() {
            self.state = CliState::LoggedOut;
            push_str(&mut out, C::MSG_WELCOME);
            push_str(&mut out, C::MSG_LOGIN_PROMPT);
        } else {
            self.state = CliState::LoggedIn;
            push_str(&mut out, C::MSG_WELCOME);
            let p = self.prompt();
            push_chars(&mut out, p.as_slice());
        }
        assert(self@ =~= activated(old(self).spec_auth(), old(self)@));
        assert(out@ =~= activation_text::<L, C>(old(self).spec_tree(), old(self).spec_auth(), old(self)@));
        chars_to_string(out.as_slice())
    }

    /// Activate the shell: show the welcome message, then the login prompt
    /// (authentication on) or the shell prompt, and await input.
    pub fn activate(&mut self) -> (r: Result<(), IO::Error>)
        requires
            old(self).wf(),
        ensures
            final(self).wf(),
            final(self).same_setup(old(self)),
            final(self)@ == activated(old(self).spec_auth(), old(self)@),
    {
        let out = self.start();
        self.io.write_str(out.as_str())
    }

    /// Deactivate the shell: log out, clear the line, return to the root.
    /// The shell ignores all input until `activate()` is called again.
    pub fn deactivate(&mut self)
        requires
            old(self).wf(),
        ensures
            final(self).wf(),
            final(self).same_setup(old(self)),
            final(self).spec_io() == old(self).spec_io(),
            final(self)@ == deactivated(old(self)@),
    {
        self.state = CliState::Inactive;
        self.current_user = None;
        self.input_buffer.clear();
        self.current_path = Vec::new();
        proof {
            crate::text::lemma_utf8_len_empty();
        }
        assert(self@ =~= deactivated(old(self)@));
    }

    /// A typed character: into the line when it fits (echoed, masked after
    /// the `:` at the login prompt), else a bell.
    fn on_char(&mut self, ch: char) -> (out: Vec<char>)
        requires
            old(self).wf(),
        ensures
            final(self).wf(),
            final(self).same_setup(old(self)),
            (final(self)@, out@) == event_step::<L, C>(
                old(self).spec_tree(),
                old(self).spec_auth(),
                old(self)@,
                InputEvent::Char(ch),
                Err(crate::error::CliError::CommandNotFound),
                None,
            ),
    {
        let mut out: Vec<char> = Vec::new();
        proof {
            crate::text::lemma_utf8_len_push(old(self)@.buffer, ch);
        }
        match self.input_buffer.push(ch) {
            Ok(()) => {
                let e = match self.state {
                    CliState::LoggedOut => {
                        let chars = self.input_buffer.to_chars();
                        let n = count_of(chars.as_slice(), ':');
                        if n == 0 || (n == 1 && ch == ':') {
                            ch
                        } else {
                            '*'
                        }
                    },
                    _ => ch,
                };
                out.push(e);
                assert(self@ =~= with_buffer(old(self)@, old(self)@.buffer.push(ch)));
                assert(out@ =~= seq![echo_char(old(self)@.state, old(self)@.buffer.push(ch), ch)]);
            },
            Err(()) => {
                out.push('\x07');
                assert(self@ =~= old(self)@);
                assert(out@ =~= seq!['\x07']);
            },
        }
        out
    }

    /// Backspace: drop the last character of the line and erase it.
    fn on_backspace(&mut self) -> (out: Vec<char>)
        requires
            old(self).wf(),
        ensures
            final(self).wf(),
            final(self).same_setup(old(self)),
            (final(self)@, out@) == event_step::<L, C>(
                old(self).spec_tree(),
                old(self).spec_auth(),
                old(self)@,
                InputEvent::Backspace,
                Err(crate::error::CliError::CommandNotFound),
                None,
            ),
    {
        let mut out: Vec<char> = Vec::new();
        if !self.input_buffer.is_empty() {
            self.input_buffer.pop();
            push_str(&mut out, "\x08 \x08");
            proof {
                crate::text::lemma_utf8_len_prefix(old(self)@.buffer, old(self)@.buffer.len() - 1);
                assert(old(self)@.buffer.take(old(self)@.buffer.len() - 1) =~= old(self)@.buffer.drop_last());
            }
            assert(self@ =~= with_buffer(old(self)@, old(self)@.buffer.drop_last()));
            assert(out@ =~= "\x08 \x08"@);
        } else {
            assert(self@ =~= old(self)@);
        }
        out
    }

    /// Double escape: clear the line and redraw.
    fn on_clear_line(&mut self) -> (out: Vec<char>)
        requires
            old(self).wf(),
        ensures
            final(self).wf(),
            final(self).same_setup(old(self)),
            (final(self)@, out@) == event_step::<L, C>(
                old(self).spec_tree(),
                old(self).spec_auth(),
                old(self)@,
                InputEvent::DoubleEsc,
                Err(crate::error::CliError::CommandNotFound),
                None,
            ),
    {
        self.input_buffer.clear();
        proof {
            crate::text::lemma_utf8_len_empty();
        }
        assert(self@ =~= with_buffer(old(self)@, Seq::empty()));
        self.redraw()
    }

    /// Up arrow: recall the previous history entry.
    fn on_up(&mut self) -> (out: Vec<char>)
        requires
            old(self).wf(),
        ensures
            final(self).wf(),
            final(self).same_setup(old(self)),
            (final(self)@, out@) == up_step(old(self).spec_tree(), old(self)@),
    {
        match self.history.previous_command() {
            Some(entry) => {
                self.input_buffer = entry;
                let out = self.redraw();
                assert(self@ =~= up_step(old(self).spec_tree(), old(self)@).0);
                out
            },
            None => {
                assert(self@ =~= old(self)@);
                Vec::new()
            },
        }
    }

    /// Down arrow: recall the next history entry; past the newest, an
    /// empty line.
    fn on_down(&mut self) -> (out: Vec<char>)
        requires
            old(self).wf(),
        ensures
            final(self).wf(),
            final(self).same_setup(old(self)),
            (final(self)@, out@) == down_step(old(self).spec_tree(), old(self)@),
    {
        let was_navigating = self.history.is_navigating();
        match self.history.next_command() {
            Some(entry) => {
                self.input_buffer = entry;
                let out = self.redraw();
                assert(self@ =~= down_step(old(self).spec_tree(), old(self)@).0);
                out
            },
            None => {
                if was_navigating {
                    self.input_buffer.clear();
                    proof {
                        crate::text::lemma_utf8_len_empty();
                    }
                    assert(self@ =~= down_step(old(self).spec_tree(), old(self)@).0);
                    self.redraw()
                } else {
                    assert(self@ =~= old(self)@);
                    Vec::new()
                }
            },
        }
    }

    /// An arrow key: move through the history in `direction`.
    fn on_history(&mut self, direction: HistoryDirection) -> (out: Vec<char>)
        requires
            old(self).wf(),
        ensures
            final(self).wf(),
            final(self).same_setup(old(self)),
            (final(self)@, out@) == match direction {
                HistoryDirection::Previous => up_step(old(self).spec_tree(), old(self)@),
                HistoryDirection::Next => down_step(old(self).spec_tree(), old(self)@),
            },
    {
        match direction {
            HistoryDirection::Previous => self.on_up(),
            HistoryDirection::Next => self.on_down(),
        }
    }

    /// Tab: complete the line among the current directory's children.
    fn on_tab(&mut self) -> (out: Vec<char>)
        requires
            old(self).wf(),
        ensures
            final(self).wf(),
            final(self).same_setup(old(self)),
            ordered::<L>() || old(self)@.user is None ==> (final(self)@, out@) == tab_step(old(self).spec_tree(), old(self)@),
    {
        let dir = dir_at_path(self.tree, self.current_path.as_slice());
        let user_ref: Option<&User<L>> = match &self.current_user {
            Some(u) => Some(u),
            None => None,
        };
        assert(ref_level(user_ref) == level_of(self@.user));
        let ghost cs = completion_spec(dir.children@, self@.buffer, level_of(self@.user), 16);
        let result = suggest_completions::<L, 16>(dir, self.input_buffer.as_str(), user_ref);
        let mut out: Vec<char> = Vec::new();
        match result {
            Ok(comp) => {
                if comp.is_complete {
                    self.input_buffer.clear();
                    proof {
                        crate::text::lemma_utf8_len_empty();
                    }
                    match self.input_buffer.push_str(comp.completion.as_str()) {
                        Ok(()) => {
                            push_str(&mut out, "\r");
                            let p = self.prompt();
                            push_chars(&mut out, p.as_slice());
                            push_str(&mut out, self.input_buffer.as_str());
                            proof {
                                assert(Seq::<char>::empty() + comp.completion@ =~= comp.completion@);
                                if ordered::<L>() || old(self)@.user is None {
                                    assert(self@ =~= tab_step(old(self).spec_tree(), old(self)@).0);
                                    assert(out@ =~= tab_step(old(self).spec_tree(), old(self)@).1);
                                }
                            }
                        },
                        Err(()) => {
                            out.push('\x07');
                            proof {
                                if ordered::<L>() || old(self)@.user is None {
                                    assert(self@ =~= tab_step(old(self).spec_tree(), old(self)@).0);
                                    assert(out@ =~= tab_step(old(self).spec_tree(), old(self)@).1);
                                }
                            }
                        },
                    }
                } else if comp.all_matches.len() > 0 {
                    push_str(&mut out, "\r\n");
                    let ghost ms = comp.all_matches@.map_values(|b: BoundedString<64>| b@);
                    let ghost head = out@;
                    let mut i: usize = 0;
                    while i < comp.all_matches.len()
                        invariant
                            i <= comp.all_matches@.len(),
                            ms == comp.all_matches@.map_values(|b: BoundedString<64>| b@),
                            out@ == head + match_list(ms.take(i as int)),
                        decreases comp.all_matches.len() - i,
                    {
                        assert(ms.take(i + 1).drop_last() =~= ms.take(i as int));
                        push_str(&mut out, comp.all_matches[i].as_str());
                        push_str(&mut out, "  ");
                        i = i + 1;
                        assert(out@ =~= head + match_list(ms.take(i as int)));
                    }
                    assert(ms.take(i as int) =~= ms);
                    push_str(&mut out, "\r\n");
                    let p = self.prompt();
                    push_chars(&mut out, p.as_slice());
                    push_str(&mut out, self.input_buffer.as_str());
                    proof {
                        if ordered::<L>() || old(self)@.user is None {
                            let m = cs.unwrap();
                            assert(ms =~= m.matches);
                            assert(self@ =~= tab_step(old(self).spec_tree(), old(self)@).0);
                            assert(out@ =~= tab_step(old(self).spec_tree(), old(self)@).1);
                        }
                    }
                } else {
                    out.push('\x07');
                    proof {
                        if ordered::<L>() || old(self)@.user is None {
                            assert(out@ =~= tab_step(old(self).spec_tree(), old(self)@).1);
                        }
                    }
                }
            },
            Err(_) => {
                out.push('\x07');
                proof {
                    if ordered::<L>() || old(self)@.user is None {
                        assert(out@ =~= tab_step(old(self).spec_tree(), old(self)@).1);
                    }
                }
            },
        }
        out
    }

    /// Run the command line `input` against the tree: move into the
    /// directory it names, or check and run the command it names.
    fn execute_tree_path(&mut self, input: &[char]) -> (r: Result<Response<C>, CliError>)
        requires
            old(self).wf(),
        ensures
            final(self).wf(),
            final(self).same_setup(old(self)),
            final(self)@ == (ShellView { path: final(self)@.path, ..old(self)@ }),
            ordered::<L>() || old(self)@.user is None ==> (reply_result(r), final(self)@.path)
                == tree_outcome::<L, C>(old(self).spec_tree(), old(self)@.user, old(self)@.path, input@, r),
            ordered::<L>() || old(self)@.user is None ==> (tree_dispatch(
                old(self).spec_tree(),
                old(self)@.user,
                old(self)@.path,
                input@,
            ) matches Some((id, args)) ==> old(self).spec_handler().executes(id, args, r)),
    {
        let words = split_nonempty(input, true, ' ');
        let ghost wv = split_pieces(input@, true, ' ');
        if words.len() == 0 {
            return Err(CliError::CommandNotFound);
        }
        let w = &words[0];
        assert(w@ == wv[0]);
        let absolute = w.len() > 0 && w[0] == '/';
        let mut start: Vec<usize> = Vec::new();
        if !absolute {
            let mut k: usize = 0;
            while k < self.current_path.len()
                invariant
                    k <= self.current_path@.len(),
                    start@ == self.current_path@.take(k as int),
                decreases self.current_path.len() - k,
            {
                start.push(self.current_path[k]);
                k = k + 1;
                assert(start@ =~= self.current_path@.take(k as int));
            }
            assert(start@ =~= self.current_path@);
        }
        let segs = split_nonempty(w.as_slice(), false, '/');
        assert(segs_view(segs@) =~= split_pieces(w@, false, '/'));
        let lvl: Option<L> = match &self.current_user {
            Some(u) => Some(u.access_level),
            None => None,
        };
        assert(lvl == level_of(self@.user));
        let resolved = resolve_segments(self.tree, lvl, start, &segs);
        match resolved {
            Err(e) => Err(e),
            Ok((None, wp)) => {
                self.current_path = wp;
                let resp = Response::success("").without_history();
                proof {
                    reveal_strlit("");
                    crate::text::lemma_utf8_len_empty();
                    assert(""@ =~= Seq::<char>::empty());
                    assert(resp.message@ =~= Seq::<char>::empty());
                    assert(reply_of(resp) == nav_reply());
                }
                Ok(resp)
            },
            Ok((Some(cmd), _)) => {
                let nargs = words.len() - 1;
                if !level_allows(lvl, cmd.access_level) {
                    Err(CliError::InvalidPath)
                } else if nargs < cmd.min_args || nargs > cmd.max_args {
                    Err(
                        CliError::InvalidArgumentCount {
                            expected_min: cmd.min_args,
                            expected_max: cmd.max_args,
                            received: nargs,
                        },
                    )
                } else {
                    match cmd.kind {
                        CommandKind::Sync => {
                            let mut owned: Vec<String> = Vec::new();
                            let mut k: usize = 1;
                            while k < words.len()
                                invariant
                                    1 <= k <= words@.len(),
                                    owned@.len() == k - 1,
                                    forall|u: int| 0 <= u < owned@.len() ==> #[trigger] owned@[u]@ == words@[u + 1]@,
                                decreases words.len() - k,
                            {
                                owned.push(chars_to_string(words[k].as_slice()));
                                k = k + 1;
                            }
                            let mut args: Vec<&str> = Vec::new();
                            let mut j: usize = 0;
                            while j < owned.len()
                                invariant
                                    j <= owned@.len(),
                                    args@.len() == j,
                                    forall|u: int| 0 <= u < j ==> #[trigger] args@[u]@ == owned@[u]@,
                                decreases owned.len() - j,
                            {
                                args.push(owned[j].as_str());
                                j = j + 1;
                            }
                            // The handler gets the command's id and the words after the path.
                            assert(args@.len() == wv.len() - 1);
                            assert(forall|u: int| 0 <= u < args@.len() ==> #[trigger] args@[u]@ == wv[u + 1]);
                            let r = self.handler.execute_sync(cmd.id, args.as_slice());
                            assert(arg_texts(args@) =~= wv.drop_first());
                            r
                        },
                        CommandKind::Async => Err(CliError::AsyncInSyncContext),
                    }
                }
            },
        }
    }

    /// A command line through the tree, its reply and the prompt.
    fn on_tree(&mut self, input: &[char]) -> (r: (Vec<char>, Ghost<Result<Response<C>, CliError>>))
        requires
            old(self).wf(),
        ensures
            final(self).wf(),
            final(self).same_setup(old(self)),
            ordered::<L>() || old(self)@.user is None ==> (final(self)@, r.0@) == tree_step::<L, C>(
                old(self).spec_tree(),
                old(self)@,
                input@,
                r.1@,
            ),
            ordered::<L>() || old(self)@.user is None ==> (tree_dispatch(
                old(self).spec_tree(),
                old(self)@.user,
                old(self)@.path,
                input@,
            ) matches Some((id, args)) ==> old(self).spec_handler().executes(id, args, r.1@)),
    {
        let res = self.execute_tree_path(input);
        let ghost hr = res;
        let ghost v1 = self@;
        let mut out: Vec<char> = Vec::new();
        match res {
            Ok(resp) => {
                if !resp.inline_message {
                    push_str(&mut out, "\r\n");
                }
                push_reply(&resp, &mut out);
                if !resp.exclude_from_history {
                    let line = chars_to_string(input);
                    self.history.add(line.as_str());
                }
                if resp.show_prompt {
                    let p = self.prompt();
                    push_chars(&mut out, p.as_slice());
                }
                proof {
                    if ordered::<L>() || old(self)@.user is None {
                        let v2 = if reply_of(resp).keep {
                            with_line_recorded(v1, input@)
                        } else {
                            v1
                        };
                        assert(self@ =~= v2);
                        assert(self@ =~= tree_step::<L, C>(old(self).spec_tree(), old(self)@, input@, hr).0);
                        assert(out@ =~= tree_step::<L, C>(old(self).spec_tree(), old(self)@, input@, hr).1);
                    }
                }
            },
            Err(e) => {
                push_str(&mut out, "\r\n");
                push_str(&mut out, "Error: ");
                let m = e.report_chars();
                push_chars(&mut out, m.as_slice());
                push_str(&mut out, "\r\n");
                let line = chars_to_string(input);
                self.history.add(line.as_str());
                let p = self.prompt();
                push_chars(&mut out, p.as_slice());
                proof {
                    if ordered::<L>() || old(self)@.user is None {
                        assert(self@ =~= with_line_recorded(v1, input@));
                        assert(self@ =~= tree_step::<L, C>(old(self).spec_tree(), old(self)@, input@, hr).0);
                        assert(out@ =~= tree_step::<L, C>(old(self).spec_tree(), old(self)@, input@, hr).1);
                    }
                }
            },
        }
        (out, Ghost(hr))
    }

    /// A submitted line while logged in: the global commands (`?`, `ls`,
    /// `clear`, and `logout` with authentication), else the tree.
    fn on_line(&mut self, input: &[char]) -> (r: (Vec<char>, Ghost<Result<Response<C>, CliError>>))
        requires
            old(self).wf(),
        ensures
            final(self).wf(),
            final(self).same_setup(old(self)),
            ordered::<L>() || old(self)@.user is None || !line_compares_levels(old(self).spec_auth(), input@)
                ==> (final(self)@, r.0@) == line_step::<L, C>(
                old(self).spec_tree(),
                old(self).spec_auth(),
                old(self)@,
                input@,
                r.1@,
            ),
            ordered::<L>() || old(self)@.user is None ==> (line_dispatch(
                old(self).spec_tree(),
                old(self).spec_auth(),
                old(self)@,
                input@,
            ) matches Some((id, args)) ==> old(self).spec_handler().executes(id, args, r.1@)),
    {
        let ghost none: Result<Response<C>, CliError> = Err(CliError::CommandNotFound);
        let t = trimmed(input);
        let mut out: Vec<char> = Vec::new();
        if t.len() == 0 {
            push_str(&mut out, "\r\n");
            let p = self.prompt();
            push_chars(&mut out, p.as_slice());
            assert(out@ =~= line_step::<L, C>(self.spec_tree(), self.spec_auth(), self@, input@, none).1);
            return (out, Ghost(none));
        }
        if chars_eq_str(t.as_slice(), "?") {
            push_str(&mut out, "\r\n");
            push_str(&mut out, "Global commands:\r\n");
            push_str(&mut out, "  ?         - Show this help\r\n");
            push_str(&mut out, "  ls        - List directory contents\r\n");
            if self.credential_provider.is_some() {
                push_str(&mut out, "  logout    - End session\r\n");
            }
            push_str(&mut out, "  clear     - Clear screen\r\n");
            push_str(&mut out, "  ESC ESC   - Clear input buffer\r\n");
            let p = self.prompt();
            push_chars(&mut out, p.as_slice());
            assert(out@ =~= line_step::<L, C>(self.spec_tree(), self.spec_auth(), self@, input@, none).1);
            (out, Ghost(none))
        } else if chars_eq_str(t.as_slice(), "ls") {
            proof {
                reveal_strlit("ls");
                reveal_strlit("?");
                reveal_strlit("clear");
                reveal_strlit("logout");
                assert(line_compares_levels(self.spec_auth(), input@));
            }
            push_str(&mut out, "\r\n");
            let dir = dir_at_path(self.tree, self.current_path.as_slice());
            let lvl: Option<L> = match &self.current_user {
                Some(u) => Some(u.access_level),
                None => None,
            };
            let listing = ls_chars(dir.children, lvl);
            push_chars(&mut out, listing.as_slice());
            let p = self.prompt();
            push_chars(&mut out, p.as_slice());
            proof {
                if ordered::<L>() || old(self)@.user is None {
                    assert(out@ =~= line_step::<L, C>(self.spec_tree(), self.spec_auth(), self@, input@, none).1);
                }
            }
            (out, Ghost(none))
        } else if chars_eq_str(t.as_slice(), "clear") {
            push_str(&mut out, "\x1b[2J\x1b[H");
            let p = self.prompt();
            push_chars(&mut out, p.as_slice());
            assert(out@ =~= line_step::<L, C>(self.spec_tree(), self.spec_auth(), self@, input@, none).1);
            (out, Ghost(none))
        } else if self.credential_provider.is_some() && chars_eq_str(t.as_slice(), "logout") {
            push_str(&mut out, "\r\n");
            self.current_user = None;
            self.state = CliState::LoggedOut;
            self.current_path = Vec::new();
            push_str(&mut out, C::MSG_LOGOUT);
            push_str(&mut out, C::MSG_LOGIN_PROMPT);
            assert(self@ =~= line_step::<L, C>(old(self).spec_tree(), old(self).spec_auth(), old(self)@, input@, none).0);
            assert(out@ =~= line_step::<L, C>(old(self).spec_tree(), old(self).spec_auth(), old(self)@, input@, none).1);
            (out, Ghost(none))
        } else {
            self.on_tree(input)
        }
    }

    /// A submitted line at the login prompt: `name:password`, checked by
    /// the credential provider.
    fn on_login(&mut self, input: &[char]) -> (r: (Vec<char>, Ghost<Option<User<L>>>))
        requires
            old(self).wf(),
            old(self)@.state == CliState::LoggedOut,
        ensures
            final(self).wf(),
            final(self).same_setup(old(self)),
            (final(self)@, r.0@) == login_step::<L, C>(old(self).spec_tree(), old(self)@, input@, r.1@),
            login_parts(input@) matches Some((name, password)) ==> login_answer(
                old(self).spec_provider().unwrap(),
                name,
                password,
                r.1@,
            ),
    {
        let mut out: Vec<char> = Vec::new();
        push_str(&mut out, "\r\n");
        let n = count_of(input, ':');
        if n == 0 {
            push_str(&mut out, C::MSG_INVALID_LOGIN_FORMAT);
            push_str(&mut out, C::MSG_LOGIN_PROMPT);
            assert(out@ =~= login_step::<L, C>(self.spec_tree(), self@, input@, None).1);
            return (out, Ghost(None));
        }
        proof {
            lemma_first_index_found(input@, ':');
        }
        let (name, password) = split_login(input);
        let found: Option<User<L>> = match self.credential_provider {
            Some(provider) => {
                let fr = provider.find_user(name.as_str());
                match fr {
                    Ok(Some(user)) => {
                        if provider.verify_password(&user, password.as_str()) {
                            Some(user)
                        } else {
                            None
                        }
                    },
                    _ => {
                        assert(provider.finds(name@, fr) && !(fr matches Ok(Some(u))));
                        None
                    },
                }
            },
            None => None,
        };
        let ghost lu = found;
        match found {
            Some(user) => {
                self.current_user = Some(user);
                self.state = CliState::LoggedIn;
                push_str(&mut out, C::MSG_LOGIN_SUCCESS);
                let p = self.prompt();
                push_chars(&mut out, p.as_slice());
                assert(self@ =~= login_step::<L, C>(old(self).spec_tree(), old(self)@, input@, lu).0);
                assert(out@ =~= login_step::<L, C>(old(self).spec_tree(), old(self)@, input@, lu).1);
            },
            None => {
                push_str(&mut out, C::MSG_LOGIN_FAILED);
                push_str(&mut out, C::MSG_LOGIN_PROMPT);
                assert(out@ =~= login_step::<L, C>(old(self).spec_tree(), old(self)@, input@, lu).1);
            },
        }
        (out, Ghost(lu))
    }

    /// Enter: submit the line to the login or to the command processing.
    fn on_enter(&mut self) -> (r: (Vec<char>, Ghost<Result<Response<C>, CliError>>, Ghost<Option<User<L>>>))
        requires
            old(self).wf(),
            old(self)@.state != CliState::Inactive,
        ensures
            final(self).wf(),
            final(self).same_setup(old(self)),
            ordered::<L>() || old(self)@.user is None || !(old(self)@.state == CliState::LoggedIn
                && line_compares_levels(old(self).spec_auth(), old(self)@.buffer)) ==> (final(self)@, r.0@)
                == event_step::<L, C>(
                old(self).spec_tree(),
                old(self).spec_auth(),
                old(self)@,
                InputEvent::Enter,
                r.1@,
                r.2@,
            ),
            (ordered::<L>() || old(self)@.user is None) && old(self)@.state == CliState::LoggedIn ==> (line_dispatch(
                old(self).spec_tree(),
                old(self).spec_auth(),
                old(self)@,
                old(self)@.buffer,
            ) matches Some((id, args)) ==> old(self).spec_handler().executes(id, args, r.1@)),
            old(self)@.state == CliState::LoggedOut ==> (login_parts(old(self)@.buffer) matches Some((name, password))
                ==> login_answer(old(self).spec_provider().unwrap(), name, password, r.2@)),
    {
        let input = self.input_buffer.to_chars();
        self.input_buffer.clear();
        proof {
            crate::text::lemma_utf8_len_empty();
        }
        assert(self@ =~= with_buffer(old(self)@, Seq::empty()));
        match self.state {
            CliState::LoggedOut => {
                let (out, lu) = self.on_login(input.as_slice());
                (out, Ghost(Err(CliError::CommandNotFound)), lu)
            },
            _ => {
                let (out, hr) = self.on_line(input.as_slice());
                (out, hr, Ghost(None))
            },
        }
    }

    /// Process one character and return the text it shows instead of
    /// writing it (see `step`). An inactive shell ignores it.
    pub fn feed(&mut self, c: char) -> (out: String)
        requires
            old(self).wf(),
            !step_overflows(old(self).spec_auth(), old(self)@, c),
        ensures
            final(self).wf(),
            final(self).same_setup(old(self)),
            ordered::<L>() || old(self)@.user is None || !step_compares_levels(old(self).spec_auth(), old(self)@, c)
                ==> exists|hr: Result<Response<C>, CliError>, lu: Option<User<L>>|
                {
                    &&& #[trigger] step::<L, C>(old(self).spec_tree(), old(self).spec_auth(), old(self)@, c, hr, lu)
                        == (final(self)@, out@)
                    &&& step_dispatch(old(self).spec_tree(), old(self).spec_auth(), old(self)@, c) matches Some((id, args))
                        ==> old(self).spec_handler().executes(id, args, hr)
                    &&& step_login(old(self)@, c) matches Some((name, password)) ==> login_answer(
                        old(self).spec_provider().unwrap(),
                        name,
                        password,
                        lu,
                    )
                },
    {
        let ghost none: Result<Response<C>, CliError> = Err(CliError::CommandNotFound);
        match self.state {
            CliState::Inactive => {
                let empty: Vec<char> = Vec::new();
                let s = chars_to_string(empty.as_slice());
                assert(step::<L, C>(self.spec_tree(), self.spec_auth(), self@, c, none, None) == (self@, s@));
                return s;
            },
            _ => {},
        }
        let ev = self.decoder.decode_char(c);
        let ghost mut hr: Result<Response<C>, CliError> = none;
        let ghost mut lu: Option<User<L>> = None;
        let v: Vec<char> = match ev {
            InputEvent::NoEvent => Vec::new(),
            InputEvent::Char(ch) => self.on_char(ch),
            InputEvent::Backspace => self.on_backspace(),
            InputEvent::DoubleEsc => self.on_clear_line(),
            InputEvent::Enter => {
                let (o, h, l) = self.on_enter();
                proof {
                    hr = h@;
                    lu = l@;
                }
                o
            },
            InputEvent::Tab => self.on_tab(),
            InputEvent::UpArrow => self.on_history(HistoryDirection::Previous),
            InputEvent::DownArrow => self.on_history(HistoryDirection::Next),
        };
        let s = chars_to_string(v.as_slice());
        proof {
            if ordered::<L>() || old(self)@.user is None || !step_compares_levels(old(self).spec_auth(), old(self)@, c) {
                assert(step::<L, C>(old(self).spec_tree(), old(self).spec_auth(), old(self)@, c, hr, lu) == (self@, s@));
            }
        }
        s
    }

    /// Whether processing `c` now keeps the shell running: false exactly
    /// when `c` submits a command line with more words or path segments
    /// than the shell handles.
    pub fn accepts(&self, c: char) -> (r: bool)
        ensures
            r == !step_overflows(self.spec_auth(), self@, c),
    {
        let submits = match self.state {
            CliState::LoggedIn => match self.decoder.state() {
                InputState::Normal => c == '\n' || c == '\r',
                _ => false,
            },
            _ => false,
        };
        if !submits {
            return true;
        }
        let input = self.input_buffer.to_chars();
        !overflowing_line(self.credential_provider.is_some(), input.as_slice())
    }

    /// Whether `poll()` may be called now: false exactly when a line that
    /// exceeds what the shell handles waits to be submitted.
    pub fn can_poll(&self) -> (r: bool)
        ensures
            r == forall|c: char| !step_overflows(self.spec_auth(), self@, c),
    {
        let pending = match self.state {
            CliState::LoggedIn => match self.decoder.state() {
                InputState::Normal => {
                    let input = self.input_buffer.to_chars();
                    overflowing_line(self.credential_provider.is_some(), input.as_slice())
                },
                _ => false,
            },
            _ => false,
        };
        proof {
            if pending {
                assert(step_overflows(self.spec_auth(), self@, '\n'));
            }
        }
        !pending
    }

    /// Process a single character of input and write what it shows.
    ///
    /// Returns `Err` when writing fails (the state has then advanced).
    pub fn process_char(&mut self, c: char) -> (r: Result<(), IO::Error>)
        requires
            old(self).wf(),
            !step_overflows(old(self).spec_auth(), old(self)@, c),
        ensures
            final(self).wf(),
            final(self).same_setup(old(self)),
            ordered::<L>() || old(self)@.user is None || !step_compares_levels(old(self).spec_auth(), old(self)@, c)
                ==> exists|hr: Result<Response<C>, CliError>, lu: Option<User<L>>|
                {
                    &&& (#[trigger] step::<L, C>(old(self).spec_tree(), old(self).spec_auth(), old(self)@, c, hr, lu)).0
                        == final(self)@
                    &&& step_dispatch(old(self).spec_tree(), old(self).spec_auth(), old(self)@, c) matches Some((id, args))
                        ==> old(self).spec_handler().executes(id, args, hr)
                    &&& step_login(old(self)@, c) matches Some((name, password)) ==> login_answer(
                        old(self).spec_provider().unwrap(),
                        name,
                        password,
                        lu,
                    )
                },
    {
        let out = self.feed(c);
        self.io.write_str(out.as_str())
    }

    /// Read a character from the I/O if one is available and process it.
    pub fn poll(&mut self) -> (r: Result<(), IO::Error>)
        requires
            old(self).wf(),
            forall|c: char| !step_overflows(old(self).spec_auth(), old(self)@, c),
        ensures
            final(self).wf(),
            final(self).same_setup(old(self)),
            ordered::<L>() || old(self)@.user is None ==> final(self)@ == old(self)@ || exists|
                c: char,
                hr: Result<Response<C>, CliError>,
                lu: Option<User<L>>,
            |
                {
                    &&& (#[trigger] step::<L, C>(old(self).spec_tree(), old(self).spec_auth(), old(self)@, c, hr, lu)).0
                        == final(self)@
                    &&& step_dispatch(old(self).spec_tree(), old(self).spec_auth(), old(self)@, c) matches Some((id, args))
                        ==> old(self).spec_handler().executes(id, args, hr)
                    &&& step_login(old(self)@, c) matches Some((name, password)) ==> login_answer(
                        old(self).spec_provider().unwrap(),
                        name,
                        password,
                        lu,
                    )
                },
    {
        match self.io.get_char() {
            Ok(Some(c)) => self.process_char(c),
            Ok(None) => Ok(()),
            Err(e) => Err(e),
        }
    }
}

/// Splits a login line at its first `:` into name and password.
fn split_login(input: &[char]) -> (r: (String, String))
    ensures
        ({
            let i = first_index(input@, ':', 0);
            i < input@.len() ==> r.0@ == input@.take(i) && r.1@ == input@.skip(i + 1)
        }),
{
    let mut i: usize = 0;
    while i < input.len() && input[i] != ':'
        invariant
            i <= input@.len(),
            first_index(input@, ':', 0) == first_index(input@, ':', i as int),
        decreases input.len() - i,
    {
        i = i + 1;
    }
    let mut name: Vec<char> = Vec::new();
    let mut k: usize = 0;
    while k < i
        invariant
            k <= i <= input@.len(),
            name@ == input@.take(k as int),
        decreases i - k,
    {
        name.push(input[k]);
        k = k + 1;
        assert(name@ =~= input@.take(k as int));
    }
    let mut pw: Vec<char> = Vec::new();
    if i < input.len() {
        let mut j: usize = i + 1;
        while j < input.len()
            invariant
                i < input@.len(),
                i + 1 <= j <= input@.len(),
                pw@ == input@.subrange(i + 1, j as int),
            decreases input.len() - j,
        {
            pw.push(input[j]);
            j = j + 1;
            assert(pw@ =~= input@.subrange(i + 1, j as int));
        }
        assert(pw@ =~= input@.skip(i + 1));
    }
    (chars_to_string(name.as_slice()), chars_to_string(pw.as_slice()))
}

/// Number of segments of `segs` other than `.`.
fn count_real_segments(segs: &Vec<Vec<char>>) -> (n: usize)
    ensures
        n == real_segments(segs_view(segs@)),
{
    let ghost sv = segs_view(segs@);
    let mut n: usize = 0;
    let mut i: usize = 0;
    while i < segs.len()
        invariant
            i <= segs@.len(),
            sv == segs_view(segs@),
            n == real_segments(sv.take(i as int)),
            n <= i,
        decreases segs.len() - i,
    {
        assert(sv.take(i + 1).drop_last() =~= sv.take(i as int));
        assert(sv.take(i + 1).last() == segs@[i as int]@);
        if !chars_eq_str(segs[i].as_slice(), ".") {
            n = n + 1;
        }
        i = i + 1;
    }
    assert(sv.take(i as int) =~= sv);
    n
}

/// Whether submitting `input` while logged in exceeds what the shell
/// handles (see `line_overflows`).
fn overflowing_line(auth: bool, input: &[char]) -> (r: bool)
    ensures
        r == line_overflows(auth, input@),
{
    let t = trimmed(input);
    if t.len() == 0 || chars_eq_str(t.as_slice(), "?") || chars_eq_str(t.as_slice(), "ls")
        || chars_eq_str(t.as_slice(), "clear") || (auth && chars_eq_str(t.as_slice(), "logout")) {
        return false;
    }
    let words = split_nonempty(input, true, ' ');
    if words.len() > 17 {
        return true;
    }
    if words.len() == 0 {
        return false;
    }
    let segs = split_nonempty(words[0].as_slice(), false, '/');
    assert(segs_view(segs@) =~= split_pieces(words@[0]@, false, '/'));
    count_real_segments(&segs) > 8
}

} // verus!
