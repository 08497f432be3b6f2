//! The abstract shell: its observable state and, for each input character,
//! the next state and the text written to the terminal.

use vstd::prelude::*;
use crate::auth::{allows, level_below, level_of, AccessLevel, User};
use crate::config::ShellConfig;
use crate::error::{report_text, CliError};
use crate::response::Response;
use crate::shell::decoder::{decode_spec, InputEvent, InputState};
use crate::shell::history::{added_entries, added_position, next_position, previous_position};
use crate::shell::CliState;
use crate::text::{char_width, count_char, split_pieces, trim, utf8_len};
use crate::tree::completion::completion_spec;
use crate::tree::{CommandKind, CommandMeta, Directory, Node};

verus! {

/// Capacity of the input line, in bytes.
pub const INPUT_CAPACITY: usize = 128;

/// Capacity of the prompt, in bytes.
pub const PROMPT_CAPACITY: usize = 128;

/// Deepest directory the shell can stand in.
pub const PATH_CAPACITY: usize = 8;

/// Number of command lines kept in the history.
pub const HISTORY_CAPACITY: usize = 10;

/// Most words (command path and arguments) a command line may hold.
pub const MAX_WORDS: usize = 17;

/// Most matches listed by tab completion.
pub const MAX_MATCHES: usize = 16;

/// The observable state of a shell.
pub struct ShellView<L: AccessLevel> {
    /// Activation and login state
    pub state: CliState,
    /// The logged-in user, if any
    pub user: Option<User<L>>,
    /// The line being edited
    pub buffer: Seq<char>,
    /// Current directory, as child indices from the root
    pub path: Seq<usize>,
    /// Escape-sequence decoder state
    pub decoder: InputState,
    /// Command history, oldest first
    pub history: Seq<Seq<char>>,
    /// History navigation position
    pub position: Option<nat>,
}

/// How the shell shows a command's response.
pub struct Reply {
    /// Message text
    pub message: Seq<char>,
    /// On the same line as the command
    pub inline: bool,
    /// Blank line before
    pub prefix: bool,
    /// Every line indented by two spaces
    pub indent: bool,
    /// Newline after
    pub postfix: bool,
    /// Prompt after
    pub prompt: bool,
    /// Command line goes into the history
    pub keep: bool,
}

/// The reply a response asks for.
pub open spec fn reply_of<C: ShellConfig>(r: Response<C>) -> Reply {
    Reply {
        message: r.message@,
        inline: r.inline_message,
        prefix: r.prefix_newline,
        indent: r.indent_message,
        postfix: r.postfix_newline,
        prompt: r.show_prompt,
        keep: !r.exclude_from_history,
    }
}

/// The reply to moving into a directory: an empty line, kept out of the
/// history.
pub open spec fn nav_reply() -> Reply {
    Reply {
        message: Seq::empty(),
        inline: false,
        prefix: false,
        indent: false,
        postfix: true,
        prompt: true,
        keep: false,
    }
}

// ---------------------------------------------------------------------
// The command tree
// ---------------------------------------------------------------------

/// The `i`-th child of `d`, when it is a directory.
pub open spec fn child_dir<L: AccessLevel>(d: Directory<L>, i: usize) -> Option<Directory<L>> {
    if i < d.children@.len() {
        match d.children@[i as int] {
            Node::Directory(sub) => Some(*sub),
            Node::Command(_) => None,
        }
    } else {
        None
    }
}

/// The directory reached from `root` by following the child indices of
/// `path`, if each designates a directory.
pub open spec fn dir_at<L: AccessLevel>(root: Directory<L>, path: Seq<usize>) -> Option<Directory<L>>
    decreases path.len(),
{
    if path.len() == 0 {
        Some(root)
    } else {
        match dir_at(root, path.drop_last()) {
            Some(d) => child_dir(d, path.last()),
            None => None,
        }
    }
}

/// The names of the directories along `path` (the root's excluded).
pub open spec fn path_names<L: AccessLevel>(root: Directory<L>, path: Seq<usize>) -> Seq<Seq<char>>
    decreases path.len(),
{
    if path.len() == 0 {
        Seq::empty()
    } else {
        let prev = path_names(root, path.drop_last());
        match dir_at(root, path) {
            Some(d) => prev.push(d.name@),
            None => prev,
        }
    }
}

/// `names` joined by `/`.
pub open spec fn join_names(names: Seq<Seq<char>>) -> Seq<char>
    decreases names.len(),
{
    if names.len() == 0 {
        Seq::empty()
    } else if names.len() == 1 {
        names[0]
    } else {
        join_names(names.drop_last()) + "/"@ + names.last()
    }
}

/// Index of the first child from `k` on that is named `name` and that a
/// user at `lvl` may reach (among the positions a slice index can take).
pub open spec fn find_from<L: AccessLevel>(children: Seq<Node<L>>, name: Seq<char>, lvl: Option<L>, k: int) -> Option<int>
    decreases children.len() - k,
{
    if k < 0 || k >= children.len() || k > usize::MAX {
        None
    } else if allows(lvl, children[k].spec_level()) && children[k].spec_name() == name {
        Some(k)
    } else {
        find_from(children, name, lvl, k + 1)
    }
}

/// Follows the path segments `segs` from the directory at `wp` for a user
/// at `lvl`: `.` stays, `..` goes up (not above the root), any other
/// segment enters the first reachable child of that name. A command ends
/// the walk (remaining segments are ignored); otherwise the walk ends in
/// a directory. The result is the command found (`None` for a directory)
/// and the directory path reached.
pub open spec fn resolve<L: AccessLevel>(root: Directory<L>, lvl: Option<L>, wp: Seq<usize>, segs: Seq<Seq<char>>) -> Result<(Option<CommandMeta<L>>, Seq<usize>), CliError>
    decreases segs.len(),
{
    if segs.len() == 0 {
        Ok((None, wp))
    } else {
        let seg = segs[0];
        let rest = segs.drop_first();
        if seg == "."@ {
            resolve(root, lvl, wp, rest)
        } else if seg == ".."@ {
            resolve(
                root,
                lvl,
                if wp.len() > 0 {
                    wp.drop_last()
                } else {
                    wp
                },
                rest,
            )
        } else {
            match dir_at(root, wp) {
                None => Err(CliError::InvalidPath),
                Some(d) => match find_from(d.children@, seg, lvl, 0) {
                    None => Err(CliError::CommandNotFound),
                    Some(i) => match d.children@[i] {
                        Node::Command(cmd) => Ok((Some(*cmd), wp)),
                        Node::Directory(_) => if wp.len() >= PATH_CAPACITY {
                            Err(CliError::PathTooDeep)
                        } else {
                            resolve(root, lvl, wp.push(i as usize), rest)
                        },
                    },
                },
            }
        }
    }
}

/// Number of the segments of `word` (split at `/`, empty pieces dropped)
/// that are not `.`.
pub open spec fn real_segments(segs: Seq<Seq<char>>) -> nat
    decreases segs.len(),
{
    if segs.len() == 0 {
        0
    } else {
        real_segments(segs.drop_last()) + if segs.last() == "."@ {
            0nat
        } else {
            1nat
        }
    }
}

/// The outcome of running the command line `input` against the tree from
/// directory `path`, given what the command handler answers (`hr`, used
/// only when a synchronous command runs), and the directory path after.
pub open spec fn tree_outcome<L: AccessLevel, C: ShellConfig>(
    root: Directory<L>,
    user: Option<User<L>>,
    path: Seq<usize>,
    input: Seq<char>,
    hr: Result<Response<C>, CliError>,
) -> (Result<Reply, CliError>, Seq<usize>) {
    let words = split_pieces(input, true, ' ');
    if words.len() == 0 {
        (Err(CliError::CommandNotFound), path)
    } else {
        let w = words[0];
        let nargs = (words.len() - 1) as usize;
        let start = if w.len() > 0 && w[0] == '/' {
            Seq::empty()
        } else {
            path
        };
        match resolve(root, level_of(user), start, split_pieces(w, false, '/')) {
            Err(e) => (Err(e), path),
            Ok((None, wp)) => (Ok(nav_reply()), wp),
            Ok((Some(cmd), _)) => (
                if user matches Some(u) && level_below(u.access_level, cmd.access_level) {
                    Err(CliError::InvalidPath)
                } else if nargs < cmd.min_args || nargs > cmd.max_args {
                    Err(
                        CliError::InvalidArgumentCount {
                            expected_min: cmd.min_args,
                            expected_max: cmd.max_args,
                            received: nargs,
                        },
                    )
                } else {
                    match cmd.kind {
                        CommandKind::Sync => match hr {
                            Ok(r) => Ok(reply_of(r)),
                            Err(e) => Err(e),
                        },
                        CommandKind::Async => Err(CliError::AsyncInSyncContext),
                    }
                },
                path,
            ),
        }
    }
}

/// The call that running the command line `input` from directory `path`
/// makes to the command handler: the command's id and the words after
/// the path, when the line names a synchronous command that the user may
/// run and that accepts that many arguments; `None` when the handler is
/// not called.
pub open spec fn tree_dispatch<L: AccessLevel>(
    root: Directory<L>,
    user: Option<User<L>>,
    path: Seq<usize>,
    input: Seq<char>,
) -> Option<(Seq<char>, Seq<Seq<char>>)> {
    let words = split_pieces(input, true, ' ');
    if words.len() == 0 {
        None
    } else {
        let w = words[0];
        let nargs = (words.len() - 1) as usize;
        let start = if w.len() > 0 && w[0] == '/' {
            Seq::empty()
        } else {
            path
        };
        match resolve(root, level_of(user), start, split_pieces(w, false, '/')) {
            Ok((Some(cmd), _)) => if !(user matches Some(u) && level_below(u.access_level, cmd.access_level))
                && cmd.min_args <= nargs <= cmd.max_args && cmd.kind is Sync {
                Some((cmd.id@, words.drop_first()))
            } else {
                None
            },
            _ => None,
        }
    }
}

// ---------------------------------------------------------------------
// Output text
// ---------------------------------------------------------------------

/// `acc` with `s` appended when the result fits the prompt, else `acc`.
pub open spec fn bounded_append(acc: Seq<char>, s: Seq<char>) -> Seq<char> {
    if utf8_len(acc) + utf8_len(s) <= PROMPT_CAPACITY {
        acc + s
    } else {
        acc
    }
}

/// The prompt `username@/dir/sub> ` (no name when nobody is logged in);
/// each part is left out when it would overflow the prompt, the path
/// also when the joined names exceed the prompt's capacity.
pub open spec fn prompt_text<L: AccessLevel>(user: Option<User<L>>, root: Directory<L>, path: Seq<usize>) -> Seq<char> {
    let p0 = match user {
        Some(u) => bounded_append(Seq::empty(), u.username@),
        None => Seq::empty(),
    };
    let p1 = bounded_append(p0, "@"@);
    let p2 = bounded_append(p1, "/"@);
    let j = join_names(path_names(root, path));
    let p3 = if path.len() > 0 && utf8_len(j) <= PROMPT_CAPACITY {
        bounded_append(p2, j)
    } else {
        p2
    };
    bounded_append(p3, "> "@)
}

/// The prompt of the shell in view `v`.
pub open spec fn prompt_of<L: AccessLevel>(root: Directory<L>, v: ShellView<L>) -> Seq<char> {
    prompt_text(v.user, root, v.path)
}

/// Clear the line and redraw prompt and buffer.
pub open spec fn redraw<L: AccessLevel>(root: Directory<L>, v: ShellView<L>) -> Seq<char> {
    "\r\x1b[K"@ + prompt_of(root, v) + v.buffer
}

/// The `?` listing.
pub open spec fn help_text(auth: bool) -> Seq<char> {
    "Global commands:\r\n"@ + "  ?         - Show this help\r\n"@
        + "  ls        - List directory contents\r\n"@ + if auth {
        "  logout    - End session\r\n"@
    } else {
        Seq::empty()
    } + "  clear     - Clear screen\r\n"@ + "  ESC ESC   - Clear input buffer\r\n"@
}

/// One line of the `ls` listing.
pub open spec fn ls_entry<L: AccessLevel>(n: Node<L>) -> Seq<char> {
    match n {
        Node::Command(cmd) => "  "@ + cmd.name@ + "  - "@ + cmd.description@ + "\r\n"@,
        Node::Directory(dir) => "  "@ + dir.name@ + "/  - Directory\r\n"@,
    }
}

/// The `ls` listing of `children` for a user at `lvl`.
pub open spec fn ls_text<L: AccessLevel>(children: Seq<Node<L>>, lvl: Option<L>) -> Seq<char>
    decreases children.len(),
{
    if children.len() == 0 {
        Seq::empty()
    } else {
        let prev = ls_text(children.drop_last(), lvl);
        if allows(lvl, children.last().spec_level()) {
            prev + ls_entry(children.last())
        } else {
            prev
        }
    }
}

/// `s` with every line break `\r\n` followed by two spaces.
pub open spec fn indent_breaks(s: Seq<char>) -> Seq<char>
    decreases s.len(),
{
    if s.len() == 0 {
        Seq::empty()
    } else if s.len() >= 2 && s[0] == '\r' && s[1] == '\n' {
        "\r\n  "@ + indent_breaks(s.skip(2))
    } else {
        seq![s[0]] + indent_breaks(s.skip(1))
    }
}

/// A reply's text: optional blank line, the message (each line indented
/// by two spaces when asked), optional newline.
pub open spec fn reply_text(r: Reply) -> Seq<char> {
    (if r.prefix {
        "\r\n"@
    } else {
        Seq::empty()
    }) + (if r.indent {
        "  "@ + indent_breaks(r.message)
    } else {
        r.message
    }) + (if r.postfix {
        "\r\n"@
    } else {
        Seq::empty()
    })
}

/// Completion matches, each followed by two spaces.
pub open spec fn match_list(ms: Seq<Seq<char>>) -> Seq<char>
    decreases ms.len(),
{
    if ms.len() == 0 {
        Seq::empty()
    } else {
        match_list(ms.drop_last()) + ms.last() + "  "@
    }
}

/// The character echoed for `ch`, just added to make `buffer`: at the
/// login prompt everything after the first `:` shows as `*`.
pub open spec fn echo_char(state: CliState, buffer: Seq<char>, ch: char) -> char {
    if state == CliState::LoggedOut {
        let n = count_char(buffer, ':');
        if n == 0 || (n == 1 && ch == ':') {
            ch
        } else {
            '*'
        }
    } else {
        ch
    }
}

// ---------------------------------------------------------------------
// Steps
// ---------------------------------------------------------------------

/// `v` with another line buffer.
pub open spec fn with_buffer<L: AccessLevel>(v: ShellView<L>, b: Seq<char>) -> ShellView<L> {
    ShellView { buffer: b, ..v }
}

/// `v` after the line `input` went through the history.
pub open spec fn with_line_recorded<L: AccessLevel>(v: ShellView<L>, input: Seq<char>) -> ShellView<L> {
    ShellView {
        history: added_entries(v.history, input, HISTORY_CAPACITY as nat, INPUT_CAPACITY as nat),
        position: added_position(v.history, v.position, input),
        ..v
    }
}

/// Running the command line `input` through the tree.
pub open spec fn tree_step<L: AccessLevel, C: ShellConfig>(
    root: Directory<L>,
    v: ShellView<L>,
    input: Seq<char>,
    hr: Result<Response<C>, CliError>,
) -> (ShellView<L>, Seq<char>) {
    let (res, np) = tree_outcome::<L, C>(root, v.user, v.path, input, hr);
    let v1 = ShellView { path: np, ..v };
    match res {
        Ok(r) => {
            let v2 = if r.keep {
                with_line_recorded(v1, input)
            } else {
                v1
            };
            (
                v2,
                (if r.inline {
                    Seq::empty()
                } else {
                    "\r\n"@
                }) + reply_text(r) + (if r.prompt {
                    prompt_of(root, v2)
                } else {
                    Seq::empty()
                }),
            )
        },
        Err(e) => {
            let v2 = with_line_recorded(v1, input);
            (v2, "\r\n"@ + "Error: "@ + report_text(e) + "\r\n"@ + prompt_of(root, v2))
        },
    }
}

/// A submitted line while logged in (buffer already cleared in `v`).
pub open spec fn line_step<L: AccessLevel, C: ShellConfig>(
    root: Directory<L>,
    auth: bool,
    v: ShellView<L>,
    input: Seq<char>,
    hr: Result<Response<C>, CliError>,
) -> (ShellView<L>, Seq<char>) {
    let t = trim(input);
    if t.len() == 0 {
        (v, "\r\n"@ + prompt_of(root, v))
    } else if t == "?"@ {
        (v, "\r\n"@ + help_text(auth) + prompt_of(root, v))
    } else if t == "ls"@ {
        (
            v,
            "\r\n"@ + ls_text(dir_at(root, v.path).unwrap().children@, level_of(v.user)) + prompt_of(
                root,
                v,
            ),
        )
    } else if t == "clear"@ {
        (v, "\x1b[2J\x1b[H"@ + prompt_of(root, v))
    } else if auth && t == "logout"@ {
        (
            ShellView { user: None, state: CliState::LoggedOut, path: Seq::empty(), ..v },
            "\r\n"@ + C::MSG_LOGOUT@ + C::MSG_LOGIN_PROMPT@,
        )
    } else {
        tree_step::<L, C>(root, v, input, hr)
    }
}

/// The handler call that submitting `input` while logged in makes: none
/// for an empty line and the global commands, else that of the tree.
pub open spec fn line_dispatch<L: AccessLevel>(
    root: Directory<L>,
    auth: bool,
    v: ShellView<L>,
    input: Seq<char>,
) -> Option<(Seq<char>, Seq<Seq<char>>)> {
    let t = trim(input);
    if t.len() == 0 || t == "?"@ || t == "ls"@ || t == "clear"@ || (auth && t == "logout"@) {
        None
    } else {
        tree_dispatch(root, v.user, v.path, input)
    }
}

/// Index of the first `c` in `s` from `k` on (`s.len()` when there is none).
pub open spec fn first_index(s: Seq<char>, c: char, k: int) -> int
    decreases s.len() - k,
{
    if k < 0 || k >= s.len() {
        s.len() as int
    } else if s[k] == c {
        k
    } else {
        first_index(s, c, k + 1)
    }
}

/// The name and the password of a login line: the parts before and after
/// its first `:`; `None` for a line without one.
pub open spec fn login_parts(input: Seq<char>) -> Option<(Seq<char>, Seq<char>)> {
    if count_char(input, ':') == 0 {
        None
    } else {
        let k = first_index(input, ':', 0);
        Some((input.take(k), input.skip(k + 1)))
    }
}

/// A line with a `c` in it has its first `c` inside it.
pub proof fn lemma_first_index_found(s: Seq<char>, c: char)
    requires
        count_char(s, c) > 0,
    ensures
        0 <= first_index(s, c, 0) < s.len(),
        s[first_index(s, c, 0)] == c,
    decreases s.len(),
{
    if s.last() == c {
        lemma_first_index_upto(s, c, 0, s.len() - 1);
    } else {
        let t = s.drop_last();
        lemma_first_index_found(t, c);
        let i = first_index(t, c, 0);
        assert(s[i] == t[i]);
        lemma_first_index_upto(s, c, 0, i);
    }
    lemma_first_index_is_match(s, c, 0);
}

/// The search from `k` stops at or before any `c` at `i >= k`.
proof fn lemma_first_index_upto(s: Seq<char>, c: char, k: int, i: int)
    requires
        0 <= k <= i < s.len(),
        s[i] == c,
    ensures
        first_index(s, c, k) <= i,
    decreases i - k,
{
    if s[k] != c {
        lemma_first_index_upto(s, c, k + 1, i);
    }
}

/// Where the search stops inside the line, it found a `c`.
proof fn lemma_first_index_is_match(s: Seq<char>, c: char, k: int)
    requires
        0 <= k <= s.len(),
    ensures
        k <= first_index(s, c, k) <= s.len(),
        first_index(s, c, k) < s.len() ==> s[first_index(s, c, k)] == c,
    decreases s.len() - k,
{
    if k < s.len() && s[k] != c {
        lemma_first_index_is_match(s, c, k + 1);
    }
}

/// A submitted line at the login prompt (buffer already cleared in `v`):
/// `name:password`, with `lu` the user that the credential provider
/// found and accepted, if any.
pub open spec fn login_step<L: AccessLevel, C: ShellConfig>(
    root: Directory<L>,
    v: ShellView<L>,
    input: Seq<char>,
    lu: Option<User<L>>,
) -> (ShellView<L>, Seq<char>) {
    if count_char(input, ':') == 0 {
        (v, "\r\n"@ + C::MSG_INVALID_LOGIN_FORMAT@ + C::MSG_LOGIN_PROMPT@)
    } else {
        match lu {
            Some(u) => {
                let v2 = ShellView { user: Some(u), state: CliState::LoggedIn, ..v };
                (v2, "\r\n"@ + C::MSG_LOGIN_SUCCESS@ + prompt_of(root, v2))
            },
            None => (v, "\r\n"@ + C::MSG_LOGIN_FAILED@ + C::MSG_LOGIN_PROMPT@),
        }
    }
}

/// Tab: complete the line among the current directory's children.
pub open spec fn tab_step<L: AccessLevel>(root: Directory<L>, v: ShellView<L>) -> (ShellView<L>, Seq<char>) {
    let d = dir_at(root, v.path).unwrap();
    match completion_spec(d.children@, v.buffer, level_of(v.user), MAX_MATCHES as nat) {
        Ok(m) => if m.is_complete {
            if utf8_len(m.completion) <= INPUT_CAPACITY {
                let v2 = with_buffer(v, m.completion);
                (v2, "\r"@ + prompt_of(root, v2) + v2.buffer)
            } else {
                (with_buffer(v, Seq::empty()), seq!['\x07'])
            }
        } else if m.matches.len() > 0 {
            (v, "\r\n"@ + match_list(m.matches) + "\r\n"@ + prompt_of(root, v) + v.buffer)
        } else {
            (v, seq!['\x07'])
        },
        Err(_) => (v, seq!['\x07']),
    }
}

/// Up arrow: recall the previous history entry.
pub open spec fn up_step<L: AccessLevel>(root: Directory<L>, v: ShellView<L>) -> (ShellView<L>, Seq<char>) {
    if v.history.len() == 0 {
        (v, Seq::empty())
    } else {
        let p = previous_position(v.history.len(), v.position);
        let v2 = ShellView { buffer: v.history[p.unwrap() as int], position: p, ..v };
        (v2, redraw(root, v2))
    }
}

/// Down arrow: recall the next history entry; past the newest, an empty
/// line.
pub open spec fn down_step<L: AccessLevel>(root: Directory<L>, v: ShellView<L>) -> (ShellView<L>, Seq<char>) {
    let p = next_position(v.history.len(), v.position);
    match p {
        Some(i) => {
            let v2 = ShellView { buffer: v.history[i as int], position: p, ..v };
            (v2, redraw(root, v2))
        },
        None => if v.position is Some {
            let v2 = ShellView { buffer: Seq::empty(), position: None, ..v };
            (v2, redraw(root, v2))
        } else {
            (v, Seq::empty())
        },
    }
}

/// The effect of one decoded input event.
pub open spec fn event_step<L: AccessLevel, C: ShellConfig>(
    root: Directory<L>,
    auth: bool,
    v: ShellView<L>,
    ev: InputEvent,
    hr: Result<Response<C>, CliError>,
    lu: Option<User<L>>,
) -> (ShellView<L>, Seq<char>) {
    match ev {
        InputEvent::NoEvent => (v, Seq::empty()),
        InputEvent::Char(ch) => if utf8_len(v.buffer) + char_width(ch) <= INPUT_CAPACITY {
            let b = v.buffer.push(ch);
            (with_buffer(v, b), seq![echo_char(v.state, b, ch)])
        } else {
            (v, seq!['\x07'])
        },
        InputEvent::Backspace => if v.buffer.len() > 0 {
            (with_buffer(v, v.buffer.drop_last()), "\x08 \x08"@)
        } else {
            (v, Seq::empty())
        },
        InputEvent::DoubleEsc => {
            let v2 = with_buffer(v, Seq::empty());
            (v2, redraw(root, v2))
        },
        InputEvent::Enter => {
            let v1 = with_buffer(v, Seq::empty());
            if v.state == CliState::LoggedOut {
                login_step::<L, C>(root, v1, v.buffer, lu)
            } else {
                line_step::<L, C>(root, auth, v1, v.buffer, hr)
            }
        },
        InputEvent::Tab => tab_step(root, v),
        InputEvent::UpArrow => up_step(root, v),
        InputEvent::DownArrow => down_step(root, v),
    }
}

/// One input character: an inactive shell ignores it; otherwise the
/// decoder turns it into an event, which then takes effect. `hr` stands
/// for what the command handler answers and `lu` for the user the
/// credential provider accepts, where the step asks them.
pub open spec fn step<L: AccessLevel, C: ShellConfig>(
    root: Directory<L>,
    auth: bool,
    v: ShellView<L>,
    c: char,
    hr: Result<Response<C>, CliError>,
    lu: Option<User<L>>,
) -> (ShellView<L>, Seq<char>) {
    if v.state == CliState::Inactive {
        (v, Seq::empty())
    } else {
        let (ds, ev) = decode_spec(v.decoder, c);
        event_step::<L, C>(root, auth, ShellView { decoder: ds, ..v }, ev, hr, lu)
    }
}

/// The handler call that character `c` makes in view `v`: that of the
/// line it submits while logged in, if it submits one.
pub open spec fn step_dispatch<L: AccessLevel>(
    root: Directory<L>,
    auth: bool,
    v: ShellView<L>,
    c: char,
) -> Option<(Seq<char>, Seq<Seq<char>>)> {
    if v.state == CliState::LoggedIn && decode_spec(v.decoder, c).1 == InputEvent::Enter {
        line_dispatch(root, auth, v, v.buffer)
    } else {
        None
    }
}

/// The name and password that character `c` in view `v` submits to the
/// credential provider: those of the line it submits at the login prompt,
/// if it submits one with a `:`.
pub open spec fn step_login<L: AccessLevel>(v: ShellView<L>, c: char) -> Option<(Seq<char>, Seq<char>)> {
    if v.state == CliState::LoggedOut && decode_spec(v.decoder, c).1 == InputEvent::Enter {
        login_parts(v.buffer)
    } else {
        None
    }
}

/// Whether the effect of submitting `input` while logged in depends on
/// how access levels compare: everything but an empty line and the
/// global commands `?`, `clear` and (with authentication) `logout`.
pub open spec fn line_compares_levels(auth: bool, input: Seq<char>) -> bool {
    let t = trim(input);
    &&& t.len() > 0
    &&& t != "?"@
    &&& t != "clear"@
    &&& !(auth && t == "logout"@)
}

/// Whether the effect of character `c` in view `v` depends on how access
/// levels compare: tab completion, and a submitted line that does.
pub open spec fn step_compares_levels<L: AccessLevel>(auth: bool, v: ShellView<L>, c: char) -> bool {
    let ev = decode_spec(v.decoder, c).1;
    &&& v.state != CliState::Inactive
    &&& (ev == InputEvent::Tab || (ev == InputEvent::Enter && v.state == CliState::LoggedIn
        && line_compares_levels(auth, v.buffer)))
}

/// Whether submitting `input` while logged in stops the shell: a tree
/// command line with more than `MAX_WORDS` words, or whose path has more
/// than `PATH_CAPACITY` segments other than `.`.
pub open spec fn line_overflows(auth: bool, input: Seq<char>) -> bool {
    let t = trim(input);
    let words = split_pieces(input, true, ' ');
    &&& t.len() > 0
    &&& t != "?"@
    &&& t != "ls"@
    &&& t != "clear"@
    &&& !(auth && t == "logout"@)
    &&& (words.len() > MAX_WORDS || (words.len() > 0 && real_segments(
        split_pieces(words[0], false, '/'),
    ) > PATH_CAPACITY))
}

/// Whether character `c` would stop the shell in view `v`.
pub open spec fn step_overflows<L: AccessLevel>(auth: bool, v: ShellView<L>, c: char) -> bool {
    &&& v.state == CliState::LoggedIn
    &&& decode_spec(v.decoder, c).1 == InputEvent::Enter
    &&& line_overflows(auth, v.buffer)
}

/// Well-formedness of a shell view: the current path names a directory
/// of the tree no deeper than `PATH_CAPACITY`, the line and the history
/// respect their capacities, and a shell without authentication has no
/// user and is never logged out.
pub open spec fn view_wf<L: AccessLevel>(root: Directory<L>, auth: bool, v: ShellView<L>) -> bool {
    &&& dir_at(root, v.path) is Some
    &&& v.path.len() <= PATH_CAPACITY
    &&& utf8_len(v.buffer) <= INPUT_CAPACITY
    &&& v.history.len() <= HISTORY_CAPACITY
    &&& forall|i: int| 0 <= i < v.history.len() ==> utf8_len(#[trigger] v.history[i]) <= INPUT_CAPACITY
    &&& (v.position matches Some(p) ==> p < v.history.len())
    &&& (!auth ==> v.user is None && v.state != CliState::LoggedOut)
}

} // verus!
