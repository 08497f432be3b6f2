//! Laws of the shell: what holds of every state and every input.

use vstd::prelude::*;
use crate::auth::{allows, level_of, AccessLevel, User};
use crate::config::ShellConfig;
use crate::error::CliError;
use crate::response::Response;
use crate::shell::decoder::{decode_spec, InputEvent};
use crate::shell::history::{added_entries, lemma_add_bounded, lemma_add_then_previous};
use crate::shell::model::{
    child_dir, dir_at, echo_char, event_step, find_from, line_step, nav_reply, resolve, step,
    ls_entry, ls_text, reply_of, tab_step, tree_dispatch, tree_outcome, up_step, view_wf, with_line_recorded, Reply, ShellView, HISTORY_CAPACITY,
    INPUT_CAPACITY, PATH_CAPACITY,
};
use crate::shell::nav::lemma_dir_at_prefix;
use crate::shell::CliState;
use crate::text::{
    char_width, count_char, lemma_utf8_len_empty, lemma_utf8_len_prefix, lemma_utf8_len_push,
    split_pieces, trim, utf8_len,
};
use crate::tree::completion::{completion_matches, MATCH_CAPACITY};
use crate::tree::{CommandKind, Directory, Node};

verus! {

/// An inactive shell ignores every character: nothing changes and
/// nothing is shown.
pub proof fn lemma_inactive_ignores_input<L: AccessLevel, C: ShellConfig>(
    root: Directory<L>,
    auth: bool,
    v: ShellView<L>,
    c: char,
    hr: Result<Response<C>, CliError>,
    lu: Option<User<L>>,
)
    requires
        v.state == CliState::Inactive,
    ensures
        step::<L, C>(root, auth, v, c, hr, lu) == (v, Seq::<char>::empty()),
{
}

/// Lookup finds only a child of the requested name that the user may
/// reach, and the first such child.
pub proof fn lemma_find_only_reachable<L: AccessLevel>(children: Seq<Node<L>>, name: Seq<char>, lvl: Option<L>, k: int)
    ensures
        find_from(children, name, lvl, k) matches Some(i) ==> {
            &&& k <= i < children.len()
            &&& i <= usize::MAX
            &&& allows(lvl, children[i].spec_level())
            &&& children[i].spec_name() == name
            &&& forall|j: int| k <= j < i ==> !(allows(lvl, #[trigger] children[j].spec_level())
                && children[j].spec_name() == name)
        },
    decreases children.len() - k,
{
    if 0 <= k < children.len() {
        lemma_find_only_reachable(children, name, lvl, k + 1);
    }
}

/// A child the user may not reach is indistinguishable from a missing
/// one: when no reachable child has the name, lookup finds nothing.
pub proof fn lemma_unreachable_is_missing<L: AccessLevel>(children: Seq<Node<L>>, name: Seq<char>, lvl: Option<L>, k: int)
    requires
        forall|i: int| 0 <= i < children.len() && #[trigger] children[i].spec_name() == name
            ==> !allows(lvl, children[i].spec_level()),
    ensures
        find_from(children, name, lvl, k) is None,
    decreases children.len() - k,
{
    if 0 <= k < children.len() {
        lemma_unreachable_is_missing(children, name, lvl, k + 1);
    }
}

/// Removing a child that the user may not reach changes no lookup: from
/// any position, a name is found among the remaining children exactly
/// where it was found before, counted without the removed child (a
/// directory's children fit in memory, so their count fits a `usize`).
pub proof fn lemma_lookup_without_hidden<L: AccessLevel>(
    children: Seq<Node<L>>,
    name: Seq<char>,
    lvl: Option<L>,
    h: int,
    k: int,
)
    requires
        0 <= h < children.len(),
        children.len() <= usize::MAX,
        !allows(lvl, children[h].spec_level()),
    ensures
        ({
            let rest = children.remove(h);
            let shifted = match find_from(children, name, lvl, k) {
                Some(i) => Some(if i < h { i } else { i - 1 }),
                None => None,
            };
            &&& k <= h ==> find_from(rest, name, lvl, k) == shifted
            &&& k > h ==> find_from(rest, name, lvl, k - 1) == shifted
        }),
    decreases children.len() - k,
{
    let rest = children.remove(h);
    if 0 <= k < children.len() {
        lemma_lookup_without_hidden(children, name, lvl, h, k + 1);
        if k < h {
            assert(rest[k] == children[k]);
        } else if k > h {
            assert(rest[k - 1] == children[k]);
        }
    }
}

/// Entering a name that only unreachable children carry fails exactly as
/// entering a name that does not exist: `CommandNotFound`, whatever
/// follows in the path.
pub proof fn lemma_hidden_path_not_found<L: AccessLevel>(
    root: Directory<L>,
    lvl: Option<L>,
    wp: Seq<usize>,
    segs: Seq<Seq<char>>,
)
    requires
        segs.len() > 0,
        segs[0] != "."@,
        segs[0] != ".."@,
        dir_at(root, wp) matches Some(d) && forall|i: int|
            0 <= i < d.children@.len() && #[trigger] d.children@[i].spec_name() == segs[0]
                ==> !allows(lvl, d.children@[i].spec_level()),
    ensures
        resolve(root, lvl, wp, segs) == Err::<(Option<crate::tree::CommandMeta<L>>, Seq<usize>), CliError>(
            CliError::CommandNotFound,
        ),
{
    let d = dir_at(root, wp).unwrap();
    lemma_unreachable_is_missing(d.children@, segs[0], lvl, 0);
}

/// A path resolves only to a command that the user may reach.
pub proof fn lemma_resolved_command_reachable<L: AccessLevel>(
    root: Directory<L>,
    lvl: Option<L>,
    wp: Seq<usize>,
    segs: Seq<Seq<char>>,
)
    ensures
        resolve(root, lvl, wp, segs) matches Ok((Some(cmd), _)) ==> allows(lvl, cmd.access_level),
    decreases segs.len(),
{
    if segs.len() > 0 {
        let seg = segs[0];
        let rest = segs.drop_first();
        if seg == "."@ {
            lemma_resolved_command_reachable(root, lvl, wp, rest);
        } else if seg == ".."@ {
            lemma_resolved_command_reachable(
                root,
                lvl,
                if wp.len() > 0 {
                    wp.drop_last()
                } else {
                    wp
                },
                rest,
            );
        } else {
            match dir_at(root, wp) {
                Some(d) => {
                    lemma_find_only_reachable(d.children@, seg, lvl, 0);
                    match find_from(d.children@, seg, lvl, 0) {
                        Some(i) => {
                            if d.children@[i] is Directory {
                                if wp.len() < crate::shell::model::PATH_CAPACITY {
                                    lemma_resolved_command_reachable(root, lvl, wp.push(i as usize), rest);
                                }
                            }
                        },
                        None => {},
                    }
                },
                None => {},
            }
        }
    }
}

/// The command handler decides nothing but the run of a synchronous
/// command that the user may reach and that got an accepted number of
/// arguments: for every other command line, what the handler would
/// answer makes no difference.
pub proof fn lemma_handler_only_for_allowed_commands<L: AccessLevel, C: ShellConfig>(
    root: Directory<L>,
    user: Option<User<L>>,
    path: Seq<usize>,
    input: Seq<char>,
    hr1: Result<Response<C>, CliError>,
    hr2: Result<Response<C>, CliError>,
)
    requires
        tree_outcome::<L, C>(root, user, path, input, hr1) != tree_outcome::<L, C>(root, user, path, input, hr2),
    ensures
        ({
            let words = split_pieces(input, true, ' ');
            let w = words[0];
            let start = if w.len() > 0 && w[0] == '/' {
                Seq::<usize>::empty()
            } else {
                path
            };
            &&& words.len() > 0
            &&& resolve(root, level_of(user), start, split_pieces(w, false, '/')) matches Ok((Some(cmd), _))
                && allows(level_of(user), cmd.access_level) && cmd.kind == CommandKind::Sync
                && cmd.min_args <= ((words.len() - 1) as usize) <= cmd.max_args
        }),
{
    let words = split_pieces(input, true, ' ');
    if words.len() > 0 {
        let w = words[0];
        let start = if w.len() > 0 && w[0] == '/' {
            Seq::<usize>::empty()
        } else {
            path
        };
        lemma_resolved_command_reachable(root, level_of(user), start, split_pieces(w, false, '/'));
    }
}

/// At the login prompt, once the name is closed by `:`, every further
/// character echoes as `*`: the password never shows.
pub proof fn lemma_password_masked(buffer: Seq<char>, ch: char)
    requires
        count_char(buffer, ':') >= 1,
    ensures
        echo_char(CliState::LoggedOut, buffer.push(ch), ch) == '*',
{
    assert(buffer.push(ch).drop_last() =~= buffer);
}

/// Backspace undoes a typed character that went into the line.
pub proof fn lemma_backspace_undoes_char<L: AccessLevel, C: ShellConfig>(
    root: Directory<L>,
    auth: bool,
    v: ShellView<L>,
    ch: char,
    hr: Result<Response<C>, CliError>,
    lu: Option<User<L>>,
)
    requires
        utf8_len(v.buffer) + char_width(ch) <= INPUT_CAPACITY,
    ensures
        event_step::<L, C>(
            root,
            auth,
            event_step::<L, C>(root, auth, v, InputEvent::Char(ch), hr, lu).0,
            InputEvent::Backspace,
            hr,
            lu,
        ).0 == v,
{
    assert(v.buffer.push(ch).drop_last() =~= v.buffer);
}

/// A command line that went into the history is what the next up arrow
/// recalls (unless it repeats the newest entry while the history is
/// being browsed).
pub proof fn lemma_recorded_line_recalled<L: AccessLevel>(root: Directory<L>, v: ShellView<L>, input: Seq<char>)
    requires
        v.history.len() <= HISTORY_CAPACITY,
        input.len() > 0,
        utf8_len(input) <= INPUT_CAPACITY,
        v.history.len() == 0 || v.history.last() != input || v.position is None,
    ensures
        up_step(root, with_line_recorded(v, input)).0.buffer == input,
{
    if v.history.len() == 0 || v.history.last() != input {
        lemma_add_then_previous(v.history, v.position, input, HISTORY_CAPACITY as nat, INPUT_CAPACITY as nat);
    }
}

/// The global commands `?`, `ls` and `clear` change nothing but what is
/// shown.
pub proof fn lemma_global_commands_keep_state<L: AccessLevel, C: ShellConfig>(
    root: Directory<L>,
    auth: bool,
    v: ShellView<L>,
    input: Seq<char>,
    hr: Result<Response<C>, CliError>,
)
    requires
        trim(input) == "?"@ || trim(input) == "ls"@ || trim(input) == "clear"@,
    ensures
        line_step::<L, C>(root, auth, v, input, hr).0 == v,
{
    reveal_strlit("?");
    reveal_strlit("ls");
    reveal_strlit("clear");
}

/// `logout` ends the session: nobody is logged in, the shell is back at
/// the login prompt and at the root directory.
pub proof fn lemma_logout_ends_session<L: AccessLevel, C: ShellConfig>(
    root: Directory<L>,
    v: ShellView<L>,
    input: Seq<char>,
    hr: Result<Response<C>, CliError>,
)
    requires
        trim(input) == "logout"@,
    ensures
        ({
            let v2 = line_step::<L, C>(root, true, v, input, hr).0;
            &&& v2.user is None
            &&& v2.state == CliState::LoggedOut
            &&& v2.path == Seq::<usize>::empty()
            &&& v2.history == v.history
        }),
{
    reveal_strlit("?");
    reveal_strlit("ls");
    reveal_strlit("clear");
    reveal_strlit("logout");
    assert("logout"@.len() == 6);
}

/// Editing keys (characters, backspace, double escape, tab, the arrows)
/// touch only the line and the history position: the login state, the user,
/// the directory and the stored history stay as they were.
pub proof fn lemma_editing_keys_keep_session<L: AccessLevel, C: ShellConfig>(
    root: Directory<L>,
    auth: bool,
    v: ShellView<L>,
    ev: InputEvent,
    hr: Result<Response<C>, CliError>,
    lu: Option<User<L>>,
)
    requires
        ev != InputEvent::Enter,
    ensures
        ({
            let v2 = event_step::<L, C>(root, auth, v, ev, hr, lu).0;
            &&& v2.state == v.state
            &&& v2.user == v.user
            &&& v2.path == v.path
            &&& v2.history == v.history
        }),
{
}

/// Tab with exactly one reachable child whose name starts with the line
/// replaces the line by that name (a directory's followed by `/`).
pub proof fn lemma_unique_match_completes<L: AccessLevel>(root: Directory<L>, v: ShellView<L>)
    requires
        dir_at(root, v.path) is Some,
        completion_matches(dir_at(root, v.path).unwrap().children@, v.buffer, level_of(v.user)).len()
            == 1,
        ({
            let (name, is_dir) = completion_matches(
                dir_at(root, v.path).unwrap().children@,
                v.buffer,
                level_of(v.user),
            )[0];
            &&& utf8_len(name) <= MATCH_CAPACITY
            &&& utf8_len(name) + 1 <= INPUT_CAPACITY
        }),
    ensures
        ({
            let (name, is_dir) = completion_matches(
                dir_at(root, v.path).unwrap().children@,
                v.buffer,
                level_of(v.user),
            )[0];
            tab_step(root, v).0.buffer == if is_dir {
                name.push('/')
            } else {
                name
            }
        }),
{
    let (name, is_dir) = completion_matches(
        dir_at(root, v.path).unwrap().children@,
        v.buffer,
        level_of(v.user),
    )[0];
    lemma_utf8_len_push(name, '/');
    assert(crate::text::char_width('/') == 1);
}

/// A path resolution that ends in a directory ends in one of the tree, no
/// deeper than the shell allows, when it starts from one.
pub proof fn lemma_resolve_stays_in_tree<L: AccessLevel>(
    root: Directory<L>,
    lvl: Option<L>,
    wp: Seq<usize>,
    segs: Seq<Seq<char>>,
)
    requires
        dir_at(root, wp) is Some,
        wp.len() <= PATH_CAPACITY,
    ensures
        resolve(root, lvl, wp, segs) matches Ok((None, wp2)) ==> dir_at(root, wp2) is Some
            && wp2.len() <= PATH_CAPACITY,
    decreases segs.len(),
{
    if segs.len() > 0 {
        let seg = segs[0];
        let rest = segs.drop_first();
        if seg == "."@ {
            lemma_resolve_stays_in_tree(root, lvl, wp, rest);
        } else if seg == ".."@ {
            if wp.len() > 0 {
                lemma_dir_at_prefix(root, wp, wp.len() - 1);
                assert(wp.take(wp.len() - 1) =~= wp.drop_last());
                lemma_resolve_stays_in_tree(root, lvl, wp.drop_last(), rest);
            } else {
                lemma_resolve_stays_in_tree(root, lvl, wp, rest);
            }
        } else {
            let d = dir_at(root, wp).unwrap();
            lemma_find_only_reachable(d.children@, seg, lvl, 0);
            match find_from(d.children@, seg, lvl, 0) {
                Some(i) => {
                    if d.children@[i] is Directory && wp.len() < PATH_CAPACITY {
                        let wp2 = wp.push(i as usize);
                        assert(wp2.drop_last() =~= wp);
                        assert(child_dir(d, i as usize) is Some);
                        lemma_resolve_stays_in_tree(root, lvl, wp2, rest);
                    }
                },
                None => {},
            }
        }
    }
}

/// Recording a line keeps the history within its capacities.
pub proof fn lemma_recording_keeps_wf<L: AccessLevel>(root: Directory<L>, auth: bool, v: ShellView<L>, input: Seq<char>)
    requires
        view_wf(root, auth, v),
    ensures
        view_wf(root, auth, with_line_recorded(v, input)),
{
    lemma_add_bounded(v.history, input, HISTORY_CAPACITY as nat, INPUT_CAPACITY as nat);
    let e2 = added_entries(v.history, input, HISTORY_CAPACITY as nat, INPUT_CAPACITY as nat);
    assert forall|i: int| 0 <= i < e2.len() implies utf8_len(#[trigger] e2[i]) <= INPUT_CAPACITY by {
        if input.len() == 0 || (v.history.len() > 0 && v.history.last() == input) || utf8_len(input)
            > INPUT_CAPACITY {
        } else if v.history.len() >= HISTORY_CAPACITY {
            if i < e2.len() - 1 {
                assert(e2[i] == v.history[i + 1]);
            }
        } else {
            if i < e2.len() - 1 {
                assert(e2[i] == v.history[i]);
            }
        }
    }
}

/// Every step keeps the shell well-formed: whatever the command handler
/// answers and whoever the credential provider accepts, the current path
/// still names a directory of the tree, the line and the history respect
/// their capacities, and a shell without authentication stays without a
/// user.
pub proof fn lemma_step_keeps_wf<L: AccessLevel, C: ShellConfig>(
    root: Directory<L>,
    auth: bool,
    v: ShellView<L>,
    c: char,
    hr: Result<Response<C>, CliError>,
    lu: Option<User<L>>,
)
    requires
        view_wf(root, auth, v),
    ensures
        view_wf(root, auth, step::<L, C>(root, auth, v, c, hr, lu).0),
{
    lemma_utf8_len_empty();
    if v.state != CliState::Inactive {
        let (ds, ev) = decode_spec(v.decoder, c);
        let v1 = ShellView { decoder: ds, ..v };
        assert(view_wf(root, auth, v1));
        match ev {
            InputEvent::Char(ch) => {
                lemma_utf8_len_push(v1.buffer, ch);
            },
            InputEvent::Backspace => {
                if v1.buffer.len() > 0 {
                    lemma_utf8_len_prefix(v1.buffer, v1.buffer.len() - 1);
                    assert(v1.buffer.take(v1.buffer.len() - 1) =~= v1.buffer.drop_last());
                }
            },
            InputEvent::Enter => {
                let v2 = ShellView { buffer: Seq::empty(), ..v1 };
                assert(view_wf(root, auth, v2));
                if v1.state != CliState::LoggedOut {
                    let input = v1.buffer;
                    let t = trim(input);
                    if !(t.len() == 0 || t == "?"@ || t == "ls"@ || t == "clear"@ || (auth && t
                        == "logout"@)) {
                        let (res, np) = tree_outcome::<L, C>(root, v2.user, v2.path, input, hr);
                        let words = split_pieces(input, true, ' ');
                        if words.len() > 0 {
                            let w = words[0];
                            let start = if w.len() > 0 && w[0] == '/' {
                                Seq::<usize>::empty()
                            } else {
                                v2.path
                            };
                            lemma_resolve_stays_in_tree(root, level_of(v2.user), start, split_pieces(w, false, '/'));
                        }
                        let v3 = ShellView { path: np, ..v2 };
                        assert(view_wf(root, auth, v3));
                        lemma_recording_keeps_wf(root, auth, v3, input);
                    }
                }
            },
            _ => {},
        }
    }
}

/// A command line moves the shell only by naming a directory: when its
/// outcome is an error, or a command ran, the current directory stays
/// where it was; when the directory changes, the line succeeded with the
/// silent navigation reply.
pub proof fn lemma_failed_line_keeps_directory<L: AccessLevel, C: ShellConfig>(
    root: Directory<L>,
    user: Option<User<L>>,
    path: Seq<usize>,
    input: Seq<char>,
    hr: Result<Response<C>, CliError>,
)
    ensures
        tree_outcome::<L, C>(root, user, path, input, hr).0 is Err ==> tree_outcome::<L, C>(
            root,
            user,
            path,
            input,
            hr,
        ).1 == path,
        tree_outcome::<L, C>(root, user, path, input, hr).1 != path ==> tree_outcome::<L, C>(
            root,
            user,
            path,
            input,
            hr,
        ).0 == Ok::<Reply, CliError>(nav_reply()),
{
}

/// Whether `s` holds no line break (`\r` or `\n`).
pub open spec fn no_line_break(s: Seq<char>) -> bool {
    forall|i: int| 0 <= i < s.len() ==> s[i] != '\r' && s[i] != '\n'
}

/// Whether a node's name, and a command's description, hold no line
/// break.
pub open spec fn plain_node<L: AccessLevel>(n: Node<L>) -> bool {
    &&& no_line_break(n.spec_name())
    &&& (n matches Node::Command(cmd) ==> no_line_break(cmd.description@))
}

/// Each `ls` entry is one line: two spaces, the child's name (a
/// directory's followed by `/`), and a final `\r\n`; for a node with
/// plain texts, no other line break.
pub proof fn lemma_ls_entry_one_line<L: AccessLevel>(n: Node<L>)
    ensures
        ({
            let e = ls_entry(n);
            let name = n.spec_name();
            &&& e.len() >= name.len() + 4
            &&& e[0] == ' ' && e[1] == ' '
            &&& e.subrange(2, 2 + name.len() as int) == name
            &&& (n is Directory ==> e[2 + name.len() as int] == '/')
            &&& e[e.len() - 2] == '\r' && e[e.len() - 1] == '\n'
            &&& plain_node(n) ==> no_line_break(e.take(e.len() - 2))
        }),
{
    reveal_strlit("  ");
    reveal_strlit("  - ");
    reveal_strlit("\r\n");
    reveal_strlit("/  - Directory\r\n");
    let e = ls_entry(n);
    let name = n.spec_name();
    match n {
        Node::Command(cmd) => {
            let d = cmd.description@;
            assert(e == "  "@ + name + "  - "@ + d + "\r\n"@);
            assert(e.subrange(2, 2 + name.len() as int) =~= name);
            if plain_node(n) {
                let t = e.take(e.len() - 2);
                assert forall|i: int| 0 <= i < t.len() implies #[trigger] t[i] != '\r' && t[i] != '\n' by {
                    if 2 <= i < 2 + name.len() {
                        assert(e[i] == name[i - 2]);
                    } else if 6 + name.len() <= i {
                        assert(e[i] == d[i - 6 - name.len()]);
                    }
                }
            }
        },
        Node::Directory(dir) => {
            assert(e == "  "@ + name + "/  - Directory\r\n"@);
            assert(e.subrange(2, 2 + name.len() as int) =~= name);
            if plain_node(n) {
                let t = e.take(e.len() - 2);
                assert forall|i: int| 0 <= i < t.len() implies #[trigger] t[i] != '\r' && t[i] != '\n' by {
                    if 2 <= i < 2 + name.len() {
                        assert(e[i] == name[i - 2]);
                    }
                }
            }
        },
    }
}

/// Line feeds add up over concatenation.
proof fn lemma_count_concat(a: Seq<char>, b: Seq<char>, c: char)
    ensures
        count_char(a + b, c) == count_char(a, c) + count_char(b, c),
    decreases b.len(),
{
    if b.len() == 0 {
        assert(a + b =~= a);
    } else {
        lemma_count_concat(a, b.drop_last(), c);
        assert((a + b).drop_last() =~= a + b.drop_last());
    }
}

/// A text without line breaks holds no line feed.
proof fn lemma_count_none(s: Seq<char>)
    requires
        no_line_break(s),
    ensures
        count_char(s, '\n') == 0,
    decreases s.len(),
{
    if s.len() > 0 {
        lemma_count_none(s.drop_last());
    }
}

/// The `ls` listing has one line per child the user may reach: for
/// children with plain texts, it holds exactly as many line feeds as
/// there are reachable children.
pub proof fn lemma_ls_one_line_per_child<L: AccessLevel>(children: Seq<Node<L>>, lvl: Option<L>)
    requires
        forall|i: int| 0 <= i < children.len() ==> plain_node(#[trigger] children[i]),
    ensures
        count_char(ls_text(children, lvl), '\n') == children.filter(
            |n: Node<L>| allows(lvl, n.spec_level()),
        ).len(),
    decreases children.len(),
{
    reveal_with_fuel(Seq::filter, 1);
    if children.len() > 0 {
        let rest = children.drop_last();
        let n = children.last();
        assert forall|i: int| 0 <= i < rest.len() implies plain_node(#[trigger] rest[i]) by {
            assert(rest[i] == children[i]);
        }
        lemma_ls_one_line_per_child(rest, lvl);
        if allows(lvl, n.spec_level()) {
            let e = ls_entry(n);
            assert(plain_node(children[children.len() - 1]));
            lemma_ls_entry_one_line(n);
            let t = e.take(e.len() - 2);
            lemma_count_none(t);
            assert(e.drop_last().drop_last() =~= t);
            assert(count_char(e.drop_last(), '\n') == 0);
            lemma_count_concat(ls_text(rest, lvl), e, '\n');
        }
    } else {
        assert(count_char(Seq::<char>::empty(), '\n') == 0);
    }
}

/// The handler decides a command line's outcome exactly when the shell
/// calls it: where no call is made, the outcome is the same whatever the
/// handler would answer; where the call is made, the outcome is the
/// handler's answer, and the current directory stays.
pub proof fn lemma_handler_decides_only_when_called<L: AccessLevel, C: ShellConfig>(
    root: Directory<L>,
    user: Option<User<L>>,
    path: Seq<usize>,
    input: Seq<char>,
    hr1: Result<Response<C>, CliError>,
    hr2: Result<Response<C>, CliError>,
)
    ensures
        tree_dispatch(root, user, path, input) is None ==> tree_outcome::<L, C>(root, user, path, input, hr1)
            == tree_outcome::<L, C>(root, user, path, input, hr2),
        tree_dispatch(root, user, path, input) is Some ==> tree_outcome::<L, C>(root, user, path, input, hr1) == (
            match hr1 {
                Ok(r) => Ok(reply_of(r)),
                Err(e) => Err(e),
            },
            path,
        ),
{
}

} // verus!
