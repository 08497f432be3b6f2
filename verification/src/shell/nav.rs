//! Walking the command tree: directories along a path, the prompt, the
//! `ls` listing and path resolution.

use vstd::prelude::*;
use crate::auth::{level_allows, ordered, AccessLevel, User};
use crate::bounded::BoundedString;
use crate::error::CliError;
use crate::shell::model::{
    child_dir, dir_at, find_from, join_names, ls_entry, ls_text, path_names, prompt_text, resolve,
    PATH_CAPACITY,
};
use crate::text::{chars_eq, chars_eq_str, push_str, str_chars};
use crate::tree::{CommandMeta, Directory, Node};

verus! {

/// Every prefix of a path that names a directory names one too.
pub proof fn lemma_dir_at_prefix<L: AccessLevel>(root: Directory<L>, path: Seq<usize>, i: int)
    requires
        dir_at(root, path) is Some,
        0 <= i <= path.len(),
    ensures
        dir_at(root, path.take(i)) is Some,
    decreases path.len(),
{
    if i == path.len() {
        assert(path.take(i) =~= path);
    } else {
        assert(path.drop_last().take(i) =~= path.take(i));
        lemma_dir_at_prefix(root, path.drop_last(), i);
    }
}

/// The directory at `path` below `root`.
pub fn dir_at_path<'a, L: AccessLevel>(root: &'a Directory<L>, path: &[usize]) -> (r: &'a Directory<L>)
    requires
        dir_at(*root, path@) is Some,
    ensures
        dir_at(*root, path@) == Some(*r),
{
    let mut current: &'a Directory<L> = root;
    let mut i: usize = 0;
    while i < path.len()
        invariant
            i <= path@.len(),
            dir_at(*root, path@) is Some,
            dir_at(*root, path@.take(i as int)) == Some(*current),
        decreases path.len() - i,
    {
        proof {
            lemma_dir_at_prefix(*root, path@, i + 1);
            assert(path@.take(i + 1).drop_last() =~= path@.take(i as int));
        }
        let idx = path[i];
        match &current.children[idx] {
            Node::Directory(sub) => {
                current = *sub;
            },
            Node::Command(_) => {
                assert(false);
            },
        }
        i = i + 1;
    }
    assert(path@.take(i as int) =~= path@);
    current
}

/// The names of the directories along `path`, joined by `/`.
pub fn path_text<L: AccessLevel>(root: &Directory<L>, path: &[usize]) -> (r: Vec<char>)
    requires
        dir_at(*root, path@) is Some,
    ensures
        r@ == join_names(path_names(*root, path@)),
{
    let mut out: Vec<char> = Vec::new();
    let mut current: &Directory<L> = root;
    let mut i: usize = 0;
    while i < path.len()
        invariant
            i <= path@.len(),
            dir_at(*root, path@) is Some,
            dir_at(*root, path@.take(i as int)) == Some(*current),
            out@ == join_names(path_names(*root, path@.take(i as int))),
            path_names(*root, path@.take(i as int)).len() == i,
        decreases path.len() - i,
    {
        proof {
            lemma_dir_at_prefix(*root, path@, i + 1);
            assert(path@.take(i + 1).drop_last() =~= path@.take(i as int));
        }
        let idx = path[i];
        match &current.children[idx] {
            Node::Directory(sub) => {
                current = *sub;
            },
            Node::Command(_) => {
                assert(false);
            },
        }
        let ghost names = path_names(*root, path@.take(i as int));
        if i > 0 {
            push_str(&mut out, "/");
        }
        push_str(&mut out, current.name);
        proof {
            let names2 = path_names(*root, path@.take(i + 1));
            assert(names2 == names.push(current.name@));
            assert(names2.drop_last() =~= names);
            if i == 0 {
                assert(names2.len() == 1);
                assert(out@ =~= names2[0]);
            } else {
                assert(out@ =~= join_names(names) + "/"@ + current.name@);
            }
        }
        i = i + 1;
    }
    assert(path@.take(i as int) =~= path@);
    out
}

/// Appends `s` to the prompt when it fits (what `bounded_append` says).
fn append_bounded(p: &mut BoundedString<128>, s: &[char])
    ensures
        final(p)@ == crate::shell::model::bounded_append(old(p)@, s@),
{
    let _ = p.push_chars(s);
}

/// The prompt for `user` standing at `path`.
pub fn prompt_chars<L: AccessLevel>(user: &Option<User<L>>, root: &Directory<L>, path: &[usize]) -> (r: Vec<char>)
    requires
        dir_at(*root, path@) is Some,
    ensures
        r@ == prompt_text(*user, *root, path@),
{
    let mut p: BoundedString<128> = BoundedString::new();
    match user {
        Some(u) => {
            let name = u.name_chars();
            append_bounded(&mut p, name.as_slice());
        },
        None => {},
    }
    let at = str_chars("@");
    append_bounded(&mut p, at.as_slice());
    let slash = str_chars("/");
    append_bounded(&mut p, slash.as_slice());
    if path.len() > 0 {
        let j = path_text(root, path);
        let fits: Option<BoundedString<128>> = BoundedString::from_chars(j.as_slice());
        if fits.is_some() {
            append_bounded(&mut p, j.as_slice());
        }
    }
    let tail = str_chars("> ");
    append_bounded(&mut p, tail.as_slice());
    p.to_chars()
}

/// One line of the `ls` listing.
fn ls_line<L: AccessLevel>(n: &Node<L>, out: &mut Vec<char>)
    ensures
        final(out)@ == old(out)@ + ls_entry(*n),
{
    match n {
        Node::Command(cmd) => {
            push_str(out, "  ");
            push_str(out, cmd.name);
            push_str(out, "  - ");
            push_str(out, cmd.description);
            push_str(out, "\r\n");
        },
        Node::Directory(dir) => {
            push_str(out, "  ");
            push_str(out, dir.name);
            push_str(out, "/  - Directory\r\n");
        },
    }
    assert(final(out)@ =~= old(out)@ + ls_entry(*n));
}

/// The `ls` listing of `children` for a user at `lvl`.
pub fn ls_chars<L: AccessLevel>(children: &[Node<L>], lvl: Option<L>) -> (r: Vec<char>)
    ensures
        ordered::<L>() || lvl is None ==> r@ == ls_text(children@, lvl),
{
    let mut out: Vec<char> = Vec::new();
    let mut i: usize = 0;
    while i < children.len()
        invariant
            i <= children@.len(),
            ordered::<L>() || lvl is None ==> out@ == ls_text(children@.take(i as int), lvl),
        decreases children.len() - i,
    {
        assert(children@.take(i + 1).drop_last() =~= children@.take(i as int));
        assert(children@.take(i + 1).last() == children@[i as int]);
        let child = &children[i];
        if level_allows(lvl, child.access_level()) {
            ls_line(child, &mut out);
        }
        i = i + 1;
    }
    assert(children@.take(i as int) =~= children@);
    out
}

/// Index of the first child named `name` that a user at `lvl` may reach.
pub fn find_reachable<L: AccessLevel>(children: &[Node<L>], name: &[char], lvl: Option<L>) -> (r: Option<usize>)
    ensures
        r matches Some(i) ==> i < children@.len(),
        ordered::<L>() || lvl is None ==> match r {
            Some(i) => find_from(children@, name@, lvl, 0) == Some(i as int),
            None => find_from(children@, name@, lvl, 0) is None,
        },
{
    let mut i: usize = 0;
    while i < children.len()
        invariant
            i <= children@.len(),
            ordered::<L>() || lvl is None ==> find_from(children@, name@, lvl, 0) == find_from(children@, name@, lvl, i as int),
        decreases children.len() - i,
    {
        let child = &children[i];
        let ok = level_allows(lvl, child.access_level());
        if ok {
            let cname = str_chars(child.name());
            if chars_eq(cname.as_slice(), name) {
                return Some(i);
            }
        }
        i = i + 1;
    }
    None
}

/// The resolution result as values.
pub open spec fn resolved_view<L: AccessLevel>(r: Result<(Option<&'static CommandMeta<L>>, Vec<usize>), CliError>) -> Result<(Option<CommandMeta<L>>, Seq<usize>), CliError> {
    match r {
        Ok((c, wp)) => Ok(
            (
                match c {
                    Some(m) => Some(*m),
                    None => None,
                },
                wp@,
            ),
        ),
        Err(e) => Err(e),
    }
}

/// The segments' texts.
pub open spec fn segs_view(segs: Seq<Vec<char>>) -> Seq<Seq<char>> {
    segs.map_values(|s: Vec<char>| s@)
}

/// Follows the path segments `segs` from the directory at `start` for a
/// user at `lvl` (see `resolve`).
pub fn resolve_segments<L: AccessLevel>(root: &Directory<L>, lvl: Option<L>, start: Vec<usize>, segs: &Vec<Vec<char>>) -> (r: Result<(Option<&'static CommandMeta<L>>, Vec<usize>), CliError>)
    requires
        dir_at(*root, start@) is Some,
        start@.len() <= PATH_CAPACITY,
    ensures
        r matches Ok((c, wp)) ==> dir_at(*root, wp@) is Some && wp@.len() <= PATH_CAPACITY,
        ordered::<L>() || lvl is None ==> resolved_view(r) == resolve(*root, lvl, start@, segs_view(segs@)),
{
    let ghost all = segs_view(segs@);
    let mut wp = start;
    let mut k: usize = 0;
    assert(all.skip(0) =~= all);
    while k < segs.len()
        invariant
            k <= segs@.len(),
            all == segs_view(segs@),
            dir_at(*root, wp@) is Some,
            wp@.len() <= PATH_CAPACITY,
            ordered::<L>() || lvl is None ==> resolve(*root, lvl, start@, all) == resolve(*root, lvl, wp@, all.skip(k as int)),
        decreases segs.len() - k,
    {
        let ghost rest = all.skip(k as int);
        assert(rest[0] == segs@[k as int]@);
        assert(rest.drop_first() =~= all.skip(k + 1));
        let seg = &segs[k];
        if chars_eq_str(seg.as_slice(), ".") {
        } else if chars_eq_str(seg.as_slice(), "..") {
            if wp.len() > 0 {
                proof {
                    lemma_dir_at_prefix(*root, wp@, wp@.len() - 1);
                    assert(wp@.take(wp@.len() - 1) =~= wp@.drop_last());
                }
                wp.pop();
            }
        } else {
            let d = dir_at_path(root, wp.as_slice());
            match find_reachable(d.children, seg.as_slice(), lvl) {
                None => {
                    return Err(CliError::CommandNotFound);
                },
                Some(i) => {
                    match &d.children[i] {
                        Node::Command(cmd) => {
                            return Ok((Some(*cmd), wp));
                        },
                        Node::Directory(_) => {
                            if wp.len() >= 8 {
                                return Err(CliError::PathTooDeep);
                            }
                            let ghost old_wp = wp@;
                            wp.push(i);
                            assert(wp@.drop_last() =~= old_wp);
                            assert(child_dir(*d, i) is Some);
                        },
                    }
                },
            }
        }
        k = k + 1;
    }
    assert(all.skip(k as int) =~= Seq::<Seq<char>>::empty());
    Ok((None, wp))
}

} // verus!
