//! Tab completion: prefix matching of the children of a directory, with
//! access control.

use vstd::prelude::*;
use crate::auth::{allows, level_allows, ordered, AccessLevel, User};
use crate::bounded::BoundedString;
use crate::error::CliError;
use crate::text::{is_prefix, starts_with, str_chars, utf8_len};
use crate::tree::{Directory, Node};

verus! {

/// Capacity of the completion text, in bytes.
pub const COMPLETION_CAPACITY: usize = 128;

/// Capacity of one listed match, in bytes.
pub const MATCH_CAPACITY: usize = 64;

/// Completion result: the completed text and the matches.
#[derive(Debug, Clone, PartialEq)]
pub struct CompletionResult<const MAX_MATCHES: usize> {
    /// The completion text (common prefix if multiple matches)
    pub completion: BoundedString<128>,
    /// True if exactly one match found
    pub is_complete: bool,
    /// True if the single match is a directory
    pub is_directory: bool,
    /// All matching node names (for display), at most `MAX_MATCHES`
    pub all_matches: Vec<BoundedString<64>>,
}

/// The abstract content of a completion result.
pub struct CompletionModel {
    /// Completion text
    pub completion: Seq<char>,
    /// Exactly one match
    pub is_complete: bool,
    /// The single match is a directory
    pub is_directory: bool,
    /// Names of all matches, in tree order
    pub matches: Seq<Seq<char>>,
}

impl<const MAX_MATCHES: usize> CompletionResult<MAX_MATCHES> {
    /// Whether this result holds `m`.
    pub open spec fn models(&self, m: CompletionModel) -> bool {
        &&& self.completion@ == m.completion
        &&& self.is_complete == m.is_complete
        &&& self.is_directory == m.is_directory
        &&& self.all_matches@.len() == m.matches.len()
        &&& forall|i: int| 0 <= i < m.matches.len() ==> #[trigger] self.all_matches@[i]@ == m.matches[i]
    }

    /// Create empty completion result.
    pub fn empty() -> (r: Self)
        ensures
            r.models(empty_model()),
    {
        let r = CompletionResult {
            completion: BoundedString::new(),
            is_complete: false,
            is_directory: false,
            all_matches: Vec::new(),
        };
        r
    }
}

/// The empty completion.
pub open spec fn empty_model() -> CompletionModel {
    CompletionModel {
        completion: Seq::empty(),
        is_complete: false,
        is_directory: false,
        matches: Seq::empty(),
    }
}

/// Children of a directory that a user at `user_level` may reach and whose
/// names start with `input`: name and whether it is a directory, in order.
pub open spec fn completion_matches<L: AccessLevel>(
    children: Seq<Node<L>>,
    input: Seq<char>,
    user_level: Option<L>,
) -> Seq<(Seq<char>, bool)>
    decreases children.len(),
{
    if children.len() == 0 {
        Seq::empty()
    } else {
        let prev = completion_matches(children.drop_last(), input, user_level);
        let n = children.last();
        if allows(user_level, n.spec_level()) && is_prefix(input, n.spec_name()) {
            prev.push((n.spec_name(), n is Directory))
        } else {
            prev
        }
    }
}

/// Whether the items of `a` appear in `b` in the same order (not
/// necessarily next to each other).
pub open spec fn is_subsequence<A>(a: Seq<A>, b: Seq<A>) -> bool
    decreases b.len(),
{
    if a.len() == 0 {
        true
    } else if b.len() == 0 {
        false
    } else if a.last() == b.last() {
        is_subsequence(a.drop_last(), b.drop_last())
    } else {
        is_subsequence(a, b.drop_last())
    }
}

/// Dropping the last item keeps a subsequence.
proof fn lemma_subsequence_drop_last<A>(a: Seq<A>, b: Seq<A>)
    requires
        a.len() > 0,
        is_subsequence(a, b),
    ensures
        is_subsequence(a.drop_last(), b),
    decreases b.len(),
{
    let a1 = a.drop_last();
    if a1.len() > 0 && b.len() > 0 {
        if a.last() == b.last() {
            if a1.last() == b.last() {
                lemma_subsequence_drop_last(a1, b.drop_last());
            }
        } else {
            lemma_subsequence_drop_last(a, b.drop_last());
            if a1.last() == b.last() {
                lemma_subsequence_drop_last(a1, b.drop_last());
            }
        }
    }
}

/// A subsequence stays one when `b` grows.
proof fn lemma_subsequence_push<A>(a: Seq<A>, b: Seq<A>, x: A)
    requires
        is_subsequence(a, b),
    ensures
        is_subsequence(a, b.push(x)),
{
    assert(b.push(x).drop_last() =~= b);
    if a.len() > 0 && a.last() == x {
        lemma_subsequence_drop_last(a, b);
    }
}

/// A prefix of a prefix of `s` is a prefix of `s`.
proof fn lemma_prefix_trans(p: Seq<char>, q: Seq<char>, s: Seq<char>)
    requires
        is_prefix(p, q),
        is_prefix(q, s),
    ensures
        is_prefix(p, s),
{
    assert(s.take(p.len() as int) =~= q.take(p.len() as int));
}

/// Completion narrows as the input grows and as the user reaches less:
/// the matches of `longer`, which extends `input`, for a user at `la`
/// appear in the same order among the matches of `input` for a user at
/// `lb` who reaches every level that `la` reaches (nobody logged in
/// reaches all).
pub proof fn lemma_completion_narrows<L: AccessLevel>(
    children: Seq<Node<L>>,
    input: Seq<char>,
    longer: Seq<char>,
    la: Option<L>,
    lb: Option<L>,
)
    requires
        is_prefix(input, longer),
        forall|l: L| #[trigger] allows(la, l) ==> allows(lb, l),
    ensures
        is_subsequence(completion_matches(children, longer, la), completion_matches(children, input, lb)),
        is_subsequence(
            match_names(completion_matches(children, longer, la)),
            match_names(completion_matches(children, input, lb)),
        ),
    decreases children.len(),
{
    lemma_narrows_matches(children, input, longer, la, lb);
    lemma_subsequence_names(completion_matches(children, longer, la), completion_matches(children, input, lb));
}

/// The names of a subsequence form a subsequence of the names.
proof fn lemma_subsequence_names(a: Seq<(Seq<char>, bool)>, b: Seq<(Seq<char>, bool)>)
    requires
        is_subsequence(a, b),
    ensures
        is_subsequence(match_names(a), match_names(b)),
    decreases b.len(),
{
    if a.len() > 0 && b.len() > 0 {
        assert(match_names(a).drop_last() =~= match_names(a.drop_last()));
        assert(match_names(b).drop_last() =~= match_names(b.drop_last()));
        if a.last() == b.last() {
            lemma_subsequence_names(a.drop_last(), b.drop_last());
        } else {
            lemma_subsequence_names(a, b.drop_last());
            if match_names(a).last() == match_names(b).last() {
                lemma_subsequence_drop_last(a, b.drop_last());
                lemma_subsequence_names(a.drop_last(), b.drop_last());
            }
        }
    }
}

/// The matches of `lemma_completion_narrows`.
proof fn lemma_narrows_matches<L: AccessLevel>(
    children: Seq<Node<L>>,
    input: Seq<char>,
    longer: Seq<char>,
    la: Option<L>,
    lb: Option<L>,
)
    requires
        is_prefix(input, longer),
        forall|l: L| #[trigger] allows(la, l) ==> allows(lb, l),
    ensures
        is_subsequence(completion_matches(children, longer, la), completion_matches(children, input, lb)),
    decreases children.len(),
{
    if children.len() > 0 {
        let rest = children.drop_last();
        let n = children.last();
        lemma_narrows_matches(rest, input, longer, la, lb);
        let ma = completion_matches(rest, longer, la);
        let mb = completion_matches(rest, input, lb);
        let x = (n.spec_name(), n is Directory);
        if allows(la, n.spec_level()) && is_prefix(longer, n.spec_name()) {
            lemma_prefix_trans(input, longer, n.spec_name());
            assert(allows(lb, n.spec_level()));
            assert(ma.push(x).drop_last() =~= ma);
            assert(mb.push(x).drop_last() =~= mb);
        } else if allows(lb, n.spec_level()) && is_prefix(input, n.spec_name()) {
            lemma_subsequence_push(ma, mb, x);
        }
    }
}

/// Whether all `names` have a character at `k` equal to that of the first.
pub open spec fn agree_at(names: Seq<Seq<char>>, k: nat) -> bool {
    forall|j: int| 0 <= j < names.len() ==> k < (#[trigger] names[j]).len() && names[j][k as int] == names[0][k as int]
}

/// Length of the common prefix of `names` counted from position `k`.
pub open spec fn common_len_from(names: Seq<Seq<char>>, k: nat) -> nat
    decreases names[0].len() - k,
{
    if names.len() > 0 && k < names[0].len() && agree_at(names, k) {
        common_len_from(names, k + 1)
    } else {
        k
    }
}

/// Longest common prefix of `names` (empty when there are none).
pub open spec fn common_prefix(names: Seq<Seq<char>>) -> Seq<char> {
    if names.len() == 0 {
        Seq::empty()
    } else {
        names[0].take(common_len_from(names, 0) as int)
    }
}

/// The names of `matches`.
pub open spec fn match_names(matches: Seq<(Seq<char>, bool)>) -> Seq<Seq<char>> {
    matches.map_values(|m: (Seq<char>, bool)| m.0)
}

/// Completion of `input` among `children` for a user at `user_level`,
/// with room for `max` matches.
pub open spec fn completion_spec<L: AccessLevel>(
    children: Seq<Node<L>>,
    input: Seq<char>,
    user_level: Option<L>,
    max: nat,
) -> Result<CompletionModel, CliError> {
    let ms = completion_matches(children, input, user_level);
    if ms.len() > max {
        Err(CliError::BufferFull)
    } else if ms.len() == 0 {
        Ok(empty_model())
    } else if ms.len() == 1 {
        let (name, is_dir) = ms[0];
        let completion = if is_dir {
            name.push('/')
        } else {
            name
        };
        if utf8_len(completion) > COMPLETION_CAPACITY || utf8_len(name) > MATCH_CAPACITY {
            Err(CliError::BufferFull)
        } else {
            Ok(
                CompletionModel {
                    completion,
                    is_complete: true,
                    is_directory: is_dir,
                    matches: seq![name],
                },
            )
        }
    } else {
        let names = match_names(ms);
        let prefix = common_prefix(names);
        if utf8_len(prefix) > COMPLETION_CAPACITY || exists|i: int|
            0 <= i < names.len() && utf8_len(#[trigger] names[i]) > MATCH_CAPACITY {
            Err(CliError::BufferFull)
        } else {
            Ok(
                CompletionModel {
                    completion: prefix,
                    is_complete: false,
                    is_directory: false,
                    matches: names,
                },
            )
        }
    }
}

/// The search for the common length from `k` ends at `k` or later, where
/// the names stop agreeing (or the first name ends), and they agree at
/// every position before it from `k` on.
proof fn lemma_common_len(names: Seq<Seq<char>>, k: nat)
    requires
        names.len() > 0,
        k <= names[0].len(),
    ensures
        k <= common_len_from(names, k) <= names[0].len(),
        forall|p: nat| k <= p < common_len_from(names, k) ==> #[trigger] agree_at(names, p),
        !(common_len_from(names, k) < names[0].len() && agree_at(names, common_len_from(names, k))),
    decreases names[0].len() - k,
{
    if k < names[0].len() && agree_at(names, k) {
        lemma_common_len(names, k + 1);
    }
}

/// Where the names agree at every position in `[k, q)`, the common length
/// from `k` reaches `q`.
proof fn lemma_common_len_reaches(names: Seq<Seq<char>>, k: nat, q: nat)
    requires
        names.len() > 0,
        k <= q <= names[0].len(),
        forall|p: nat| k <= p < q ==> #[trigger] agree_at(names, p),
    ensures
        q <= common_len_from(names, k),
    decreases q - k,
{
    lemma_common_len(names, k);
    if k < q {
        assert(agree_at(names, k));
        assert(k < names[0].len());
        assert(common_len_from(names, k) == common_len_from(names, (k + 1) as nat));
        lemma_common_len_reaches(names, (k + 1) as nat, q);
    }
}

/// Every match starts with the input.
proof fn lemma_matches_start_with_input<L: AccessLevel>(children: Seq<Node<L>>, input: Seq<char>, lvl: Option<L>)
    ensures
        forall|j: int|
            0 <= j < completion_matches(children, input, lvl).len() ==> is_prefix(
                input,
                (#[trigger] completion_matches(children, input, lvl)[j]).0,
            ),
    decreases children.len(),
{
    if children.len() > 0 {
        lemma_matches_start_with_input(children.drop_last(), input, lvl);
        let prev = completion_matches(children.drop_last(), input, lvl);
        let cur = completion_matches(children, input, lvl);
        assert forall|j: int| 0 <= j < cur.len() implies is_prefix(input, (#[trigger] cur[j]).0) by {
            if j < prev.len() {
                assert(cur[j] == prev[j]);
            }
        }
    }
}

/// Tab completion: a single match completes to its name (a directory's
/// with `/`), which starts with the input; with several matches the completion is their longest
/// common prefix: it extends the typed input, every match starts with it,
/// and no longer text starts them all (one match ends there, or two
/// differ at the next character).
pub proof fn lemma_completion_common_prefix<L: AccessLevel>(
    children: Seq<Node<L>>,
    input: Seq<char>,
    lvl: Option<L>,
    max: nat,
)
    ensures
        completion_spec(children, input, lvl, max) matches Ok(m) ==> {
            &&& m.matches.len() == 1 ==> m.is_complete && m.completion == (if m.is_directory {
                m.matches[0].push('/')
            } else {
                m.matches[0]
            }) && is_prefix(input, m.matches[0])
            &&& m.matches.len() >= 2 ==> {
                &&& !m.is_complete
                &&& is_prefix(input, m.completion)
                &&& forall|j: int|
                    0 <= j < m.matches.len() ==> is_prefix(m.completion, #[trigger] m.matches[j])
                        && is_prefix(input, m.matches[j])
                &&& exists|j: int|
                    0 <= j < m.matches.len() && !(m.completion.len() < (#[trigger] m.matches[j]).len()
                        && m.matches[j][m.completion.len() as int] == m.matches[0][m.completion.len() as int])
            }
        },
{
    let ms = completion_matches(children, input, lvl);
    lemma_matches_start_with_input(children, input, lvl);
    if let Ok(m) = completion_spec(children, input, lvl, max) {
        if ms.len() == 1 {
            assert(is_prefix(input, ms[0].0));
        }
        if ms.len() >= 2 {
            let names = match_names(ms);
            lemma_matches_start_with_input(children, input, lvl);
            assert forall|j: int| 0 <= j < names.len() implies is_prefix(input, #[trigger] names[j]) by {
                assert(names[j] == ms[j].0);
            }
            lemma_common_len(names, 0);
            let c = common_len_from(names, 0);
            assert(m.completion == names[0].take(c as int));
            assert forall|j: int| 0 <= j < names.len() implies is_prefix(m.completion, #[trigger] names[j]) by {
                if c > 0 {
                    assert(agree_at(names, (c - 1) as nat));
                }
                assert forall|p: int| 0 <= p < c implies names[j][p] == names[0][p] by {
                    assert(agree_at(names, p as nat));
                }
                assert(names[j].take(c as int) =~= m.completion);
            }
            assert forall|p: nat| 0 <= p < input.len() implies #[trigger] agree_at(names, p) by {
                assert forall|j: int| 0 <= j < names.len() implies p < (#[trigger] names[j]).len()
                    && names[j][p as int] == names[0][p as int] by {
                    assert(is_prefix(input, names[j]));
                    assert(is_prefix(input, names[0]));
                    assert(names[j].take(input.len() as int)[p as int] == names[j][p as int]);
                    assert(names[0].take(input.len() as int)[p as int] == names[0][p as int]);
                }
            }
            assert(is_prefix(input, names[0]));
            lemma_common_len_reaches(names, 0, input.len());
            assert(m.completion.take(input.len() as int) =~= names[0].take(input.len() as int));
            if c < names[0].len() {
                assert(!agree_at(names, c));
                let j = choose|j: int|
                    0 <= j < names.len() && !(c < (#[trigger] names[j]).len() && names[j][c as int]
                        == names[0][c as int]);
                assert(m.completion.len() == c);
            } else {
                assert(m.completion.len() == names[0].len());
                assert(!(m.completion.len() < (names[0]).len()));
            }
        }
    }
}

/// The access level of the user `current_user` refers to, if any.
pub open spec fn ref_level<L: AccessLevel>(current_user: Option<&User<L>>) -> Option<L> {
    match current_user {
        Some(u) => Some(u.access_level),
        None => None,
    }
}

/// Suggest completions of `input` among the children of `dir` that
/// `current_user` may reach.
///
/// One match completes to its name (directories with a trailing `/`);
/// several complete to their longest common prefix and are all listed.
/// Fails with `BufferFull` when there are more than `MAX_MATCHES` matches
/// or a text does not fit its buffer.
pub fn suggest_completions<L: AccessLevel, const MAX_MATCHES: usize>(
    dir: &Directory<L>,
    input: &str,
    current_user: Option<&User<L>>,
) -> (r: Result<CompletionResult<MAX_MATCHES>, CliError>)
    ensures
        ordered::<L>() || current_user is None ==> match completion_spec(
            dir.children@,
            input@,
            ref_level(current_user),
            MAX_MATCHES as nat,
        ) {
            Ok(m) => r matches Ok(res) && res.models(m),
            Err(e) => r == Err::<CompletionResult<MAX_MATCHES>, CliError>(e),
        },
{
    let ghost ul = ref_level(current_user);
    let user_level = match current_user {
        Some(u) => Some(u.access_level),
        None => None,
    };
    let input_chars = str_chars(input);
    let mut matches: Vec<(&'static str, bool)> = Vec::new();
    let mut i: usize = 0;
    while i < dir.children.len()
        invariant
            i <= dir.children@.len(),
            user_level == ul,
            ul == ref_level(current_user),
            input_chars@ == input@,
            matches@.len() <= MAX_MATCHES,
            ordered::<L>() || current_user is None ==> match_names(matches@.map_values(|m: (&'static str, bool)| (m.0@, m.1)))
                == match_names(completion_matches(dir.children@.take(i as int), input@, ul)),
            ordered::<L>() || current_user is None ==> matches@.map_values(|m: (&'static str, bool)| (m.0@, m.1))
                == completion_matches(dir.children@.take(i as int), input@, ul),
        decreases dir.children.len() - i,
    {
        let child = &dir.children[i];
        assert(dir.children@.take(i + 1).drop_last() =~= dir.children@.take(i as int));
        assert(dir.children@.take(i + 1).last() == dir.children@[i as int]);
        let level = child.access_level();
        let ok = level_allows(user_level, level);
        if ok {
            let name = child.name();
            let name_chars = str_chars(name);
            if starts_with(name_chars.as_slice(), input_chars.as_slice()) {
                if matches.len() >= MAX_MATCHES {
                    proof {
                        if ordered::<L>() || current_user is None {
                            lemma_matches_grow(dir.children@, input@, ul, (i + 1) as nat);
                            let prev = completion_matches(dir.children@.take(i as int), input@, ul);
                            assert(completion_matches(dir.children@.take(i + 1), input@, ul) == prev.push(
                                (name@, child is Directory),
                            ));
                            assert(prev.len() == matches@.len());
                            assert(completion_matches(dir.children@, input@, ul).len() > MAX_MATCHES);
                            assert(completion_spec(dir.children@, input@, ul, MAX_MATCHES as nat) == Err::<CompletionModel, CliError>(CliError::BufferFull));
                        }
                    }
                    return Err(CliError::BufferFull);
                }
                let is_dir = child.is_directory();
                let ghost before = matches@;
                matches.push((name, is_dir));
                proof {
                    assert(matches@.map_values(|m: (&'static str, bool)| (m.0@, m.1)) =~= before.map_values(
                        |m: (&'static str, bool)| (m.0@, m.1),
                    ).push((name@, is_dir)));
                }
            }
        }
        proof {
            assert(match_names(matches@.map_values(|m: (&'static str, bool)| (m.0@, m.1))) =~= match_names(
                matches@.map_values(|m: (&'static str, bool)| (m.0@, m.1)),
            ));
        }
        i = i + 1;
    }
    assert(dir.children@.take(i as int) =~= dir.children@);
    let ghost ms = completion_matches(dir.children@, input@, ul);
    if matches.len() == 0 {
        return Ok(CompletionResult::empty());
    }
    if matches.len() == 1 {
        let (name, is_dir) = matches[0];
        assert(ordered::<L>() || current_user is None ==> ms[0] == (name@, is_dir));
        let mut completion: BoundedString<128> = BoundedString::new();
        proof {
            crate::text::lemma_utf8_len_empty();
            crate::text::lemma_utf8_len_push(name@, '/');
        }
        if completion.push_str(name).is_err() {
            return Err(CliError::BufferFull);
        }
        assert(completion@ =~= name@);
        if is_dir {
            if completion.push('/').is_err() {
                return Err(CliError::BufferFull);
            }
        }
        let mut match_str: BoundedString<64> = BoundedString::new();
        if match_str.push_str(name).is_err() {
            proof {
                crate::text::lemma_utf8_len_push(name@, '/');
            }
            return Err(CliError::BufferFull);
        }
        assert(match_str@ =~= name@);
        let mut all_matches: Vec<BoundedString<64>> = Vec::new();
        all_matches.push(match_str);
        let r = CompletionResult { completion, is_complete: true, is_directory: is_dir, all_matches };
        return Ok(r);
    }
    let prefix = find_common_prefix(matches.as_slice());
    assert(matches@.map_values(|m: (&'static str, bool)| m.0@) =~= match_names(
        matches@.map_values(|m: (&'static str, bool)| (m.0@, m.1)),
    ));
    let mut completion: BoundedString<128> = BoundedString::new();
    proof {
        crate::text::lemma_utf8_len_empty();
    }
    if completion.push_str(prefix).is_err() {
        return Err(CliError::BufferFull);
    }
    assert(completion@ =~= prefix@);
    let ghost names = match_names(matches@.map_values(|m: (&'static str, bool)| (m.0@, m.1)));
    let mut all_matches: Vec<BoundedString<64>> = Vec::new();
    let mut k: usize = 0;
    while k < matches.len()
        invariant
            k <= matches@.len(),
            names == match_names(matches@.map_values(|m: (&'static str, bool)| (m.0@, m.1))),
            all_matches@.len() == k,
            forall|j: int| 0 <= j < k ==> #[trigger] all_matches@[j]@ == names[j],
            forall|j: int| 0 <= j < k ==> utf8_len(#[trigger] names[j]) <= MATCH_CAPACITY,
            ordered::<L>() || current_user is None ==> names == match_names(ms),
            ms == completion_matches(dir.children@, input@, ref_level(current_user)),
        decreases matches.len() - k,
    {
        let mut s: BoundedString<64> = BoundedString::new();
        assert(names[k as int] == matches@[k as int].0@);
        if s.push_str(matches[k].0).is_err() {
            assert(utf8_len(names[k as int]) > MATCH_CAPACITY);
            assert(ordered::<L>() || current_user is None ==> names == match_names(ms));
            return Err(CliError::BufferFull);
        }
        assert(s@ =~= names[k as int]);
        all_matches.push(s);
        k = k + 1;
    }
    let r = CompletionResult { completion, is_complete: false, is_directory: false, all_matches };
    assert(ordered::<L>() || current_user is None ==> names == match_names(ms));
    Ok(r)
}

proof fn lemma_matches_grow<L: AccessLevel>(children: Seq<Node<L>>, input: Seq<char>, ul: Option<L>, k: nat)
    requires
        k <= children.len(),
    ensures
        completion_matches(children.take(k as int), input, ul).len() <= completion_matches(children, input, ul).len(),
    decreases children.len() - k,
{
    if k < children.len() {
        lemma_matches_grow(children, input, ul, k + 1);
        assert(children.take((k + 1) as int).drop_last() =~= children.take(k as int));
    } else {
        assert(children.take(k as int) =~= children);
    }
}

/// Find the longest common prefix of the names of `matches`.
pub fn find_common_prefix<'a>(matches: &[(&'a str, bool)]) -> (r: &'a str)
    ensures
        r@ == common_prefix(matches@.map_values(|m: (&'a str, bool)| m.0@)),
{
    let ghost names = matches@.map_values(|m: (&'a str, bool)| m.0@);
    if matches.len() == 0 {
        proof {
            reveal_strlit("");
        }
        assert(""@ =~= Seq::<char>::empty());
        return "";
    }
    let first = matches[0].0;
    let first_chars = str_chars(first);
    let mut all: Vec<Vec<char>> = Vec::new();
    let mut j: usize = 0;
    while j < matches.len()
        invariant
            j <= matches@.len(),
            names == matches@.map_values(|m: (&'a str, bool)| m.0@),
            all@.len() == j,
            forall|t: int| 0 <= t < j ==> #[trigger] all@[t]@ == names[t],
        decreases matches.len() - j,
    {
        all.push(str_chars(matches[j].0));
        j = j + 1;
    }
    let mut k: usize = 0;
    loop
        invariant
            names.len() == all@.len(),
            names.len() > 0,
            forall|t: int| 0 <= t < all@.len() ==> #[trigger] all@[t]@ == names[t],
            first_chars@ == names[0],
            k <= first_chars@.len(),
            common_len_from(names, 0) == common_len_from(names, k as nat),
        ensures
            k <= first_chars@.len(),
            common_len_from(names, 0) == k,
        decreases first_chars@.len() - k,
    {
        if k >= first_chars.len() {
            assert(common_len_from(names, k as nat) == k);
            break;
        }
        let ch = first_chars[k];
        let mut ok = true;
        let mut t: usize = 0;
        while t < all.len()
            invariant
                names.len() == all@.len(),
                forall|u: int| 0 <= u < all@.len() ==> #[trigger] all@[u]@ == names[u],
                first_chars@ == names[0],
                k < first_chars@.len(),
                ch == names[0][k as int],
                t <= all@.len(),
                ok == (forall|u: int| 0 <= u < t ==> k < (#[trigger] names[u]).len() && names[u][k as int] == names[0][k as int]),
            decreases all.len() - t,
        {
            let w = &all[t];
            if k >= w.len() || w[k] != ch {
                ok = false;
            }
            t = t + 1;
        }
        if !ok {
            assert(!agree_at(names, k as nat));
            assert(common_len_from(names, k as nat) == k);
            break;
        }
        assert(agree_at(names, k as nat));
        assert(common_len_from(names, k as nat) == common_len_from(names, (k + 1) as nat));
        k = k + 1;
    }
    let r = first.substring_char(0, k);
    assert(r@ =~= names[0].take(k as int));
    r
}

} // verus!
