//! Unix-style path parsing: absolute (`/system/reboot`) and relative
//! (`network/status`, `../hw`, `./cmd`) paths, split into segments.

use vstd::prelude::*;
use crate::error::CliError;
use crate::text::{
    is_sep, lemma_split_pieces_no_sep, lemma_split_pieces_nonempty, lemma_split_pieces_some,
    lemma_split_scan_extend, split_pieces, split_scan, str_chars,
};

verus! {

/// Result of parsing `input` with at most `max` segments: whether the
/// path is absolute, and its non-empty segments (`.` and `..` kept).
pub open spec fn parse_path_spec(input: Seq<char>, max: nat) -> Result<(bool, Seq<Seq<char>>), CliError> {
    if input.len() == 0 {
        Err(CliError::InvalidPath)
    } else {
        let abs = input[0] == '/';
        let rest = if abs {
            input.drop_first()
        } else {
            input
        };
        let pieces = split_pieces(rest, false, '/');
        if pieces.len() > max {
            Err(CliError::PathTooDeep)
        } else {
            Ok((abs, pieces))
        }
    }
}

/// Parsed path: absolute flag and segments, borrowing from the input.
#[derive(Debug, PartialEq)]
pub struct Path<'a, const MAX_DEPTH: usize> {
    is_absolute: bool,
    segments: Vec<&'a str>,
}

impl<'a, const MAX_DEPTH: usize> Path<'a, MAX_DEPTH> {
    /// Whether the path starts with `/`.
    pub closed spec fn spec_absolute(&self) -> bool {
        self.is_absolute
    }

    /// The segments' texts.
    pub closed spec fn spec_segments(&self) -> Seq<Seq<char>> {
        self.segments@.map_values(|s: &'a str| s@)
    }

    /// Parse path string into Path structure.
    ///
    /// Returns `InvalidPath` for empty input or `PathTooDeep` when there
    /// are more than `MAX_DEPTH` segments.
    pub fn parse(input: &'a str) -> (r: Result<Self, CliError>)
        ensures
            match parse_path_spec(input@, MAX_DEPTH as nat) {
                Ok((abs, segs)) => r matches Ok(p) && p.spec_absolute() == abs && p.spec_segments()
                    == segs,
                Err(e) => r == Err::<Self, CliError>(e),
            },
    {
        let chars = str_chars(input);
        let len = chars.len();
        if len == 0 {
            return Err(CliError::InvalidPath);
        }
        let is_absolute = chars[0] == '/';
        let offset: usize = if is_absolute {
            1
        } else {
            0
        };
        let ghost rest = input@.skip(offset as int);
        assert(is_absolute ==> rest =~= input@.drop_first());
        assert(!is_absolute ==> rest =~= input@);
        let mut segments: Vec<&'a str> = Vec::new();
        let mut cur_start: usize = offset;
        let mut i: usize = offset;
        while i < len
            invariant
                len == input@.len(),
                chars@ == input@,
                offset <= cur_start <= i <= len,
                rest == input@.skip(offset as int),
                split_scan(rest.take(i - offset), false, '/').1 == input@.subrange(
                    cur_start as int,
                    i as int,
                ),
                segments@.len() == split_scan(rest.take(i - offset), false, '/').0.len(),
                forall|j: int|
                    0 <= j < segments@.len() ==> #[trigger] segments@[j]@ == split_scan(
                        rest.take(i - offset),
                        false,
                        '/',
                    ).0[j],
            decreases len - i,
        {
            assert(rest.take(i + 1 - offset).drop_last() =~= rest.take(i - offset));
            assert(rest.take(i + 1 - offset).last() == input@[i as int]);
            if chars[i] == '/' {
                if i > cur_start {
                    let seg = input.substring_char(cur_start, i);
                    segments.push(seg);
                }
                cur_start = i + 1;
                assert(input@.subrange(cur_start as int, i + 1) =~= Seq::<char>::empty());
            } else {
                assert(input@.subrange(cur_start as int, i + 1) =~= input@.subrange(
                    cur_start as int,
                    i as int,
                ).push(input@[i as int]));
            }
            i = i + 1;
        }
        assert(rest.take(len - offset) =~= rest);
        if len > cur_start {
            let seg = input.substring_char(cur_start, len);
            segments.push(seg);
        }
        if segments.len() > MAX_DEPTH {
            return Err(CliError::PathTooDeep);
        }
        let p = Path { is_absolute, segments };
        assert(p.spec_segments() =~= split_pieces(rest, false, '/'));
        Ok(p)
    }

    /// Returns true if this is an absolute path (starts with `/`).
    pub fn is_absolute(&self) -> (r: bool)
        ensures
            r == self.spec_absolute(),
    {
        self.is_absolute
    }

    /// Get path segments as slice.
    pub fn segments(&self) -> (r: &[&'a str])
        ensures
            r@.map_values(|s: &'a str| s@) == self.spec_segments(),
    {
        self.segments.as_slice()
    }

    /// Returns the number of segments in this path.
    pub fn segment_count(&self) -> (r: usize)
        ensures
            r == self.spec_segments().len(),
    {
        self.segments.len()
    }
}

/// A successfully parsed path never has more than the allowed number of
/// segments, and no segment is empty.
pub proof fn lemma_parsed_segments_bounded(input: Seq<char>, max: nat)
    ensures
        parse_path_spec(input, max) matches Ok((abs, segs)) ==> segs.len() <= max && forall|i: int|
            0 <= i < segs.len() ==> (#[trigger] segs[i]).len() > 0,
{
    if input.len() > 0 {
        let rest = if input[0] == '/' {
            input.drop_first()
        } else {
            input
        };
        crate::text::lemma_split_pieces_nonempty(rest, false, '/');
    }
}

/// The segments joined with `/`.
pub open spec fn join_segments(segs: Seq<Seq<char>>) -> Seq<char>
    decreases segs.len(),
{
    if segs.len() == 0 {
        Seq::empty()
    } else if segs.len() == 1 {
        segs[0]
    } else {
        join_segments(segs.drop_last()) + seq!['/'] + segs.last()
    }
}

/// The normalized text of a path: `/` for an absolute one, then its
/// segments joined with `/`.
pub open spec fn path_text(abs: bool, segs: Seq<Seq<char>>) -> Seq<char> {
    (if abs {
        seq!['/']
    } else {
        Seq::empty()
    }) + join_segments(segs)
}

/// Whether every segment is non-empty and free of `/`.
pub open spec fn plain_segments(segs: Seq<Seq<char>>) -> bool {
    &&& forall|i: int| 0 <= i < segs.len() ==> (#[trigger] segs[i]).len() > 0
    &&& forall|i: int, j: int| 0 <= i < segs.len() && 0 <= j < segs[i].len() ==> #[trigger] segs[i][j] != '/'
}

/// Scanning joined plain segments finishes all but the last and builds
/// the last.
proof fn lemma_scan_joined(segs: Seq<Seq<char>>)
    requires
        segs.len() > 0,
        plain_segments(segs),
    ensures
        split_scan(join_segments(segs), false, '/') == (segs.drop_last(), segs.last()),
        join_segments(segs).len() > 0,
        join_segments(segs)[0] == segs[0][0],
    decreases segs.len(),
{
    let last = segs.last();
    assert forall|i: int| 0 <= i < last.len() implies !is_sep(#[trigger] last[i], false, '/') by {
        assert(segs[segs.len() - 1][i] != '/');
    }
    if segs.len() == 1 {
        lemma_split_scan_extend(Seq::empty(), last, false, '/');
        assert(Seq::<char>::empty() + last =~= last);
        assert(Seq::<char>::empty() + last =~= last);
        assert(segs.drop_last() =~= Seq::<Seq<char>>::empty());
    } else {
        let front = segs.drop_last();
        assert forall|i: int| 0 <= i < front.len() implies (#[trigger] front[i]).len() > 0 by {
            assert(front[i] == segs[i]);
        }
        assert forall|i: int, j: int| 0 <= i < front.len() && 0 <= j < front[i].len() implies #[trigger] front[i][j]
            != '/' by {
            assert(front[i] == segs[i]);
        }
        lemma_scan_joined(front);
        let head = join_segments(front) + seq!['/'];
        assert(head.drop_last() =~= join_segments(front));
        assert(front.drop_last().push(front.last()) =~= front);
        assert(split_scan(head, false, '/') == (front, Seq::<char>::empty()));
        lemma_split_scan_extend(head, last, false, '/');
        assert(Seq::<char>::empty() + last =~= last);
        assert(join_segments(segs) == head + last);
        assert(front[0] == segs[0]);
    }
}

/// Splitting joined plain segments at `/` gives them back.
proof fn lemma_split_joined(segs: Seq<Seq<char>>)
    requires
        plain_segments(segs),
    ensures
        split_pieces(join_segments(segs), false, '/') == segs,
{
    if segs.len() > 0 {
        lemma_scan_joined(segs);
        assert(segs.drop_last().push(segs.last()) =~= segs);
    }
}

/// Parsing the normalized text of a parsed path gives the same path.
pub proof fn lemma_reparse_normalized(input: Seq<char>, max: nat)
    ensures
        parse_path_spec(input, max) matches Ok((abs, segs)) ==> parse_path_spec(path_text(abs, segs), max)
            == Ok::<(bool, Seq<Seq<char>>), CliError>((abs, segs)),
{
    if let Ok((abs, segs)) = parse_path_spec(input, max) {
        let rest = if abs {
            input.drop_first()
        } else {
            input
        };
        lemma_split_pieces_nonempty(rest, false, '/');
        lemma_split_pieces_no_sep(rest, false, '/');
        assert(plain_segments(segs));
        lemma_split_joined(segs);
        let t = path_text(abs, segs);
        if abs {
            assert(t.drop_first() =~= join_segments(segs));
        } else {
            lemma_split_pieces_some(input, false, '/');
            lemma_scan_joined(segs);
            assert(t =~= join_segments(segs));
        }
    }
}

} // verus!
