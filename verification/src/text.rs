//! Character-level text helpers shared by the parsers and the shell.
//!
//! Text is modelled as `Seq<char>`. Byte capacities follow UTF-8, the
//! encoding that Rust strings use, through `vstd::utf8::encode_utf8`.

use vstd::prelude::*;
use vstd::utf8::*;

verus! {

broadcast use vstd::utf8::char_is_scalar;

/// Number of bytes in the UTF-8 encoding of `c`.
pub open spec fn char_width(c: char) -> nat {
    encode_scalar(c as u32).len()
}

/// Number of bytes in the UTF-8 encoding of `s`.
pub open spec fn utf8_len(s: Seq<char>) -> nat {
    encode_utf8(s).len()
}

/// Encoding distributes over concatenation.
pub proof fn lemma_encode_append(a: Seq<char>, b: Seq<char>)
    ensures
        encode_utf8(a + b) == encode_utf8(a) + encode_utf8(b),
    decreases a.len(),
{
    if a.len() == 0 {
        assert(a + b =~= b);
        assert(encode_utf8(a) =~= Seq::<u8>::empty());
        assert(encode_utf8(a) + encode_utf8(b) =~= encode_utf8(b));
    } else {
        lemma_encode_append(a.drop_first(), b);
        assert((a + b).drop_first() =~= a.drop_first() + b);
        assert((a + b)[0] == a[0]);
        assert(encode_utf8(a + b) =~= encode_utf8(a) + encode_utf8(b));
    }
}

/// The byte length of a concatenation is the sum of the byte lengths.
pub proof fn lemma_utf8_len_append(a: Seq<char>, b: Seq<char>)
    ensures
        utf8_len(a + b) == utf8_len(a) + utf8_len(b),
{
    lemma_encode_append(a, b);
}

/// Appending one character adds its width.
pub proof fn lemma_utf8_len_push(s: Seq<char>, c: char)
    ensures
        utf8_len(s.push(c)) == utf8_len(s) + char_width(c),
{
    lemma_encode_append(s, seq![c]);
    assert(s.push(c) =~= s + seq![c]);
    let one = seq![c];
    assert(one.drop_first() =~= Seq::<char>::empty());
    assert(one[0] == c);
    assert(encode_utf8(Seq::<char>::empty()) =~= Seq::<u8>::empty());
    assert(encode_utf8(one) == encode_scalar(one[0] as u32) + encode_utf8(one.drop_first()));
    assert(encode_utf8(one) =~= encode_scalar(c as u32));
}

/// The empty text has no bytes.
pub proof fn lemma_utf8_len_empty()
    ensures
        utf8_len(Seq::<char>::empty()) == 0,
{
}

/// The byte length of a prefix never exceeds that of the whole.
pub proof fn lemma_utf8_len_prefix(s: Seq<char>, n: int)
    requires
        0 <= n <= s.len(),
    ensures
        utf8_len(s.take(n)) <= utf8_len(s),
{
    lemma_utf8_len_append(s.take(n), s.skip(n));
    assert(s.take(n) + s.skip(n) =~= s);
}

/// The width of `c` in UTF-8.
pub fn char_width_of(c: char) -> (n: usize)
    ensures
        n == char_width(c),
        1 <= n <= 4,
{
    let v = c as u32;
    if v <= 0x7F {
        1
    } else if v <= 0x7FF {
        2
    } else if v <= 0xFFFF {
        3
    } else {
        4
    }
}

/// Unicode `White_Space`, the set that `char::is_whitespace` tests.
pub open spec fn is_ws(c: char) -> bool {
    let v = c as u32;
    ||| 0x09 <= v <= 0x0D
    ||| v == 0x20
    ||| v == 0x85
    ||| v == 0xA0
    ||| v == 0x1680
    ||| 0x2000 <= v <= 0x200A
    ||| v == 0x2028
    ||| v == 0x2029
    ||| v == 0x202F
    ||| v == 0x205F
    ||| v == 0x3000
}

/// Whether `c` is whitespace.
pub fn is_whitespace(c: char) -> (r: bool)
    ensures
        r == is_ws(c),
{
    let v = c as u32;
    (0x09 <= v && v <= 0x0D) || v == 0x20 || v == 0x85 || v == 0xA0 || v == 0x1680 || (0x2000 <= v
        && v <= 0x200A) || v == 0x2028 || v == 0x2029 || v == 0x202F || v == 0x205F || v == 0x3000
}

/// Unicode general category `Cc`, the set that `char::is_control` tests.
pub open spec fn is_ctrl(c: char) -> bool {
    let v = c as u32;
    v <= 0x1F || (0x7F <= v && v <= 0x9F)
}

/// Whether `c` is a control character.
pub fn is_control(c: char) -> (r: bool)
    ensures
        r == is_ctrl(c),
{
    let v = c as u32;
    v <= 0x1F || (0x7F <= v && v <= 0x9F)
}

/// The characters of a string slice.
pub fn str_chars(s: &str) -> (v: Vec<char>)
    ensures
        v@ == s@,
{
    let mut v: Vec<char> = Vec::new();
    for c in it: s.chars()
        invariant
            it.seq() == s@,
            v@ == it.seq().take(it.index() as int),
    {
        v.push(c);
    }
    v
}

/// Appends `c` to `s` (`String::push`).
#[verifier::external_body]
pub(crate) fn string_push(s: &mut String, c: char)
    ensures
        final(s)@ == old(s)@.push(c),
{
    s.push(c);
}

/// A string holding the given characters.
pub fn chars_to_string(v: &[char]) -> (s: String)
    ensures
        s@ == v@,
{
    let mut s = String::new();
    let mut i: usize = 0;
    while i < v.len()
        invariant
            i <= v@.len(),
            s@ == v@.take(i as int),
        decreases v.len() - i,
    {
        string_push(&mut s, v[i]);
        assert(v@.take(i as int).push(v@[i as int]) =~= v@.take(i + 1));
        i = i + 1;
    }
    assert(v@.take(i as int) =~= v@);
    s
}

/// Appends all of `src` to `dst`.
pub fn push_chars(dst: &mut Vec<char>, src: &[char])
    ensures
        final(dst)@ == old(dst)@ + src@,
{
    let mut i: usize = 0;
    while i < src.len()
        invariant
            i <= src@.len(),
            dst@ == old(dst)@ + src@.take(i as int),
        decreases src.len() - i,
    {
        dst.push(src[i]);
        assert(src@.take(i as int).push(src@[i as int]) =~= src@.take(i + 1));
        assert(old(dst)@ + src@.take(i + 1) =~= (old(dst)@ + src@.take(i as int)).push(src@[i as int]));
        i = i + 1;
    }
    assert(src@.take(i as int) =~= src@);
}

/// Appends the characters of `s` to `dst`.
pub fn push_str(dst: &mut Vec<char>, s: &str)
    ensures
        final(dst)@ == old(dst)@ + s@,
{
    let v = str_chars(s);
    push_chars(dst, v.as_slice());
}

/// Whether two character sequences are equal.
pub fn chars_eq(a: &[char], b: &[char]) -> (r: bool)
    ensures
        r == (a@ == b@),
{
    if a.len() != b.len() {
        return false;
    }
    let mut i: usize = 0;
    while i < a.len()
        invariant
            a@.len() == b@.len(),
            i <= a@.len(),
            a@.take(i as int) == b@.take(i as int),
        decreases a.len() - i,
    {
        if a[i] != b[i] {
            assert(a@[i as int] != b@[i as int]);
            return false;
        }
        assert(a@.take(i + 1) =~= a@.take(i as int).push(a@[i as int]));
        assert(b@.take(i + 1) =~= b@.take(i as int).push(b@[i as int]));
        i = i + 1;
    }
    assert(a@.take(i as int) =~= a@);
    assert(b@.take(i as int) =~= b@);
    true
}

/// Whether `chars` spells the string `s`.
pub fn chars_eq_str(chars: &[char], s: &str) -> (r: bool)
    ensures
        r == (chars@ == s@),
{
    let v = str_chars(s);
    chars_eq(chars, v.as_slice())
}

/// Whether two string slices are equal.
pub fn str_eq(a: &str, b: &str) -> (r: bool)
    ensures
        r == (a@ == b@),
{
    let va = str_chars(a);
    let vb = str_chars(b);
    chars_eq(va.as_slice(), vb.as_slice())
}

/// Whether `p` is a prefix of `s`.
pub open spec fn is_prefix(p: Seq<char>, s: Seq<char>) -> bool {
    p.len() <= s.len() && s.take(p.len() as int) == p
}

/// Whether `p` is a prefix of `s`.
pub fn starts_with(s: &[char], p: &[char]) -> (r: bool)
    ensures
        r == is_prefix(p@, s@),
{
    if p.len() > s.len() {
        return false;
    }
    let mut i: usize = 0;
    while i < p.len()
        invariant
            p@.len() <= s@.len(),
            i <= p@.len(),
            s@.take(i as int) == p@.take(i as int),
        decreases p.len() - i,
    {
        if s[i] != p[i] {
            assert(s@.take(p@.len() as int)[i as int] == s@[i as int]);
            return false;
        }
        assert(s@.take(i + 1) =~= s@.take(i as int).push(s@[i as int]));
        assert(p@.take(i + 1) =~= p@.take(i as int).push(p@[i as int]));
        i = i + 1;
    }
    assert(p@.take(i as int) =~= p@);
    true
}

/// Number of occurrences of `c` in `s`.
pub open spec fn count_char(s: Seq<char>, c: char) -> nat
    decreases s.len(),
{
    if s.len() == 0 {
        0
    } else {
        count_char(s.drop_last(), c) + if s.last() == c {
            1nat
        } else {
            0nat
        }
    }
}

/// Number of occurrences of `c` in `s`.
pub fn count_of(s: &[char], c: char) -> (n: usize)
    ensures
        n == count_char(s@, c),
{
    let mut n: usize = 0;
    let mut i: usize = 0;
    while i < s.len()
        invariant
            i <= s@.len(),
            n == count_char(s@.take(i as int), c),
            n <= i,
        decreases s.len() - i,
    {
        assert(s@.take(i + 1).drop_last() =~= s@.take(i as int));
        if s[i] == c {
            n = n + 1;
        }
        i = i + 1;
    }
    assert(s@.take(i as int) =~= s@);
    n
}

/// Text without leading whitespace.
pub open spec fn trim_start(s: Seq<char>) -> Seq<char>
    decreases s.len(),
{
    if s.len() > 0 && is_ws(s[0]) {
        trim_start(s.drop_first())
    } else {
        s
    }
}

/// Text without trailing whitespace.
pub open spec fn trim_end(s: Seq<char>) -> Seq<char>
    decreases s.len(),
{
    if s.len() > 0 && is_ws(s.last()) {
        trim_end(s.drop_last())
    } else {
        s
    }
}

/// Text without leading or trailing whitespace (`str::trim`).
pub open spec fn trim(s: Seq<char>) -> Seq<char> {
    trim_end(trim_start(s))
}

proof fn lemma_trim_start_skip(s: Seq<char>, i: int)
    requires
        0 <= i <= s.len(),
        forall|j: int| 0 <= j < i ==> is_ws(#[trigger] s[j]),
    ensures
        trim_start(s) == trim_start(s.skip(i)),
    decreases i,
{
    if i > 0 {
        assert(s.drop_first().skip(i - 1) =~= s.skip(i));
        lemma_trim_start_skip(s.drop_first(), i - 1);
    } else {
        assert(s.skip(0) =~= s);
    }
}

proof fn lemma_trim_end_take(s: Seq<char>, i: int)
    requires
        0 <= i <= s.len(),
        forall|j: int| i <= j < s.len() ==> is_ws(#[trigger] s[j]),
    ensures
        trim_end(s) == trim_end(s.take(i)),
    decreases s.len() - i,
{
    if i < s.len() {
        assert(s.drop_last().take(i) =~= s.take(i));
        lemma_trim_end_take(s.drop_last(), i);
    } else {
        assert(s.take(i) =~= s);
    }
}

/// `s` with leading and trailing whitespace removed.
pub fn trimmed(s: &[char]) -> (r: Vec<char>)
    ensures
        r@ == trim(s@),
{
    let mut start: usize = 0;
    while start < s.len() && is_whitespace(s[start])
        invariant
            start <= s@.len(),
            forall|j: int| 0 <= j < start ==> is_ws(#[trigger] s@[j]),
        decreases s.len() - start,
    {
        start = start + 1;
    }
    proof {
        lemma_trim_start_skip(s@, start as int);
    }
    let ghost t = s@.skip(start as int);
    assert(trim_start(t) == t);
    let mut end: usize = s.len();
    while end > start && is_whitespace(s[end - 1])
        invariant
            start <= end <= s@.len(),
            forall|j: int| end <= j < s@.len() ==> is_ws(#[trigger] s@[j]),
        decreases end,
    {
        end = end - 1;
    }
    proof {
        let u = s@.subrange(start as int, end as int);
        assert forall|j: int| (end - start) <= j < t.len() implies is_ws(#[trigger] t[j]) by {
            assert(t[j] == s@[start + j]);
        }
        lemma_trim_end_take(t, end - start);
        assert(t.take(end - start) =~= u);
        if u.len() > 0 {
            assert(u.last() == s@[end - 1]);
        }
    }
    let mut r: Vec<char> = Vec::new();
    let mut i: usize = start;
    while i < end
        invariant
            start <= i <= end <= s@.len(),
            r@ == s@.subrange(start as int, i as int),
        decreases end - i,
    {
        r.push(s[i]);
        assert(s@.subrange(start as int, i + 1) =~= s@.subrange(start as int, i as int).push(s@[i as int]));
        i = i + 1;
    }
    r
}

/// Left-to-right scan that cuts `s` at separator characters: the
/// finished pieces (empty pieces dropped) and the piece being built.
pub open spec fn split_scan(s: Seq<char>, ws: bool, sep: char) -> (Seq<Seq<char>>, Seq<char>)
    decreases s.len(),
{
    if s.len() == 0 {
        (Seq::empty(), Seq::empty())
    } else {
        let prev = split_scan(s.drop_last(), ws, sep);
        let c = s.last();
        if is_sep(c, ws, sep) {
            (
                if prev.1.len() > 0 {
                    prev.0.push(prev.1)
                } else {
                    prev.0
                },
                Seq::empty(),
            )
        } else {
            (prev.0, prev.1.push(c))
        }
    }
}

/// Whether `c` separates pieces: whitespace when `ws`, else the character `sep`.
pub open spec fn is_sep(c: char, ws: bool, sep: char) -> bool {
    if ws {
        is_ws(c)
    } else {
        c == sep
    }
}

/// The non-empty pieces of `s` between separators (`str::split_whitespace`
/// when `ws`, else `str::split(sep)` with empty pieces dropped).
pub open spec fn split_pieces(s: Seq<char>, ws: bool, sep: char) -> Seq<Seq<char>> {
    let st = split_scan(s, ws, sep);
    if st.1.len() > 0 {
        st.0.push(st.1)
    } else {
        st.0
    }
}

/// The scan only ever finishes non-empty pieces.
pub proof fn lemma_split_scan_nonempty(s: Seq<char>, ws: bool, sep: char)
    ensures
        forall|i: int|
            0 <= i < split_scan(s, ws, sep).0.len() ==> (#[trigger] split_scan(s, ws, sep).0[i]).len() > 0,
    decreases s.len(),
{
    if s.len() > 0 {
        lemma_split_scan_nonempty(s.drop_last(), ws, sep);
        let prev = split_scan(s.drop_last(), ws, sep);
        let cur = split_scan(s, ws, sep);
        assert forall|i: int| 0 <= i < cur.0.len() implies (#[trigger] cur.0[i]).len() > 0 by {
            if i < prev.0.len() {
                assert(cur.0[i] == prev.0[i]);
            }
        }
    }
}

/// No piece is empty.
pub proof fn lemma_split_pieces_nonempty(s: Seq<char>, ws: bool, sep: char)
    ensures
        forall|i: int|
            0 <= i < split_pieces(s, ws, sep).len() ==> (#[trigger] split_pieces(s, ws, sep)[i]).len() > 0,
{
    lemma_split_scan_nonempty(s, ws, sep);
}

/// Scanning past characters that do not separate extends the piece being
/// built.
pub proof fn lemma_split_scan_extend(s: Seq<char>, p: Seq<char>, ws: bool, sep: char)
    requires
        forall|i: int| 0 <= i < p.len() ==> !is_sep(#[trigger] p[i], ws, sep),
    ensures
        split_scan(s + p, ws, sep) == (split_scan(s, ws, sep).0, split_scan(s, ws, sep).1 + p),
    decreases p.len(),
{
    if p.len() == 0 {
        assert(s + p =~= s);
        assert(split_scan(s, ws, sep).1 + p =~= split_scan(s, ws, sep).1);
    } else {
        let q = p.drop_last();
        lemma_split_scan_extend(s, q, ws, sep);
        assert((s + p).drop_last() =~= s + q);
        assert((s + p).last() == p.last());
        assert(split_scan(s, ws, sep).1 + q.push(p.last()) =~= split_scan(s, ws, sep).1 + p);
        assert((split_scan(s, ws, sep).1 + q).push(p.last()) =~= split_scan(s, ws, sep).1 + p);
    }
}

/// No piece holds a separator.
pub proof fn lemma_split_scan_no_sep(s: Seq<char>, ws: bool, sep: char)
    ensures
        forall|i: int, j: int|
            0 <= i < split_scan(s, ws, sep).0.len() && 0 <= j < split_scan(s, ws, sep).0[i].len()
                ==> !is_sep(#[trigger] split_scan(s, ws, sep).0[i][j], ws, sep),
        forall|j: int|
            0 <= j < split_scan(s, ws, sep).1.len() ==> !is_sep(#[trigger] split_scan(s, ws, sep).1[j], ws, sep),
    decreases s.len(),
{
    if s.len() > 0 {
        lemma_split_scan_no_sep(s.drop_last(), ws, sep);
        let prev = split_scan(s.drop_last(), ws, sep);
        let cur = split_scan(s, ws, sep);
        assert forall|i: int, j: int| 0 <= i < cur.0.len() && 0 <= j < cur.0[i].len() implies !is_sep(
            #[trigger] cur.0[i][j],
            ws,
            sep,
        ) by {
            if i < prev.0.len() {
                assert(cur.0[i] == prev.0[i]);
            } else {
                assert(cur.0[i] == prev.1);
            }
        }
        assert forall|j: int| 0 <= j < cur.1.len() implies !is_sep(#[trigger] cur.1[j], ws, sep) by {
            if j < prev.1.len() {
                assert(cur.1[j] == prev.1[j]);
            }
        }
    }
}

/// No piece of `split_pieces` holds a separator.
pub proof fn lemma_split_pieces_no_sep(s: Seq<char>, ws: bool, sep: char)
    ensures
        forall|i: int, j: int|
            0 <= i < split_pieces(s, ws, sep).len() && 0 <= j < split_pieces(s, ws, sep)[i].len()
                ==> !is_sep(#[trigger] split_pieces(s, ws, sep)[i][j], ws, sep),
{
    lemma_split_scan_no_sep(s, ws, sep);
    let st = split_scan(s, ws, sep);
    let ps = split_pieces(s, ws, sep);
    assert forall|i: int, j: int| 0 <= i < ps.len() && 0 <= j < ps[i].len() implies !is_sep(
        #[trigger] ps[i][j],
        ws,
        sep,
    ) by {
        if i < st.0.len() {
            assert(ps[i] == st.0[i]);
        } else {
            assert(ps[i] == st.1);
        }
    }
}

/// A text that starts with a character other than a separator has a
/// piece.
pub proof fn lemma_split_pieces_some(s: Seq<char>, ws: bool, sep: char)
    requires
        s.len() > 0,
        !is_sep(s[0], ws, sep),
    ensures
        split_pieces(s, ws, sep).len() > 0,
{
    lemma_split_scan_some(s, ws, sep);
}

/// The scan of a text that starts with a character other than a separator
/// has finished a piece or is building one.
proof fn lemma_split_scan_some(s: Seq<char>, ws: bool, sep: char)
    requires
        s.len() > 0,
        !is_sep(s[0], ws, sep),
    ensures
        split_scan(s, ws, sep).0.len() > 0 || split_scan(s, ws, sep).1.len() > 0,
    decreases s.len(),
{
    if s.len() > 1 {
        assert(s.drop_last()[0] == s[0]);
        lemma_split_scan_some(s.drop_last(), ws, sep);
    }
}

/// The non-empty pieces of `s` between separators.
pub fn split_nonempty(s: &[char], ws: bool, sep: char) -> (r: Vec<Vec<char>>)
    ensures
        r@.len() == split_pieces(s@, ws, sep).len(),
        forall|i: int| 0 <= i < r@.len() ==> #[trigger] r@[i]@ == split_pieces(s@, ws, sep)[i],
{
    let mut done: Vec<Vec<char>> = Vec::new();
    let mut cur: Vec<char> = Vec::new();
    let mut i: usize = 0;
    while i < s.len()
        invariant
            i <= s@.len(),
            done@.len() == split_scan(s@.take(i as int), ws, sep).0.len(),
            forall|k: int|
                0 <= k < done@.len() ==> #[trigger] done@[k]@ == split_scan(
                    s@.take(i as int),
                    ws,
                    sep,
                ).0[k],
            cur@ == split_scan(s@.take(i as int), ws, sep).1,
        decreases s.len() - i,
    {
        let c = s[i];
        assert(s@.take(i + 1).drop_last() =~= s@.take(i as int));
        let is_s = if ws {
            is_whitespace(c)
        } else {
            c == sep
        };
        if is_s {
            if cur.len() > 0 {
                let piece = cur;
                done.push(piece);
                cur = Vec::new();
            } else {
                cur = Vec::new();
            }
        } else {
            cur.push(c);
        }
        i = i + 1;
    }
    assert(s@.take(i as int) =~= s@);
    if cur.len() > 0 {
        done.push(cur);
    }
    done
}

/// The decimal digit for `d < 10`.
pub open spec fn digit_char(d: nat) -> char {
    ((d + 48) as u32) as char
}

/// Decimal notation of `n`, without leading zeros.
pub open spec fn decimal(n: nat) -> Seq<char>
    decreases n,
{
    if n < 10 {
        seq![digit_char(n)]
    } else {
        decimal(n / 10).push(digit_char(n % 10))
    }
}

fn digit_of(d: u128) -> (c: char)
    requires
        d < 10,
    ensures
        c == digit_char(d as nat),
{
    if d == 0 {
        '0'
    } else if d == 1 {
        '1'
    } else if d == 2 {
        '2'
    } else if d == 3 {
        '3'
    } else if d == 4 {
        '4'
    } else if d == 5 {
        '5'
    } else if d == 6 {
        '6'
    } else if d == 7 {
        '7'
    } else if d == 8 {
        '8'
    } else {
        '9'
    }
}

/// Decimal notation of `n`.
pub fn decimal_chars(n: u128) -> (v: Vec<char>)
    ensures
        v@ == decimal(n as nat),
    decreases n,
{
    if n < 10 {
        let mut v = Vec::new();
        v.push(digit_of(n));
        assert(v@ =~= seq![digit_char(n as nat)]);
        v
    } else {
        let mut v = decimal_chars(n / 10);
        v.push(digit_of(n % 10));
        v
    }
}

} // verus!
