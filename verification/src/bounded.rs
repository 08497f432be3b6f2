//! Fixed-capacity text: a string that never grows beyond `N` bytes of
//! UTF-8, and refuses (rather than truncates) what would not fit.

use vstd::prelude::*;
use crate::text::{char_width, char_width_of, lemma_utf8_len_append, lemma_utf8_len_push, str_chars, string_push, utf8_len};

verus! {

/// `String::pop`: removes and returns the last character, or `None` when
/// the string is empty.
#[verifier::external_body]
fn string_pop(s: &mut String) -> (r: Option<char>)
    ensures
        old(s)@.len() == 0 ==> r is None && final(s)@ == old(s)@,
        old(s)@.len() > 0 ==> r == Some(old(s)@.last()) && final(s)@ == old(s)@.drop_last(),
{
    s.pop()
}

/// `String::clear`: empties the string.
#[verifier::external_body]
fn string_clear(s: &mut String)
    ensures
        final(s)@ == Seq::<char>::empty(),
{
    s.clear();
}

/// A string of at most `N` bytes of UTF-8.
#[derive(Debug, Clone, PartialEq, Eq, Default)]
pub struct BoundedString<const N: usize> {
    text: String,
}

impl<const N: usize> View for BoundedString<N> {
    type V = Seq<char>;

    closed spec fn view(&self) -> Seq<char> {
        self.text@
    }
}

impl<const N: usize> BoundedString<N> {
    /// An empty string.
    pub fn new() -> (r: Self)
        ensures
            r@ == Seq::<char>::empty(),
    {
        BoundedString { text: String::new() }
    }

    /// The capacity in bytes.
    pub fn capacity(&self) -> (r: usize)
        ensures
            r == N,
    {
        N
    }

    /// The text's length in bytes.
    pub fn len(&self) -> (r: usize)
        ensures
            r == utf8_len(self@),
    {
        self.text.as_str().as_bytes().len()
    }

    /// Whether the text is empty.
    pub fn is_empty(&self) -> (r: bool)
        ensures
            r == (self@.len() == 0),
    {
        let v = str_chars(self.text.as_str());
        v.len() == 0
    }

    /// The text as a string slice.
    pub fn as_str(&self) -> (r: &str)
        ensures
            r@ == self@,
    {
        self.text.as_str()
    }

    /// The characters of the text.
    pub fn to_chars(&self) -> (r: Vec<char>)
        ensures
            r@ == self@,
    {
        str_chars(self.text.as_str())
    }

    /// Appends `c` when it fits, else fails and leaves the text as it was.
    pub fn push(&mut self, c: char) -> (r: Result<(), ()>)
        ensures
            r is Ok <==> utf8_len(old(self)@) + char_width(c) <= N,
            r is Ok ==> final(self)@ == old(self)@.push(c),
            r is Err ==> final(self)@ == old(self)@,
    {
        let used = self.len();
        let w = char_width_of(c);
        if used > N || w > N - used {
            return Err(());
        }
        proof {
            lemma_utf8_len_push(self.text@, c);
        }
        string_push(&mut self.text, c);
        Ok(())
    }

    /// Appends all of `s` when it fits, else fails and leaves the text as
    /// it was.
    pub fn push_str(&mut self, s: &str) -> (r: Result<(), ()>)
        ensures
            r is Ok <==> utf8_len(old(self)@) + utf8_len(s@) <= N,
            r is Ok ==> final(self)@ == old(self)@ + s@,
            r is Err ==> final(self)@ == old(self)@,
    {
        let v = str_chars(s);
        self.push_chars(v.as_slice())
    }

    /// Appends all of `v` when it fits, else fails and leaves the text as
    /// it was.
    pub fn push_chars(&mut self, v: &[char]) -> (r: Result<(), ()>)
        ensures
            r is Ok <==> utf8_len(old(self)@) + utf8_len(v@) <= N,
            r is Ok ==> final(self)@ == old(self)@ + v@,
            r is Err ==> final(self)@ == old(self)@,
    {
        let used = self.len();
        if used > N {
            return Err(());
        }
        let mut need: usize = 0;
        let mut i: usize = 0;
        while i < v.len()
            invariant
                i <= v@.len(),
                need == utf8_len(v@.take(i as int)),
                need <= N - used,
                used == utf8_len(old(self)@),
                used <= N,
                self@ == old(self)@,
            decreases v.len() - i,
        {
            proof {
                lemma_utf8_len_push(v@.take(i as int), v@[i as int]);
                assert(v@.take(i as int).push(v@[i as int]) =~= v@.take(i + 1));
            }
            let w = char_width_of(v[i]);
            if w > N - used - need {
                proof {
                    crate::text::lemma_utf8_len_prefix(v@, i + 1);
                }
                return Err(());
            }
            need = need + w;
            i = i + 1;
        }
        assert(v@.take(i as int) =~= v@);
        let ghost start = self.text@;
        let mut j: usize = 0;
        while j < v.len()
            invariant
                j <= v@.len(),
                self.text@ == start + v@.take(j as int),
                utf8_len(start) + utf8_len(v@) <= N,
            decreases v.len() - j,
        {
            string_push(&mut self.text, v[j]);
            assert(start + v@.take(j + 1) =~= (start + v@.take(j as int)).push(v@[j as int]));
            j = j + 1;
            proof {
                lemma_utf8_len_append(start, v@.take(j as int));
                crate::text::lemma_utf8_len_prefix(v@, j as int);
            }
        }
        assert(v@.take(j as int) =~= v@);
        Ok(())
    }

    /// Removes and returns the last character, if any.
    pub fn pop(&mut self) -> (r: Option<char>)
        ensures
            old(self)@.len() == 0 ==> r is None && final(self)@ == old(self)@,
            old(self)@.len() > 0 ==> r == Some(old(self)@.last()) && final(self)@ == old(
                self,
            )@.drop_last(),
    {
        string_pop(&mut self.text)
    }

    /// Empties the text.
    pub fn clear(&mut self)
        ensures
            final(self)@ == Seq::<char>::empty(),
    {
        string_clear(&mut self.text);
    }

    /// A copy of this string.
    pub fn duplicate(&self) -> (r: Self)
        ensures
            r@ == self@,
    {
        BoundedString { text: self.text.clone() }
    }

    /// A string holding `v` when it fits in `N` bytes.
    pub fn from_chars(v: &[char]) -> (r: Option<Self>)
        ensures
            r is Some <==> utf8_len(v@) <= N,
            r matches Some(b) ==> b@ == v@,
    {
        let mut b = Self::new();
        proof {
            crate::text::lemma_utf8_len_empty();
        }
        match b.push_chars(v) {
            Ok(()) => {
                assert(Seq::<char>::empty() + v@ =~= v@);
                Some(b)
            },
            Err(()) => {
                assert(Seq::<char>::empty() + v@ =~= v@);
                None
            },
        }
    }
}

} // verus!
