//! Character I/O: the platform-agnostic interface through which the shell
//! reads input and writes output.

use vstd::prelude::*;
use crate::text::str_chars;

verus! {

/// Platform-agnostic, non-blocking character I/O.
///
/// Bare-metal targets may write immediately; asynchronous platforms
/// buffer output and flush it elsewhere.
///
/// `puts` states what writing a character does: `put_char` ends only in
/// a state and a result that `puts` allows.
pub trait CharIo: Sized {
    /// Platform-specific error type
    type Error;

    /// Whether `after` is this I/O, and `r` the result, once `c` was
    /// written to it. An I/O that does not define it states nothing of
    /// its writes.
    open spec fn puts(&self, c: char, after: Self, r: Result<(), Self::Error>) -> bool {
        true
    }

    /// Read a character if one is available (`Ok(None)` otherwise).
    fn get_char(&mut self) -> Result<Option<char>, Self::Error>;

    /// Write a character to the output.
    fn put_char(&mut self, c: char) -> (r: Result<(), Self::Error>)
        ensures
            old(self).puts(c, *final(self), r),
    ;

    /// Write a string to the output; by default one `put_char` per
    /// character, in order, stopping at the first error.
    ///
    /// For the default: some `states` and `results` trace the writes. The
    /// `i`-th write, of `s[i]`, takes `states[i]` to `states[i + 1]` with
    /// `results[i]`; every write but the last succeeded; either the last
    /// one failed and its error is returned, or every character was
    /// written and the result is `Ok`; the I/O ends in the last state.
    fn write_str(&mut self, s: &str) -> (r: Result<(), Self::Error>)
        default_ensures
            exists|states: Seq<Self>, results: Seq<Result<(), Self::Error>>|
                #![trigger states.len(), results.len()]
                {
                    let n = results.len();
                    &&& n <= s@.len()
                    &&& states.len() == n + 1
                    &&& states[0] == *old(self)
                    &&& states[n as int] == *final(self)
                    &&& forall|i: int| 0 <= i < n ==> states[i].puts(s@[i], states[i + 1], #[trigger] results[i])
                    &&& forall|i: int| 0 <= i < n - 1 ==> #[trigger] results[i] is Ok
                    &&& if n > 0 && results[n - 1] is Err {
                        r == results[n - 1]
                    } else {
                        n == s@.len() && r is Ok
                    }
                },
    {
        let chars = str_chars(s);
        let ghost mut states: Seq<Self> = seq![*self];
        let ghost mut results: Seq<Result<(), Self::Error>> = Seq::empty();
        let mut i: usize = 0;
        while i < chars.len()
            invariant
                chars@ == s@,
                i <= chars@.len(),
                results.len() == i,
                states.len() == i + 1,
                states[0] == *old(self),
                states[i as int] == *self,
                forall|k: int| 0 <= k < i ==> states[k].puts(s@[k], states[k + 1], #[trigger] results[k]),
                forall|k: int| 0 <= k < i ==> #[trigger] results[k] is Ok,
            decreases chars.len() - i,
        {
            let r = self.put_char(chars[i]);
            proof {
                states = states.push(*self);
                results = results.push(r);
            }
            match r {
                Err(e) => {
                    let ghost n = results.len();
                    assert(n == i + 1);
                    let ret: Result<(), Self::Error> = Err(e);
                    assert(exists|st: Seq<Self>, rs: Seq<Result<(), Self::Error>>|
                        #![trigger st.len(), rs.len()]
                        {
                            let m = rs.len();
                            &&& m <= s@.len()
                            &&& st.len() == m + 1
                            &&& st[0] == *old(self)
                            &&& st[m as int] == *self
                            &&& forall|k: int| 0 <= k < m ==> st[k].puts(s@[k], st[k + 1], #[trigger] rs[k])
                            &&& forall|k: int| 0 <= k < m - 1 ==> #[trigger] rs[k] is Ok
                            &&& if m > 0 && rs[m - 1] is Err {
                                ret == rs[m - 1]
                            } else {
                                m == s@.len() && ret is Ok
                            }
                        }) by {
                        assert(states.len() == n + 1 && results.len() == n);
                    }
                    return ret;
                },
                Ok(()) => {},
            }
            i = i + 1;
        }
        Ok(())
    }
}

} // verus!
