//! Command history: a bounded list of past command lines with up/down
//! navigation.

use vstd::prelude::*;
use crate::bounded::BoundedString;
use crate::text::{str_chars, chars_eq, utf8_len};

verus! {

/// Command history storage: the last `N` command lines of at most
/// `INPUT_SIZE` bytes each, oldest first, and a navigation position.
#[derive(Debug)]
pub struct CommandHistory<const N: usize, const INPUT_SIZE: usize> {
    buffer: Vec<BoundedString<INPUT_SIZE>>,
    position: Option<usize>,
}

/// History contents after `add(cmd)` on `entries` (capacity `n`, entry
/// size `size`): empty lines and repeats of the newest entry are ignored,
/// lines that do not fit are dropped, and when full the oldest entry goes.
pub open spec fn added_entries(entries: Seq<Seq<char>>, cmd: Seq<char>, n: nat, size: nat) -> Seq<Seq<char>> {
    if cmd.len() == 0 || (entries.len() > 0 && entries.last() == cmd) || utf8_len(cmd) > size {
        entries
    } else if entries.len() >= n {
        entries.drop_first().push(cmd)
    } else {
        entries.push(cmd)
    }
}

/// Navigation position after `add(cmd)`: unchanged for an empty line or a
/// repeat of the newest entry, reset otherwise.
pub open spec fn added_position(entries: Seq<Seq<char>>, position: Option<nat>, cmd: Seq<char>) -> Option<nat> {
    if cmd.len() == 0 || (entries.len() > 0 && entries.last() == cmd) {
        position
    } else {
        None
    }
}

/// Position after moving back (up arrow) from `position`.
pub open spec fn previous_position(len: nat, position: Option<nat>) -> Option<nat> {
    if len == 0 {
        position
    } else {
        match position {
            None => Some((len - 1) as nat),
            Some(p) => if p == 0 {
                Some(0)
            } else {
                Some((p - 1) as nat)
            },
        }
    }
}

/// Position after moving forward (down arrow) from `position`.
pub open spec fn next_position(len: nat, position: Option<nat>) -> Option<nat> {
    match position {
        None => None,
        Some(p) => if p + 1 >= len {
            None
        } else {
            Some(p + 1)
        },
    }
}

impl<const N: usize, const INPUT_SIZE: usize> CommandHistory<N, INPUT_SIZE> {
    /// The stored command lines, oldest first.
    pub closed spec fn entries(&self) -> Seq<Seq<char>> {
        self.buffer@.map_values(|e: BoundedString<INPUT_SIZE>| e@)
    }

    /// The navigation position (`None` when not navigating).
    pub closed spec fn position(&self) -> Option<nat> {
        match self.position {
            None => None,
            Some(p) => Some(p as nat),
        }
    }

    /// Well-formedness: at most `N` entries, each of at most `INPUT_SIZE`
    /// bytes, and the position designates an entry.
    pub open spec fn wf(&self) -> bool {
        &&& self.entries().len() <= N
        &&& forall|i: int| 0 <= i < self.entries().len() ==> utf8_len(#[trigger] self.entries()[i]) <= INPUT_SIZE
        &&& self.position() matches Some(p) ==> p < self.entries().len()
    }

    /// Create new command history.
    pub fn new() -> (r: Self)
        ensures
            r.wf(),
            r.entries() == Seq::<Seq<char>>::empty(),
            r.position() == None::<nat>,
    {
        let r = CommandHistory { buffer: Vec::new(), position: None };
        assert(r.entries() =~= Seq::<Seq<char>>::empty());
        r
    }

    /// Add command to history.
    pub fn add(&mut self, cmd: &str)
        requires
            old(self).wf(),
            N > 0 || cmd@.len() == 0 || utf8_len(cmd@) > INPUT_SIZE,
        ensures
            final(self).wf(),
            final(self).entries() == added_entries(old(self).entries(), cmd@, N as nat, INPUT_SIZE as nat),
            final(self).position() == added_position(old(self).entries(), old(self).position(), cmd@),
    {
        let chars = str_chars(cmd);
        if chars.len() == 0 {
            return;
        }
        let len = self.buffer.len();
        if len > 0 {
            let last = self.buffer[len - 1].to_chars();
            if chars_eq(last.as_slice(), chars.as_slice()) {
                assert(self.entries().last() == cmd@);
                return;
            }
        }
        let ghost old_entries = self.entries();
        let mut entry: BoundedString<INPUT_SIZE> = BoundedString::new();
        proof {
            crate::text::lemma_utf8_len_empty();
        }
        match entry.push_str(cmd) {
            Ok(()) => {
                assert(Seq::<char>::empty() + cmd@ =~= cmd@);
                if self.buffer.len() >= N {
                    self.buffer.remove(0);
                    assert(self.buffer@.map_values(|e: BoundedString<INPUT_SIZE>| e@) =~= old_entries.drop_first());
                }
                let ghost mid = self.entries();
                self.buffer.push(entry);
                assert(self.entries() =~= mid.push(cmd@));
            },
            Err(()) => {},
        }
        self.position = None;
    }

    /// Navigate to previous command (up arrow).
    pub fn previous_command(&mut self) -> (r: Option<BoundedString<INPUT_SIZE>>)
        requires
            old(self).wf(),
        ensures
            final(self).wf(),
            final(self).entries() == old(self).entries(),
            final(self).position() == previous_position(old(self).entries().len(), old(self).position()),
            old(self).entries().len() == 0 ==> r is None,
            old(self).entries().len() > 0 ==> (r matches Some(e) && final(self).position() matches Some(p)
                && e@ == old(self).entries()[p as int]),
    {
        let len = self.buffer.len();
        if len == 0 {
            return None;
        }
        let pos = match self.position {
            None => len - 1,
            Some(p) => if p == 0 {
                0
            } else {
                p - 1
            },
        };
        self.position = Some(pos);
        Some(self.buffer[pos].duplicate())
    }

    /// Navigate to next command (down arrow).
    pub fn next_command(&mut self) -> (r: Option<BoundedString<INPUT_SIZE>>)
        requires
            old(self).wf(),
        ensures
            final(self).wf(),
            final(self).entries() == old(self).entries(),
            final(self).position() == next_position(old(self).entries().len(), old(self).position()),
            final(self).position() is None ==> r is None,
            final(self).position() matches Some(p) ==> (r matches Some(e) && e@ == old(self).entries()[p as int]),
    {
        match self.position {
            None => None,
            Some(p) => {
                if p >= self.buffer.len() - 1 {
                    self.position = None;
                    None
                } else {
                    let pos = p + 1;
                    self.position = Some(pos);
                    Some(self.buffer[pos].duplicate())
                }
            },
        }
    }

    /// Whether up/down navigation is under way.
    pub fn is_navigating(&self) -> (r: bool)
        ensures
            r == (self.position() is Some),
    {
        self.position.is_some()
    }

    /// Reset navigation position.
    pub fn reset_position(&mut self)
        requires
            old(self).wf(),
        ensures
            final(self).wf(),
            final(self).entries() == old(self).entries(),
            final(self).position() == None::<nat>,
    {
        self.position = None;
    }
}

impl<const N: usize, const INPUT_SIZE: usize> Default for CommandHistory<N, INPUT_SIZE> {
    fn default() -> (r: Self)
        ensures
            r.wf(),
            r.entries() == Seq::<Seq<char>>::empty(),
            r.position() == None::<nat>,
    {
        Self::new()
    }
}

/// A line that is accepted into the history is what the next up arrow
/// recalls: after `add(cmd)` the newest entry is `cmd` and navigation
/// starts from it.
pub proof fn lemma_add_then_previous(entries: Seq<Seq<char>>, position: Option<nat>, cmd: Seq<char>, n: nat, size: nat)
    requires
        n > 0,
        cmd.len() > 0,
        utf8_len(cmd) <= size,
        entries.len() == 0 || entries.last() != cmd,
    ensures
        ({
            let e2 = added_entries(entries, cmd, n, size);
            let p2 = added_position(entries, position, cmd);
            &&& e2.len() > 0
            &&& e2.last() == cmd
            &&& previous_position(e2.len(), p2) == Some((e2.len() - 1) as nat)
        }),
{
}

/// The history never holds more than its capacity.
pub proof fn lemma_add_bounded(entries: Seq<Seq<char>>, cmd: Seq<char>, n: nat, size: nat)
    requires
        entries.len() <= n,
        n > 0,
    ensures
        added_entries(entries, cmd, n, size).len() <= n,
{
}

/// Up then down returns to the entry that was shown before, as long as
/// the up arrow moved (the position was not already the oldest entry).
pub proof fn lemma_previous_then_next(len: nat, p: nat)
    requires
        0 < p < len,
    ensures
        next_position(len, previous_position(len, Some(p))) == Some(p),
{
}

/// Down at the newest entry leaves navigation: the next up arrow starts
/// again from the newest entry.
pub proof fn lemma_next_past_newest(len: nat)
    requires
        len > 0,
    ensures
        next_position(len, Some((len - 1) as nat)) == None::<nat>,
        previous_position(len, next_position(len, Some((len - 1) as nat))) == Some((len - 1) as nat),
{
}

} // verus!
