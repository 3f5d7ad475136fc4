//! The navigation-history stack: an ordered sequence of directory paths,
//! oldest first, persisted as one path per line.  The logical top of the
//! stack is the last entry.  It grows by one entry per push and shrinks from
//! the tail by a clamped count on a pop; listing never mutates it.

use vstd::prelude::*;
use crate::chars::copy_chars;
use crate::lines::parse_lines;
use crate::lines::lemma_view_lines_props;
use crate::lines::store_text;
use crate::lines::view_lines;
use crate::lines::parse_store;
use crate::lines::write_store;

verus! {

/// The in-memory history stack.  The caller reads the history file into it,
/// applies one operation, and writes the serialized result back.
pub struct History {
    entries: Vec<Vec<char>>,
}

impl View for History {
    type V = Seq<Seq<char>>;

    closed spec fn view(&self) -> Seq<Seq<char>> {
        view_lines(self.entries@)
    }
}

/// What a pop of `n` steps does to a stack `s`: on an empty stack nothing is
/// returned and nothing changes; otherwise `n` is clamped to the length, the
/// clamped tail is removed, and the entry jumped to — the `n`-th most recent
/// one — is returned.
pub open spec fn pop_n_spec(s: Seq<Seq<char>>, n: nat) -> (Option<Seq<char>>, Seq<Seq<char>>) {
    if s.len() == 0 {
        (None, s)
    } else {
        let m: nat = if n <= s.len() {
            n
        } else {
            s.len()
        };
        (Some(s[s.len() - m]), s.take(s.len() - m))
    }
}

/// The `n` most recent entries of `s`, most recent first.
pub open spec fn tail_upto(s: Seq<Seq<char>>, n: int) -> Seq<Seq<char>>
    decreases n,
{
    if n <= 0 {
        Seq::empty()
    } else {
        tail_upto(s, n - 1).push(s[s.len() - n])
    }
}

/// The up-to-`k` most recent entries of `s`, most recent first.
pub open spec fn tail_spec(s: Seq<Seq<char>>, k: nat) -> Seq<Seq<char>> {
    tail_upto(
        s,
        if k <= s.len() {
            k as int
        } else {
            s.len() as int
        },
    )
}

impl History {
    /// The empty stack, as used when the history file is absent.
    pub fn new() -> (h: History)
        ensures
            h@ == Seq::<Seq<char>>::empty(),
    {
        let h = History { entries: Vec::new() };
        proof {
            assert(h@ =~= Seq::<Seq<char>>::empty());
        }
        h
    }

    /// Reads the stack from the text of the history file, oldest first,
    /// blank lines filtered out.
    pub fn parse(text: &Vec<char>) -> (h: History)
        ensures
            h@ == parse_lines(text@),
    {
        History { entries: parse_store(text) }
    }

    pub fn len(&self) -> (n: usize)
        ensures
            n == self@.len(),
    {
        self.entries.len()
    }

    /// Pushes `p` as the new top of the stack.
    pub fn push(&mut self, p: Vec<char>)
        ensures
            final(self)@ == old(self)@.push(p@),
    {
        let ghost pv = p@;
        self.entries.push(p);
        proof {
            assert(final(self)@ =~= old(self)@.push(pv));
        }
    }

    /// Pops `n` entries and returns the entry jumped to, as `pop_n_spec`
    /// says: `None` exactly on the empty stack, and a clamped pop otherwise.
    pub fn pop_n(&mut self, n: usize) -> (r: Option<Vec<char>>)
        requires
            n >= 1,
        ensures
            match r {
                Some(p) => Some(p@) == pop_n_spec(old(self)@, n as nat).0,
                None => pop_n_spec(old(self)@, n as nat).0 is None,
            },
            final(self)@ == pop_n_spec(old(self)@, n as nat).1,
    {
        let ghost s = old(self)@;
        let len = self.entries.len();
        if len == 0 {
            return None;
        }
        let m: usize = if n <= len {
            n
        } else {
            len
        };
        let mut cnt: usize = 0;
        let mut last: Option<Vec<char>> = None;
        while cnt < m
            invariant
                1 <= m <= len == s.len(),
                cnt <= m,
                view_lines(self.entries@) == s.take(len - cnt),
                cnt > 0 ==> match last {
                    Some(p) => p@ == s[len - cnt],
                    None => false,
                },
            decreases m - cnt,
        {
            let ghost before = self.entries@;
            last = self.entries.pop();
            proof {
                lemma_view_lines_props(before);
                lemma_view_lines_props(self.entries@);
                assert(before.len() == len - cnt);
                assert(view_lines(self.entries@) =~= s.take(len - cnt - 1));
                assert(before[before.len() - 1]@ == view_lines(before)[before.len() - 1]);
                assert(view_lines(before)[before.len() - 1] == s.take(len - cnt as int)[len - cnt
                    - 1]);
            }
            cnt = cnt + 1;
        }
        last
    }

    /// Returns up to the `k` most recent entries, most recent first, without
    /// touching the stack.
    pub fn list_tail(&self, k: usize) -> (r: Vec<Vec<char>>)
        ensures
            view_lines(r@) == tail_spec(self@, k as nat),
    {
        let len = self.entries.len();
        let m: usize = if k <= len {
            k
        } else {
            len
        };
        let mut r: Vec<Vec<char>> = Vec::new();
        let mut i: usize = 0;
        while i < m
            invariant
                m <= len == self@.len(),
                m == (if k <= len {
                    k
                } else {
                    len
                }),
                i <= m,
                view_lines(r@) == tail_upto(self@, i as int),
            decreases m - i,
        {
            let line = copy_chars(&self.entries[len - 1 - i]);
            let ghost rb = r@;
            let ghost lv = line@;
            r.push(line);
            proof {
                lemma_view_lines_props(self.entries@);
                assert(lv == self@[len - 1 - i]);
                assert(view_lines(r@) =~= view_lines(rb).push(lv));
            }
            i = i + 1;
        }
        r
    }

    /// Serializes the stack into the full new contents of the history file.
    pub fn to_text(&self) -> (out: Vec<char>)
        ensures
            out@ == store_text(self@),
    {
        write_store(&self.entries)
    }
}

/// Pushing a path and immediately popping one step returns that path and
/// restores the stack exactly as it was.
pub proof fn lemma_push_then_pop(s: Seq<Seq<char>>, p: Seq<char>)
    ensures
        pop_n_spec(s.push(p), 1) == (Some(p), s),
{
    assert(s.push(p).take(s.len() as int) =~= s);
}

/// Popping more steps than the stack holds behaves exactly like popping its
/// whole length: the oldest entry is returned and the stack is emptied.
pub proof fn lemma_pop_clamped(s: Seq<Seq<char>>, n: nat)
    requires
        n >= s.len(),
    ensures
        pop_n_spec(s, n) == pop_n_spec(s, s.len()),
        s.len() > 0 ==> pop_n_spec(s, n) == (Some(s[0]), Seq::<Seq<char>>::empty()),
{
    if s.len() > 0 {
        assert(s.take(0) =~= Seq::<Seq<char>>::empty());
    }
}

} // verus!
