//! The wait list: the ordered collection of profile identifiers currently
//! seeking a match. A given identifier appears at most once, and the pairing
//! algorithm removes its opponent by position.
use vstd::prelude::*;
use std::collections::VecDeque;

verus! {

broadcast use vstd::std_specs::vecdeque::group_vec_dequeue_axioms;

/// Removing one element of a duplicate-free sequence leaves it
/// duplicate-free.
proof fn lemma_remove_preserves_no_duplicates(s: Seq<u128>, i: int)
    requires
        s.no_duplicates(),
        0 <= i < s.len(),
    ensures
        s.remove(i).no_duplicates(),
{
    let t = s.remove(i);
    assert forall|a: int, b: int| 0 <= a < b < t.len() implies t[a] != t[b] by {
        let oa: int = if a < i { a } else { a + 1 };
        let ob: int = if b < i { b } else { b + 1 };
        assert(t[a] == s[oa]);
        assert(t[b] == s[ob]);
    }
}

/// The wait list, in insertion order (oldest first).
pub struct MatchQueue {
    entries: VecDeque<u128>,
}

impl View for MatchQueue {
    type V = Seq<u128>;

    closed spec fn view(&self) -> Seq<u128> {
        self.entries@
    }
}

impl MatchQueue {
    /// The wait list never holds the same identifier twice.
    pub open spec fn wf(&self) -> bool {
        self@.no_duplicates()
    }

    pub fn new() -> (q: MatchQueue)
        ensures
            q@ == Seq::<u128>::empty(),
            q.wf(),
    {
        MatchQueue { entries: VecDeque::new() }
    }

    pub fn len(&self) -> (n: usize)
        ensures
            n == self@.len(),
    {
        self.entries.len()
    }

    /// Membership by equality scan.
    pub fn contains(&self, id: u128) -> (r: bool)
        ensures
            r == self@.contains(id),
    {
        let n = self.entries.len();
        let mut i: usize = 0;
        while i < n
            invariant
                i <= n,
                n == self@.len(),
                forall|k: int| 0 <= k < i ==> self@[k] != id,
            decreases n - i,
        {
            if self.entries[i] == id {
                return true;
            }
            i += 1;
        }
        false
    }

    /// The position of `id` in the wait list, if it is waiting.
    pub fn position(&self, id: u128) -> (r: Option<usize>)
        ensures
            match r {
                Some(i) => i < self@.len() && self@[i as int] == id,
                None => !self@.contains(id),
            },
    {
        let n = self.entries.len();
        let mut i: usize = 0;
        while i < n
            invariant
                i <= n,
                n == self@.len(),
                forall|k: int| 0 <= k < i ==> self@[k] != id,
            decreases n - i,
        {
            if self.entries[i] == id {
                return Some(i);
            }
            i += 1;
        }
        None
    }

    /// Append a newly waiting identifier at the end of the list.
    pub fn push_back(&mut self, id: u128)
        requires
            old(self).wf(),
            !old(self)@.contains(id),
        ensures
            final(self)@ == old(self)@.push(id),
            final(self).wf(),
    {
        self.entries.push_back(id);
        proof {
            assert forall|a: int, b: int| 0 <= a < b < self@.len() implies self@[a] != self@[b] by {
                if b == self@.len() - 1 {
                    assert(self@[a] == old(self)@[a]);
                    assert(old(self)@[a] != id);
                }
            }
        }
    }

    /// Remove and return the identifier at position `i`.
    pub fn remove_at(&mut self, i: usize) -> (r: u128)
        requires
            old(self).wf(),
            i < old(self)@.len(),
        ensures
            r == old(self)@[i as int],
            final(self)@ == old(self)@.remove(i as int),
            final(self).wf(),
    {
        match self.entries.remove(i) {
            Some(x) => {
                proof {
                    lemma_remove_preserves_no_duplicates(old(self)@, i as int);
                }
                x
            },
            None => {
                proof {
                    assert(false);
                }
                0
            },
        }
    }

    /// The current wait-list order, oldest first.
    pub fn snapshot(&self) -> (r: Vec<u128>)
        ensures
            r@ == self@,
    {
        let n = self.entries.len();
        let mut out: Vec<u128> = Vec::new();
        let mut i: usize = 0;
        while i < n
            invariant
                i <= n,
                n == self@.len(),
                out@ == self@.subrange(0, i as int),
            decreases n - i,
        {
            out.push(self.entries[i]);
            proof {
                assert(out@ =~= self@.subrange(0, i + 1 as int));
            }
            i += 1;
        }
        proof {
            assert(out@ =~= self@);
        }
        out
    }
}

} // verus!
