//! The store of recorded matches: one record per pairing, keyed by the
//! match identifier, kept in the order the pairings happened.
use vstd::prelude::*;
use crate::MatchInfo;

verus! {

/// Some stored match carries this identifier.
pub open spec fn contains_match_id(ms: Seq<MatchInfo>, id: u128) -> bool {
    exists|k: int| 0 <= k < ms.len() && ms[k].id == id
}

/// No two stored matches carry the same identifier.
pub open spec fn match_ids_unique(ms: Seq<MatchInfo>) -> bool {
    forall|k: int, l: int| 0 <= k < l < ms.len() ==> ms[k].id != ms[l].id
}

/// What recording a match does to the stored sequence: a record under a new
/// identifier is appended; a record under an identifier already present
/// replaces the old one.
pub open spec fn record_model(ms: Seq<MatchInfo>, m: MatchInfo) -> Seq<MatchInfo> {
    if contains_match_id(ms, m.id) {
        ms.update(choose|k: int| 0 <= k < ms.len() && ms[k].id == m.id, m)
    } else {
        ms.push(m)
    }
}

/// All recorded matches, each present exactly once.
pub struct MatchStore {
    entries: Vec<MatchInfo>,
}

impl View for MatchStore {
    type V = Seq<MatchInfo>;

    closed spec fn view(&self) -> Seq<MatchInfo> {
        self.entries@
    }
}

impl MatchStore {
    /// Match identifiers are unique among the stored records.
    pub open spec fn wf(&self) -> bool {
        match_ids_unique(self@)
    }

    pub fn new() -> (s: MatchStore)
        ensures
            s@ == Seq::<MatchInfo>::empty(),
            s.wf(),
    {
        MatchStore { entries: Vec::new() }
    }

    /// Store a match under its identifier.
    pub fn record(&mut self, m: MatchInfo)
        requires
            old(self).wf(),
        ensures
            final(self)@ == record_model(old(self)@, m),
            final(self).wf(),
    {
        let n = self.entries.len();
        let mut i: usize = 0;
        while i < n
            invariant
                i <= n,
                n == self@.len(),
                self == old(self),
                old(self).wf(),
                forall|k: int| 0 <= k < i ==> self@[k].id != m.id,
            decreases n - i,
        {
            if self.entries[i].id == m.id {
                self.entries.set(i, m);
                proof {
                    assert(0 <= i < old(self)@.len() && old(self)@[i as int].id == m.id);
                    assert(contains_match_id(old(self)@, m.id));
                    let k = choose|k: int|
                        0 <= k < old(self)@.len() && old(self)@[k].id == m.id;
                    if k < i {
                        assert(old(self)@[k].id != old(self)@[i as int].id);
                    } else if k > i {
                        assert(old(self)@[i as int].id != old(self)@[k].id);
                    }
                    assert(k == i);
                    assert(self@ == record_model(old(self)@, m));
                    assert forall|a: int, b: int|
                        0 <= a < b < self@.len() implies self@[a].id != self@[b].id by {
                        assert(self@[a].id == old(self)@[a].id);
                        assert(self@[b].id == old(self)@[b].id);
                        assert(old(self)@[a].id != old(self)@[b].id);
                    }
                }
                return;
            }
            i += 1;
        }
        self.entries.push(m);
        proof {
            assert(!contains_match_id(old(self)@, m.id));
            assert forall|a: int, b: int|
                0 <= a < b < self@.len() implies self@[a].id != self@[b].id by {
                if b == self@.len() - 1 {
                    assert(self@[a] == old(self)@[a]);
                }
            }
        }
    }

    /// Read a match back by its identifier.
    pub fn get(&self, id: u128) -> (r: Option<MatchInfo>)
        ensures
            match r {
                Some(m) => contains_match_id(self@, id) && m.id == id && self@.contains(m),
                None => !contains_match_id(self@, id),
            },
    {
        let n = self.entries.len();
        let mut i: usize = 0;
        while i < n
            invariant
                i <= n,
                n == self@.len(),
                forall|k: int| 0 <= k < i ==> self@[k].id != id,
            decreases n - i,
        {
            if self.entries[i].id == id {
                return Some(self.entries[i]);
            }
            i += 1;
        }
        None
    }

    /// Every recorded match, in recording order.
    pub fn list(&self) -> (r: Vec<MatchInfo>)
        ensures
            r@ == self@,
    {
        let n = self.entries.len();
        let mut out: Vec<MatchInfo> = Vec::new();
        let mut i: usize = 0;
        while i < n
            invariant
                i <= n,
                n == self@.len(),
                out@ == self@.subrange(0, i as int),
            decreases n - i,
        {
            out.push(self.entries[i]);
            proof {
                assert(out@ =~= self@.subrange(0, i + 1 as int));
            }
            i += 1;
        }
        proof {
            assert(out@ =~= self@);
        }
        out
    }
}

} // verus!
