//! The matchmaking service: the three stores behind one value, and the
//! operations on them. `join_or_pair` is the central operation: under one
//! exclusive borrow it checks membership, draws a random opponent, removes
//! it and records the match, so a caller that serializes access to the
//! service observes the whole decision as a single step.
use vstd::prelude::*;
use crate::{JoinOutcome, LeaveOutcome, MatchInfo, Profile};
use crate::entropy::{fresh_uuid, random_index};
use crate::match_queue::MatchQueue;
use crate::match_store::{contains_match_id, match_ids_unique, record_model, MatchStore};
use crate::profile_store::ProfileStore;

verus! {

/// The whole service state, as mathematics: the profile map, the wait-list
/// order, and the recorded matches in recording order.
#[verifier::ext_equal]
pub ghost struct MatchmakerView {
    pub profiles: Map<u128, Profile>,
    pub queue: Seq<u128>,
    pub matches: Seq<MatchInfo>,
}

/// A recorded match is sound for a profile map: two distinct participants,
/// both registered.
pub open spec fn match_valid(profiles: Map<u128, Profile>, m: MatchInfo) -> bool {
    &&& m.player1 != m.player2
    &&& profiles.contains_key(m.player1)
    &&& profiles.contains_key(m.player2)
}

/// The service invariant: no identifier waits twice, match identifiers are
/// unique, every waiting identifier is registered, every recorded match is
/// sound, and every profile record carries the identifier it is stored
/// under.
pub open spec fn state_wf(s: MatchmakerView) -> bool {
    &&& s.queue.no_duplicates()
    &&& match_ids_unique(s.matches)
    &&& (forall|i: int| 0 <= i < s.queue.len() ==> s.profiles.contains_key(#[trigger] s.queue[i]))
    &&& (forall|k: int| 0 <= k < s.matches.len() ==> match_valid(s.profiles, #[trigger] s.matches[k]))
    &&& (forall|id: u128| s.profiles.contains_key(id) ==> (#[trigger] s.profiles[id]).id == id)
}

/// Exactly what one join request may do to the state, by outcome:
/// an unregistered identifier changes nothing; one already waiting changes
/// nothing; one joining an empty wait list is appended; otherwise some
/// waiting entry is removed and a match between that entry and the joiner
/// is recorded. Which entry is removed and under which identifier the match
/// is stored are the operation's only freedoms.
pub open spec fn join_transition(
    pre: MatchmakerView,
    id: u128,
    post: MatchmakerView,
    r: JoinOutcome,
) -> bool {
    match r {
        JoinOutcome::UnknownProfile => {
            &&& !pre.profiles.contains_key(id)
            &&& post == pre
        },
        JoinOutcome::AlreadyQueued => {
            &&& pre.profiles.contains_key(id)
            &&& pre.queue.contains(id)
            &&& post == pre
        },
        JoinOutcome::Enqueued => {
            &&& pre.profiles.contains_key(id)
            &&& !pre.queue.contains(id)
            &&& pre.queue.len() == 0
            &&& post.profiles == pre.profiles
            &&& post.queue == pre.queue.push(id)
            &&& post.matches == pre.matches
        },
        JoinOutcome::Paired(m) => {
            &&& pre.profiles.contains_key(id)
            &&& !pre.queue.contains(id)
            &&& pre.queue.len() > 0
            &&& m.player2 == id
            &&& (exists|i: int|
                0 <= i < pre.queue.len() && m.player1 == pre.queue[i] && post.queue
                    == pre.queue.remove(i))
            &&& post.profiles == pre.profiles
            &&& post.matches == record_model(pre.matches, m)
        },
    }
}

/// Exactly what one leave request may do to the state: a waiting identifier
/// is removed from its position, anything else changes nothing.
pub open spec fn leave_transition(
    pre: MatchmakerView,
    id: u128,
    post: MatchmakerView,
    r: LeaveOutcome,
) -> bool {
    match r {
        LeaveOutcome::Removed => {
            &&& pre.queue.contains(id)
            &&& (exists|i: int|
                0 <= i < pre.queue.len() && pre.queue[i] == id && post.queue == pre.queue.remove(
                    i,
                ))
            &&& post.profiles == pre.profiles
            &&& post.matches == pre.matches
        },
        LeaveOutcome::NotQueued => {
            &&& !pre.queue.contains(id)
            &&& post == pre
        },
    }
}

/// The matchmaking service. Process-wide sharing and locking are the
/// caller's business; one `&mut` call here is one atomic step of the
/// protocol.
pub struct Matchmaker {
    profiles: ProfileStore,
    queue: MatchQueue,
    matches: MatchStore,
}

impl View for Matchmaker {
    type V = MatchmakerView;

    closed spec fn view(&self) -> MatchmakerView {
        MatchmakerView { profiles: self.profiles@, queue: self.queue@, matches: self.matches@ }
    }
}

impl Matchmaker {
    pub open spec fn wf(&self) -> bool {
        state_wf(self@)
    }

    pub fn new() -> (s: Matchmaker)
        ensures
            s@.profiles == Map::<u128, Profile>::empty(),
            s@.queue == Seq::<u128>::empty(),
            s@.matches == Seq::<MatchInfo>::empty(),
            s.wf(),
    {
        Matchmaker { profiles: ProfileStore::new(), queue: MatchQueue::new(), matches: MatchStore::new() }
    }

    /// Register a profile under a freshly generated identifier and return
    /// that identifier. Always succeeds; the stored record is exactly the
    /// given name under the new identifier.
    pub fn register(&mut self, name: String) -> (id: u128)
        requires
            old(self).wf(),
        ensures
            final(self).wf(),
            final(self)@.profiles == old(self)@.profiles.insert(id, (Profile { id, name })),
            final(self)@.queue == old(self)@.queue,
            final(self)@.matches == old(self)@.matches,
    {
        let id = fresh_uuid();
        proof {
            assert forall|x: u128| self.profiles@.contains_key(x) implies (#[trigger] self.profiles@[x]).id
                == x by {
                assert(old(self)@.profiles.contains_key(x));
                assert((old(self)@.profiles[x]).id == x);
            }
        }
        self.profiles.insert(Profile { id, name });
        proof {
            assert forall|x: u128| self@.profiles.contains_key(x) implies (#[trigger] self@.profiles[x]).id
                == x by {
                if x != id {
                    assert(self@.profiles[x] == old(self)@.profiles[x]);
                    assert(old(self)@.profiles.contains_key(x));
                    assert((old(self)@.profiles[x]).id == x);
                }
            }
            assert forall|j: int| 0 <= j < self@.queue.len() implies self@.profiles.contains_key(
                #[trigger] self@.queue[j],
            ) by {
                assert(old(self)@.profiles.contains_key(old(self)@.queue[j]));
            }
            assert forall|k: int| 0 <= k < self@.matches.len() implies match_valid(
                self@.profiles,
                #[trigger] self@.matches[k],
            ) by {
                assert(match_valid(old(self)@.profiles, old(self)@.matches[k]));
            }
        }
        id
    }

    /// Read a profile back by its identifier.
    pub fn lookup(&self, id: u128) -> (r: Option<&Profile>)
        ensures
            match r {
                Some(p) => self@.profiles.contains_key(id) && *p == self@.profiles[id],
                None => !self@.profiles.contains_key(id),
            },
    {
        self.profiles.get(id)
    }

    /// The atomic enqueue-or-pair step: reject an unregistered identifier,
    /// leave an already waiting one alone, pair a joiner with a uniformly
    /// random waiting opponent, and otherwise let the joiner wait.
    pub fn join_or_pair(&mut self, id: u128) -> (r: JoinOutcome)
        requires
            old(self).wf(),
        ensures
            final(self).wf(),
            join_transition(old(self)@, id, final(self)@, r),
    {
        if !self.profiles.contains(id) {
            return JoinOutcome::UnknownProfile;
        }
        if self.queue.contains(id) {
            return JoinOutcome::AlreadyQueued;
        }
        let qlen = self.queue.len();
        if qlen > 0 {
            let i = random_index(qlen);
            let opponent = self.queue.remove_at(i);
            proof {
                assert(old(self)@.queue[i as int] != id);
            }
            let mid = fresh_uuid();
            let m = MatchInfo { id: mid, player1: opponent, player2: id };
            self.matches.record(m);
            proof {
                assert(0 <= i < old(self)@.queue.len() && m.player1 == old(self)@.queue[i as int]
                    && self@.queue == old(self)@.queue.remove(i as int));
                assert forall|j: int| 0 <= j < self@.queue.len()
                    implies self@.profiles.contains_key(#[trigger] self@.queue[j]) by {
                    if j < i {
                        assert(self@.queue[j] == old(self)@.queue[j]);
                    } else {
                        assert(self@.queue[j] == old(self)@.queue[j + 1]);
                    }
                }
                let oms = old(self)@.matches;
                assert(match_valid(self@.profiles, m));
                assert forall|k: int| 0 <= k < self@.matches.len() implies match_valid(
                    self@.profiles,
                    #[trigger] self@.matches[k],
                ) by {
                    if contains_match_id(oms, m.id) {
                        let kc = choose|kk: int| 0 <= kk < oms.len() && oms[kk].id == m.id;
                        if k != kc {
                            assert(self@.matches[k] == oms[k]);
                            assert(match_valid(old(self)@.profiles, oms[k]));
                        } else {
                            assert(self@.matches[k] == m);
                        }
                    } else {
                        if k < oms.len() {
                            assert(self@.matches[k] == oms[k]);
                            assert(match_valid(old(self)@.profiles, oms[k]));
                        } else {
                            assert(self@.matches[k] == m);
                        }
                    }
                }
                assert forall|x: u128| self@.profiles.contains_key(x) implies (#[trigger] self@.profiles[x]).id
                    == x by {
                    assert(old(self)@.profiles.contains_key(x));
                    assert((old(self)@.profiles[x]).id == x);
                }
            }
            JoinOutcome::Paired(m)
        } else {
            self.queue.push_back(id);
            proof {
                assert forall|j: int| 0 <= j < self@.queue.len()
                    implies self@.profiles.contains_key(#[trigger] self@.queue[j]) by {
                    if j < self@.queue.len() - 1 {
                        assert(self@.queue[j] == old(self)@.queue[j]);
                    }
                }
                assert forall|x: u128| self@.profiles.contains_key(x) implies (#[trigger] self@.profiles[x]).id
                    == x by {
                    assert(old(self)@.profiles.contains_key(x));
                    assert((old(self)@.profiles[x]).id == x);
                }
            }
            JoinOutcome::Enqueued
        }
    }

    /// Withdraw a waiting identifier from the wait list.
    pub fn leave(&mut self, id: u128) -> (r: LeaveOutcome)
        requires
            old(self).wf(),
        ensures
            final(self).wf(),
            leave_transition(old(self)@, id, final(self)@, r),
    {
        match self.queue.position(id) {
            Some(i) => {
                self.queue.remove_at(i);
                proof {
                    assert(0 <= i < old(self)@.queue.len() && old(self)@.queue[i as int] == id
                        && self@.queue == old(self)@.queue.remove(i as int));
                    assert forall|j: int| 0 <= j < self@.queue.len()
                        implies self@.profiles.contains_key(#[trigger] self@.queue[j]) by {
                        if j < i {
                            assert(self@.queue[j] == old(self)@.queue[j]);
                        } else {
                            assert(self@.queue[j] == old(self)@.queue[j + 1]);
                        }
                    }
                    assert forall|x: u128| self@.profiles.contains_key(x) implies (#[trigger] self@.profiles[x]).id
                        == x by {
                        assert(old(self)@.profiles.contains_key(x));
                        assert((old(self)@.profiles[x]).id == x);
                    }
                }
                LeaveOutcome::Removed
            },
            None => LeaveOutcome::NotQueued,
        }
    }

    /// The current wait-list order, oldest first. Pairing is random, not
    /// first-in-first-out, so this order predicts nothing.
    pub fn snapshot(&self) -> (r: Vec<u128>)
        ensures
            r@ == self@.queue,
    {
        self.queue.snapshot()
    }

    /// Every recorded match, in recording order.
    pub fn list_matches(&self) -> (r: Vec<MatchInfo>)
        ensures
            r@ == self@.matches,
    {
        self.matches.list()
    }

    /// Read a match back by its identifier.
    pub fn get_match(&self, id: u128) -> (r: Option<MatchInfo>)
        ensures
            match r {
                Some(m) => contains_match_id(self@.matches, id) && m.id == id
                    && self@.matches.contains(m),
                None => !contains_match_id(self@.matches, id),
            },
    {
        self.matches.get(id)
    }
}

} // verus!
