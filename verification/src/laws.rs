//! Laws of the queue-pairing protocol, proved from the transition relations
//! that the service operations ensure. Each is stated over the service view,
//! so it applies to any sequence of calls on a `Matchmaker`.
use vstd::prelude::*;
use vstd::multiset::Multiset;
use crate::{JoinOutcome, LeaveOutcome, MatchInfo, Profile};
use crate::match_store::contains_match_id;
use crate::service::{join_transition, leave_transition, MatchmakerView};

verus! {

broadcast use {vstd::multiset::group_multiset_axioms, vstd::seq_lib::group_to_multiset_ensures};

/// Registration stores exactly the given record: afterwards the profile map
/// holds, under the returned identifier, the profile with that identifier
/// and that name — what a lookup by it returns — and an identifier that was
/// absent stays absent unless it is the one registered.
pub proof fn lemma_register_then_lookup(
    pre: MatchmakerView,
    post: MatchmakerView,
    id: u128,
    name: String,
)
    requires
        post.profiles == pre.profiles.insert(id, (Profile { id, name })),
    ensures
        post.profiles.contains_key(id),
        post.profiles[id] == (Profile { id, name }),
        forall|x: u128|
            x != id && !pre.profiles.contains_key(x) ==> !post.profiles.contains_key(x),
{
}

/// Joining twice in a row with the same identifier when the wait list was
/// empty: the first call enqueues, the second is a no-op reported as
/// `AlreadyQueued`, and the identifier then waits exactly once — the wait
/// list is exactly `[id]`.
pub proof fn lemma_join_idempotent(
    s0: MatchmakerView,
    s1: MatchmakerView,
    s2: MatchmakerView,
    id: u128,
    r1: JoinOutcome,
    r2: JoinOutcome,
)
    requires
        s0.profiles.contains_key(id),
        s0.queue.len() == 0,
        join_transition(s0, id, s1, r1),
        join_transition(s1, id, s2, r2),
    ensures
        r1 == JoinOutcome::Enqueued,
        r2 == JoinOutcome::AlreadyQueued,
        s1.queue == seq![id],
        s2 == s1,
{
    assert(!s0.queue.contains(id));
    assert(s1.queue =~= seq![id]);
    assert(s1.queue.contains(id));
}

/// Pairing correctness: a join by `b` against wait list `[a]`, with `a` and
/// `b` distinct and `b` registered, produces a match between exactly `a`
/// and `b` and empties the wait list.
pub proof fn lemma_pairing(
    s0: MatchmakerView,
    s1: MatchmakerView,
    a: u128,
    b: u128,
    r: JoinOutcome,
)
    requires
        a != b,
        s0.profiles.contains_key(b),
        s0.queue == seq![a],
        join_transition(s0, b, s1, r),
    ensures
        r matches JoinOutcome::Paired(m) && m.player1 == a && m.player2 == b,
        s1.queue.len() == 0,
{
    assert(s0.queue[0] == a);
    assert forall|i: int| 0 <= i < s0.queue.len() implies s0.queue[i] != b by {
        assert(s0.queue[i] == a);
    }
    assert(!s0.queue.contains(b));
    match r {
        JoinOutcome::Paired(m) => {
            let i = choose|i: int|
                0 <= i < s0.queue.len() && m.player1 == s0.queue[i] && s1.queue
                    == s0.queue.remove(i);
            assert(i == 0);
            assert(m.player1 == a);
        },
        _ => {
            assert(false);
        },
    }
}

/// No self-pairing: whatever opponent a pairing selects, it is a waiting
/// entry and the joiner is not waiting, so the two participants differ.
/// The service invariant (`state_wf`) extends this to every recorded match
/// after any sequence of calls.
pub proof fn lemma_no_self_pairing(
    s0: MatchmakerView,
    s1: MatchmakerView,
    id: u128,
    m: MatchInfo,
)
    requires
        join_transition(s0, id, s1, JoinOutcome::Paired(m)),
    ensures
        m.player1 != m.player2,
{
    let i = choose|i: int|
        0 <= i < s0.queue.len() && m.player1 == s0.queue[i] && s1.queue == s0.queue.remove(i);
    assert(s0.queue[i] != id);
}

/// Leave then join: once a waiting identifier is removed, a join by it is
/// never reported `AlreadyQueued`; and if the wait list is then empty, the
/// join enqueues it again.
pub proof fn lemma_leave_then_join(
    s0: MatchmakerView,
    s1: MatchmakerView,
    s2: MatchmakerView,
    id: u128,
    r: JoinOutcome,
)
    requires
        s0.queue.no_duplicates(),
        s0.profiles.contains_key(id),
        leave_transition(s0, id, s1, LeaveOutcome::Removed),
        join_transition(s1, id, s2, r),
    ensures
        r != JoinOutcome::AlreadyQueued,
        s1.queue.len() == 0 ==> r == JoinOutcome::Enqueued,
{
    let i = choose|i: int|
        0 <= i < s0.queue.len() && s0.queue[i] == id && s1.queue == s0.queue.remove(i);
    assert forall|j: int| 0 <= j < s1.queue.len() implies s1.queue[j] != id by {
        if j < i {
            assert(s1.queue[j] == s0.queue[j]);
            assert(s0.queue[j] != s0.queue[i]);
        } else {
            assert(s1.queue[j] == s0.queue[j + 1]);
            assert(s0.queue[j + 1] != s0.queue[i]);
        }
    }
    assert(!s1.queue.contains(id));
}

/// The two participants of every recorded match, with multiplicity.
pub open spec fn participants(ms: Seq<MatchInfo>) -> Multiset<u128>
    decreases ms.len(),
{
    if ms.len() == 0 {
        Multiset::empty()
    } else {
        participants(ms.drop_last()).insert(ms.last().player1).insert(ms.last().player2)
    }
}

/// One join that settles: some outcome moves the state as `join_transition`
/// says, and a pairing records its match under a fresh match identifier.
pub open spec fn join_step(pre: MatchmakerView, id: u128, post: MatchmakerView) -> bool {
    exists|r: JoinOutcome|
        #[trigger] join_transition(pre, id, post, r) && (r matches JoinOutcome::Paired(m)
            ==> !contains_match_id(pre.matches, m.id))
}

/// A run of joins: `states` holds the service state before and after each
/// of the joins in `ids`, in order.
pub open spec fn join_run(states: Seq<MatchmakerView>, ids: Seq<u128>) -> bool {
    &&& states.len() == ids.len() + 1
    &&& (forall|k: int|
        0 <= k < ids.len() ==> #[trigger] join_step(states[k], ids[k], states[k + 1]))
}

/// A participant of some recorded match occurs in the participant multiset.
proof fn lemma_participants_mem(ms: Seq<MatchInfo>, k: int, x: u128)
    requires
        0 <= k < ms.len(),
        x == ms[k].player1 || x == ms[k].player2,
    ensures
        participants(ms).count(x) >= 1,
    decreases ms.len(),
{
    if k == ms.len() - 1 {
    } else {
        lemma_participants_mem(ms.drop_last(), k, x);
        assert(ms.drop_last()[k] == ms[k]);
    }
}

/// An identifier on both sides of one match occurs at least twice.
proof fn lemma_participants_self(ms: Seq<MatchInfo>, k: int)
    requires
        0 <= k < ms.len(),
        ms[k].player1 == ms[k].player2,
    ensures
        participants(ms).count(ms[k].player1) >= 2,
    decreases ms.len(),
{
    if k == ms.len() - 1 {
    } else {
        lemma_participants_self(ms.drop_last(), k);
        assert(ms.drop_last()[k] == ms[k]);
    }
}

/// An identifier participating in two different matches occurs at least
/// twice.
proof fn lemma_participants_two(ms: Seq<MatchInfo>, k: int, l: int, x: u128)
    requires
        0 <= k < l < ms.len(),
        x == ms[k].player1 || x == ms[k].player2,
        x == ms[l].player1 || x == ms[l].player2,
    ensures
        participants(ms).count(x) >= 2,
    decreases ms.len(),
{
    if l == ms.len() - 1 {
        lemma_participants_mem(ms.drop_last(), k, x);
        assert(ms.drop_last()[k] == ms[k]);
    } else {
        lemma_participants_two(ms.drop_last(), k, l, x);
        assert(ms.drop_last()[k] == ms[k]);
        assert(ms.drop_last()[l] == ms[l]);
    }
}

/// The running invariant of a join run that starts from an empty wait list
/// and no recorded matches: profiles never change, the wait-list length
/// alternates between 0 and 1, one match is recorded per completed pair,
/// and the waiting identifiers together with all match participants are
/// exactly the identifiers that have joined, each with its multiplicity.
pub proof fn lemma_join_run_invariant(states: Seq<MatchmakerView>, ids: Seq<u128>)
    requires
        join_run(states, ids),
        ids.no_duplicates(),
        forall|k: int| 0 <= k < ids.len() ==> states[0].profiles.contains_key(#[trigger] ids[k]),
        states[0].queue.len() == 0,
        states[0].matches.len() == 0,
    ensures
        states.last().profiles == states[0].profiles,
        states.last().queue.len() == ids.len() % 2,
        states.last().matches.len() == ids.len() / 2,
        states.last().queue.to_multiset().add(participants(states.last().matches))
            == ids.to_multiset(),
    decreases ids.len(),
{
    if ids.len() == 0 {
        assert(states.last() == states[0]);
        assert forall|y: u128|
            states[0].queue.to_multiset().add(participants(states[0].matches)).count(y)
                == ids.to_multiset().count(y) by {
            assert(!states[0].queue.contains(y));
            assert(!ids.contains(y));
        }
        assert(states[0].queue.to_multiset().add(participants(states[0].matches))
            =~= ids.to_multiset());
    } else {
        let n = ids.len() - 1;
        let pre_states = states.take(states.len() - 1);
        let pre_ids = ids.take(n);
        assert forall|k: int| 0 <= k < pre_ids.len() implies #[trigger] join_step(
            pre_states[k],
            pre_ids[k],
            pre_states[k + 1],
        ) by {
            assert(join_step(states[k], ids[k], states[k + 1]));
        }
        assert forall|k: int| 0 <= k < pre_ids.len() implies pre_states[0].profiles.contains_key(
            #[trigger] pre_ids[k],
        ) by {
            assert(states[0].profiles.contains_key(ids[k]));
        }
        assert(pre_ids.no_duplicates()) by {
            assert forall|a: int, b: int|
                0 <= a < pre_ids.len() && 0 <= b < pre_ids.len() && a != b implies pre_ids[a]
                != pre_ids[b] by {
                assert(ids[a] != ids[b]);
            }
        }
        lemma_join_run_invariant(pre_states, pre_ids);
        let sp = states[n];
        let sq = states[n + 1];
        assert(pre_states.last() == sp);
        assert(sq == states.last());
        let x = ids[n];
        assert(join_step(sp, x, sq));
        let r = choose|r: JoinOutcome|
            #[trigger] join_transition(sp, x, sq, r) && (r matches JoinOutcome::Paired(m)
                ==> !contains_match_id(sp.matches, m.id));
        let total_pre = sp.queue.to_multiset().add(participants(sp.matches));
        assert(total_pre == pre_ids.to_multiset());
        assert(ids =~= pre_ids.push(x));
        assert(pre_ids.push(x).to_multiset() =~= pre_ids.to_multiset().insert(x));
        assert(ids.to_multiset() == pre_ids.to_multiset().insert(x));
        // the joining identifier was never seen before, so it cannot be waiting
        assert(pre_ids.to_multiset().count(x) == 0) by {
            if pre_ids.to_multiset().count(x) > 0 {
                assert(pre_ids.contains(x));
                let j = choose|j: int| 0 <= j < pre_ids.len() && pre_ids[j] == x;
                assert(ids[j] == ids[n]);
                assert(false);
            }
        }
        assert(sp.queue.to_multiset().count(x) == 0);
        assert(!sp.queue.contains(x));
        match r {
            JoinOutcome::UnknownProfile => {
                assert(sp.profiles.contains_key(x));
                assert(false);
            },
            JoinOutcome::AlreadyQueued => {
                assert(false);
            },
            JoinOutcome::Enqueued => {
                assert(sq.queue == sp.queue.push(x));
                assert(sp.queue.push(x).to_multiset() =~= sp.queue.to_multiset().insert(x));
                assert forall|y: u128|
                    sq.queue.to_multiset().add(participants(sq.matches)).count(y)
                        == ids.to_multiset().count(y) by {}
                assert(sq.queue.to_multiset().add(participants(sq.matches))
                    =~= ids.to_multiset());
            },
            JoinOutcome::Paired(m) => {
                let i = choose|i: int|
                    0 <= i < sp.queue.len() && m.player1 == sp.queue[i] && sq.queue
                        == sp.queue.remove(i);
                assert(!contains_match_id(sp.matches, m.id));
                assert(sq.matches == sp.matches.push(m));
                assert(sp.matches.push(m).drop_last() =~= sp.matches);
                assert(participants(sq.matches) == participants(sp.matches).insert(
                    m.player1,
                ).insert(m.player2));
                assert(sp.queue.remove(i).to_multiset() == sp.queue.to_multiset().remove(
                    sp.queue[i],
                ));
                assert(sp.queue.contains(sp.queue[i]));
                assert(sp.queue.to_multiset().count(sp.queue[i]) >= 1);
                assert forall|y: u128|
                    sq.queue.to_multiset().add(participants(sq.matches)).count(y)
                        == ids.to_multiset().count(y) by {}
                assert(sq.queue.to_multiset().add(participants(sq.matches))
                    =~= ids.to_multiset());
                // lengths: the wait list held exactly one entry
                assert(sq.queue.len() == sp.queue.len() - 1);
                assert(sq.matches.len() == sp.matches.len() + 1);
            },
        }
    }
}

/// Two matches share no participant.
pub open spec fn disjoint_participants(m1: MatchInfo, m2: MatchInfo) -> bool {
    &&& m1.player1 != m2.player1
    &&& m1.player1 != m2.player2
    &&& m1.player2 != m2.player1
    &&& m1.player2 != m2.player2
}

/// The concurrency law, for joins serialized in any order: if any number of
/// distinct registered identifiers join, one after another, starting from an
/// empty wait list and no recorded matches, then exactly half of them
/// (rounded down) end up recorded in matches, every match pairs two distinct
/// identifiers, no identifier occurs in two matches, and the remaining
/// identifiers (none or one) still wait.
pub proof fn lemma_concurrent_joins(states: Seq<MatchmakerView>, ids: Seq<u128>)
    requires
        join_run(states, ids),
        ids.no_duplicates(),
        forall|k: int| 0 <= k < ids.len() ==> states[0].profiles.contains_key(#[trigger] ids[k]),
        states[0].queue.len() == 0,
        states[0].matches.len() == 0,
    ensures
        states.last().matches.len() == ids.len() / 2,
        states.last().queue.len() == ids.len() % 2,
        forall|k: int|
            0 <= k < states.last().matches.len() ==> (#[trigger] states.last().matches[k]).player1
                != states.last().matches[k].player2,
        forall|k: int, l: int|
            0 <= k < l < states.last().matches.len() ==> #[trigger] disjoint_participants(
                states.last().matches[k],
                states.last().matches[l],
            ),
        states.last().queue.to_multiset().add(participants(states.last().matches))
            == ids.to_multiset(),
{
    lemma_join_run_invariant(states, ids);
    ids.lemma_multiset_has_no_duplicates();
    let ms = states.last().matches;
    let total = states.last().queue.to_multiset().add(participants(ms));
    assert forall|k: int| 0 <= k < ms.len() implies (#[trigger] ms[k]).player1
        != ms[k].player2 by {
        if ms[k].player1 == ms[k].player2 {
            lemma_participants_self(ms, k);
            let x = ms[k].player1;
            assert(total.count(x) >= 2);
            assert(ids.to_multiset().contains(x));
            assert(false);
        }
    }
    assert forall|k: int, l: int| 0 <= k < l < ms.len() implies #[trigger] disjoint_participants(
        ms[k],
        ms[l],
    ) by {
        if ms[k].player1 == ms[l].player1 || ms[k].player1 == ms[l].player2 {
            lemma_participants_two(ms, k, l, ms[k].player1);
            assert(total.count(ms[k].player1) >= 2);
            assert(ids.to_multiset().contains(ms[k].player1));
            assert(false);
        }
        if ms[k].player2 == ms[l].player1 || ms[k].player2 == ms[l].player2 {
            lemma_participants_two(ms, k, l, ms[k].player2);
            assert(total.count(ms[k].player2) >= 2);
            assert(ids.to_multiset().contains(ms[k].player2));
            assert(false);
        }
    }
}

} // verus!
