use matchmaker::service::Matchmaker;
use matchmaker::{JoinOutcome, LeaveOutcome};

fn participants_of(m: &matchmaker::MatchInfo) -> Vec<u128> {
    let mut v = vec![m.player1, m.player2];
    v.sort();
    v
}

#[test]
fn lookup_before_and_after_register() {
    let mut mm = Matchmaker::new();
    assert!(mm.lookup(42).is_none());
    let id = mm.register(String::from("alice"));
    let p = mm.lookup(id).expect("registered profile must be found");
    assert_eq!(p.id, id);
    assert_eq!(p.name, "alice");
    assert!(mm.lookup(id.wrapping_add(1)).is_none());
}

#[test]
fn register_gives_fresh_identifiers() {
    let mut mm = Matchmaker::new();
    let a = mm.register(String::from("alice"));
    let b = mm.register(String::from("bob"));
    assert_ne!(a, b);
    assert_eq!(mm.lookup(a).unwrap().name, "alice");
    assert_eq!(mm.lookup(b).unwrap().name, "bob");
}

#[test]
fn join_unknown_profile_is_rejected() {
    let mut mm = Matchmaker::new();
    assert_eq!(mm.join_or_pair(7), JoinOutcome::UnknownProfile);
    assert!(mm.snapshot().is_empty());
    assert!(mm.list_matches().is_empty());
}

#[test]
fn join_twice_is_idempotent() {
    let mut mm = Matchmaker::new();
    let a = mm.register(String::from("alice"));
    assert_eq!(mm.join_or_pair(a), JoinOutcome::Enqueued);
    assert_eq!(mm.join_or_pair(a), JoinOutcome::AlreadyQueued);
    assert_eq!(mm.snapshot(), vec![a]);
}

#[test]
fn join_pairs_with_the_single_waiter() {
    let mut mm = Matchmaker::new();
    let a = mm.register(String::from("alice"));
    let b = mm.register(String::from("bob"));
    assert_eq!(mm.join_or_pair(a), JoinOutcome::Enqueued);
    match mm.join_or_pair(b) {
        JoinOutcome::Paired(m) => {
            let mut expected = vec![a, b];
            expected.sort();
            assert_eq!(participants_of(&m), expected);
            assert_ne!(m.player1, m.player2);
        },
        other => panic!("expected a pairing, got {:?}", other),
    }
    assert!(mm.snapshot().is_empty());
}

#[test]
fn pairing_never_pairs_a_profile_with_itself() {
    let mut mm = Matchmaker::new();
    let a = mm.register(String::from("alice"));
    assert_eq!(mm.join_or_pair(a), JoinOutcome::Enqueued);
    // the only way back into the pairing step is a fresh join, and a waiting
    // identifier is turned away before any opponent is drawn
    assert_eq!(mm.join_or_pair(a), JoinOutcome::AlreadyQueued);
    for m in mm.list_matches() {
        assert_ne!(m.player1, m.player2);
    }
    let b = mm.register(String::from("bob"));
    match mm.join_or_pair(b) {
        JoinOutcome::Paired(m) => assert_ne!(m.player1, m.player2),
        other => panic!("expected a pairing, got {:?}", other),
    }
}

#[test]
fn many_joins_pair_half_of_the_profiles() {
    let mut mm = Matchmaker::new();
    let n = 5;
    let mut ids = Vec::new();
    for i in 0..n {
        ids.push(mm.register(format!("player{}", i)));
    }
    for id in &ids {
        let outcome = mm.join_or_pair(*id);
        assert!(!matches!(outcome, JoinOutcome::UnknownProfile));
        assert!(!matches!(outcome, JoinOutcome::AlreadyQueued));
    }
    let matches_list = mm.list_matches();
    let waiting = mm.snapshot();
    assert_eq!(matches_list.len(), n / 2);
    assert_eq!(waiting.len(), n % 2);
    // queue members and match participants are exactly the joined ids
    let mut seen: Vec<u128> = waiting.clone();
    for m in &matches_list {
        seen.push(m.player1);
        seen.push(m.player2);
    }
    seen.sort();
    let mut expected = ids.clone();
    expected.sort();
    assert_eq!(seen, expected);
}

#[test]
fn leave_then_join_enqueues_again() {
    let mut mm = Matchmaker::new();
    let a = mm.register(String::from("alice"));
    assert_eq!(mm.join_or_pair(a), JoinOutcome::Enqueued);
    assert_eq!(mm.leave(a), LeaveOutcome::Removed);
    assert!(mm.snapshot().is_empty());
    assert_eq!(mm.join_or_pair(a), JoinOutcome::Enqueued);
    assert_eq!(mm.snapshot(), vec![a]);
}

#[test]
fn leave_when_not_waiting_reports_not_queued() {
    let mut mm = Matchmaker::new();
    let a = mm.register(String::from("alice"));
    assert_eq!(mm.leave(a), LeaveOutcome::NotQueued);
    assert_eq!(mm.leave(999), LeaveOutcome::NotQueued);
}

#[test]
fn register_join_join_join_example() {
    let mut mm = Matchmaker::new();
    let a = mm.register(String::from("a"));
    let b = mm.register(String::from("b"));
    let c = mm.register(String::from("c"));

    assert_eq!(mm.join_or_pair(a), JoinOutcome::Enqueued);
    assert_eq!(mm.snapshot(), vec![a]);

    let m = match mm.join_or_pair(b) {
        JoinOutcome::Paired(m) => m,
        other => panic!("expected a pairing, got {:?}", other),
    };
    let mut expected = vec![a, b];
    expected.sort();
    assert_eq!(participants_of(&m), expected);
    assert!(mm.snapshot().is_empty());

    assert_eq!(mm.join_or_pair(c), JoinOutcome::Enqueued);
    assert_eq!(mm.snapshot(), vec![c]);

    let all = mm.list_matches();
    assert_eq!(all.len(), 1);
    assert_eq!(participants_of(&all[0]), expected);
}

#[test]
fn matches_are_stored_and_found_by_id() {
    let mut mm = Matchmaker::new();
    let a = mm.register(String::from("alice"));
    let b = mm.register(String::from("bob"));
    mm.join_or_pair(a);
    let m = match mm.join_or_pair(b) {
        JoinOutcome::Paired(m) => m,
        other => panic!("expected a pairing, got {:?}", other),
    };
    let found = mm.get_match(m.id).expect("recorded match must be found");
    assert_eq!(found, m);
    assert!(mm.get_match(m.id.wrapping_add(1)).is_none());
}

#[test]
fn pairing_draws_a_waiting_opponent() {
    let mut mm = Matchmaker::new();
    let mut waiting = Vec::new();
    for i in 0..3 {
        let id = mm.register(format!("waiter{}", i));
        assert!(!matches!(mm.join_or_pair(id), JoinOutcome::UnknownProfile));
        waiting.push(id);
    }
    // three distinct joins on an empty queue: one pairing happened already
    assert_eq!(mm.list_matches().len(), 1);
    assert_eq!(mm.snapshot().len(), 1);
    let joiner = mm.register(String::from("joiner"));
    match mm.join_or_pair(joiner) {
        JoinOutcome::Paired(m) => {
            assert_eq!(m.player2, joiner);
            assert!(waiting.contains(&m.player1));
        },
        other => panic!("expected a pairing, got {:?}", other),
    }
    assert!(mm.snapshot().is_empty());
}
