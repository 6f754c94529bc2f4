//! A small matchmaking library.
//!
//! Players register a profile, join a wait list, and a new joiner is paired
//! with a randomly chosen waiting opponent; every pairing is recorded as a
//! match. The pairing step — membership check, opponent selection, removal
//! and match creation — is one operation on a single service value, so a
//! caller that serializes access to that value (for instance behind a mutex)
//! gets the whole decision as one indivisible step.
use vstd::prelude::*;

pub mod entropy;
pub mod match_queue;
pub mod match_store;
pub mod profile_store;
pub mod laws;
pub mod service;

verus! {

/// A registered player: an identifier and a display name.
pub struct Profile {
    pub id: u128,
    pub name: String,
}

/// An immutable record of two paired players.
#[derive(Clone, Copy, PartialEq, Eq, Structural, Debug)]
pub struct MatchInfo {
    pub id: u128,
    pub player1: u128,
    pub player2: u128,
}

/// What a join request produced.
#[derive(Clone, Copy, PartialEq, Eq, Structural, Debug)]
pub enum JoinOutcome {
    /// The identifier resolves to no registered profile.
    UnknownProfile,
    /// The identifier is already waiting; nothing changed.
    AlreadyQueued,
    /// The wait list was empty, so the identifier now waits.
    Enqueued,
    /// The joiner was paired with a waiting opponent.
    Paired(MatchInfo),
}

/// What a leave request produced.
#[derive(Clone, Copy, PartialEq, Eq, Structural, Debug)]
pub enum LeaveOutcome {
    /// The identifier was waiting and has been taken off the wait list.
    Removed,
    /// The identifier was not waiting; nothing changed.
    NotQueued,
}

} // verus!
