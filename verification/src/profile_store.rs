//! The store of registered profiles: a mapping from profile identifier to
//! the profile record stored under it.
use vstd::prelude::*;
use std::collections::HashMap;
use crate::Profile;

verus! {

broadcast use vstd::std_specs::hash::group_hash_axioms;

/// Registered profiles, keyed by identifier.
pub struct ProfileStore {
    m: HashMap<u128, Profile>,
}

impl View for ProfileStore {
    type V = Map<u128, Profile>;

    closed spec fn view(&self) -> Map<u128, Profile> {
        self.m@
    }
}

impl ProfileStore {
    /// Every stored record carries the identifier it is stored under.
    pub open spec fn wf(&self) -> bool {
        forall|id: u128| self@.contains_key(id) ==> (#[trigger] self@[id]).id == id
    }

    pub fn new() -> (s: ProfileStore)
        ensures
            s@ == Map::<u128, Profile>::empty(),
            s.wf(),
    {
        ProfileStore { m: HashMap::new() }
    }

    /// Store a profile under its identifier, replacing any record already
    /// stored there.
    pub fn insert(&mut self, p: Profile)
        requires
            old(self).wf(),
        ensures
            final(self)@ == old(self)@.insert(p.id, p),
            final(self).wf(),
    {
        let ghost gp = p;
        let id = p.id;
        self.m.insert(id, p);
        proof {
            assert forall|x: u128| self@.contains_key(x) implies (#[trigger] self@[x]).id
                == x by {
                if x == gp.id {
                    assert(self@[x] == gp);
                } else {
                    assert(self@[x] == old(self)@[x]);
                }
            }
        }
    }

    pub fn contains(&self, id: u128) -> (r: bool)
        ensures
            r == self@.contains_key(id),
    {
        self.m.contains_key(&id)
    }

    /// Read a profile back by its identifier.
    pub fn get(&self, id: u128) -> (r: Option<&Profile>)
        ensures
            match r {
                Some(p) => self@.contains_key(id) && *p == self@[id],
                None => !self@.contains_key(id),
            },
    {
        self.m.get(&id)
    }
}

} // verus!
