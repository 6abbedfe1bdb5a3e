//! The registry of running sessions, keyed by join code.
use std::collections::HashMap;
use vstd::prelude::*;
use vstd::std_specs::hash::group_hash_axioms;

verus! {

broadcast use group_hash_axioms;

/// The running sessions, each reachable under its join code through a
/// handle of type `H`.
pub struct GameRegistry<H> {
    games: HashMap<u32, H>,
}

impl<H> GameRegistry<H> {
    pub closed spec fn games(&self) -> Map<u32, H> {
        self.games@
    }

    pub fn new() -> (r: Self)
        ensures
            r.games() == Map::<u32, H>::empty(),
    {
        GameRegistry { games: HashMap::new() }
    }

    /// Registers a session under its join code. Hosting again under a code
    /// that is taken replaces the earlier entry, so one code never leads to
    /// two sessions.
    pub fn register(&mut self, code: u32, handle: H)
        ensures
            final(self).games() == old(self).games().insert(code, handle),
    {
        let _ = self.games.insert(code, handle);
    }

    /// The session with join code `code`, if one is running.
    pub fn lookup(&self, code: u32) -> (r: Option<&H>)
        ensures
            r is Some == self.games().contains_key(code),
            r is Some ==> *r->0 == self.games()[code],
    {
        self.games.get(&code)
    }

    /// Forgets the session with join code `code`.
    pub fn unregister(&mut self, code: u32)
        ensures
            final(self).games() == old(self).games().remove(code),
    {
        let _ = self.games.remove(&code);
    }

    pub fn len(&self) -> (r: usize)
        ensures
            r == self.games().len(),
    {
        self.games.len()
    }
}

} // verus!
