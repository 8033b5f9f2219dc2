//! The PGN files that are open in the browser: each is a session, with a number of its
//! own.
use std::collections::HashMap;
use vstd::prelude::*;

verus! {

broadcast use vstd::std_specs::hash::group_hash_axioms;

/// A file that was opened.
#[derive(Clone, Copy, PartialEq, Eq, Structural, Debug)]
pub struct PgnOpened {
    /// The session's number, by which the file is asked for.
    pub session: u64,
    /// The games in the file.
    pub count: usize,
}

/// The sessions that are open, with the number of games of each.
pub struct PgnSessions {
    pub next: u64,
    pub open: HashMap<u64, usize>,
}

impl PgnSessions {
    pub fn new() -> (s: Self)
        ensures
            s.next == 0,
            s.open@ == Map::<u64, usize>::empty(),
    {
        PgnSessions { next: 0, open: HashMap::new() }
    }

    /// Opens a file with so many games.
    pub fn pgn_open(&mut self, count: usize) -> (o: PgnOpened)
        ensures
            o == (PgnOpened { session: old(self).next, count }),
            final(self).open@ == old(self).open@.insert(old(self).next, count),
            final(self).next == old(self).next.wrapping_add(1),
    {
        let session: u64 = self.next;
        self.next = self.next.wrapping_add(1);
        self.open.insert(session, count);
        PgnOpened { session, count }
    }

    /// The games of a session, if it is open.
    pub fn find(&self, session: u64) -> (r: Result<usize, String>)
        ensures
            if self.open@.contains_key(session) {
                r == Ok::<usize, String>(self.open@[session])
            } else {
                r matches Err(e) && e@ == "pgn session not found"@
            },
    {
        match self.open.get(&session) {
            Some(n) => Ok(*n),
            None => Err("pgn session not found".to_owned()),
        }
    }

    /// Closes a session.
    pub fn pgn_close(&mut self, session: u64)
        ensures
            final(self).open@ == old(self).open@.remove(session),
            final(self).next == old(self).next,
    {
        self.open.remove(&session);
    }
}

/// A session is open from its opening to its closing.
pub proof fn law_a_session_lasts_until_closed(open: Map<u64, usize>, session: u64, count: usize)
    ensures
        open.insert(session, count).contains_key(session),
        open.insert(session, count)[session] == count,
        !open.insert(session, count).remove(session).contains_key(session),
{
}

} // verus!
