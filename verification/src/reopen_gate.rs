//! Opening the database anew after it has been lost: all connections are given up before
//! the database is opened, and each party gets one of the new ones.
use vstd::prelude::*;

verus! {

/// Where a reopening stands: who has given up its connection, how many new ones there are,
/// and who has one.
#[derive(Clone, Copy, Debug)]
pub struct ReopenGate {
    pub parties: usize,
    /// Whether the database is discarded rather than restored.
    pub reset: bool,
    pub arrived: usize,
    pub fresh: usize,
    pub ready: bool,
    pub taken: usize,
}

/// What a party does when it has given up its connection.
#[derive(Clone, Copy, PartialEq, Eq, Structural, Debug)]
pub enum Arrival {
    /// Others still hold theirs: wait.
    Wait,
    /// Nobody holds one: discard the database, or restore its safety copy, and open it.
    Reopen { discard: bool },
}

impl ReopenGate {
    /// Nothing is opened before all have given up; then there is a new connection for each
    /// that has none.
    pub open spec fn wf(&self) -> bool {
        &&& self.parties > 0
        &&& self.arrived <= self.parties
        &&& self.ready ==> self.arrived == self.parties && self.fresh + self.taken == self.parties
        &&& !self.ready ==> self.fresh == 0 && self.taken == 0
    }

    pub fn new(parties: usize, reset: bool) -> (g: Self)
        requires
            parties > 0,
        ensures
            g.wf(),
            g.parties == parties,
            g.reset == reset,
            g.arrived == 0,
            !g.ready,
    {
        ReopenGate { parties, reset, arrived: 0, fresh: 0, ready: false, taken: 0 }
    }

    /// A party gives up its connection.
    pub fn arrive(&mut self) -> (a: Arrival)
        requires
            old(self).wf(),
            old(self).arrived < old(self).parties,
        ensures
            final(self).wf(),
            final(self).arrived == old(self).arrived + 1,
            final(self).parties == old(self).parties,
            final(self).reset == old(self).reset,
            final(self).ready == old(self).ready,
            final(self).taken == old(self).taken,
            a == (if final(self).arrived == final(self).parties {
                Arrival::Reopen { discard: final(self).reset }
            } else {
                Arrival::Wait
            }),
    {
        self.arrived += 1;
        if self.arrived == self.parties {
            Arrival::Reopen { discard: self.reset }
        } else {
            Arrival::Wait
        }
    }

    /// The database is open again, with a connection for each party.
    pub fn opened(&mut self)
        requires
            old(self).wf(),
            !old(self).ready,
            old(self).arrived == old(self).parties,
        ensures
            final(self).wf(),
            final(self).ready,
            final(self).fresh == final(self).parties,
            final(self).parties == old(self).parties,
            final(self).reset == old(self).reset,
            final(self).arrived == old(self).arrived,
            final(self).taken == 0,
    {
        self.fresh = self.parties;
        self.ready = true;
    }

    /// A party takes a new connection; says whether all have one now. There is one for it:
    /// as long as not all have one, one is left.
    pub fn take(&mut self) -> (all: bool)
        requires
            old(self).wf(),
            old(self).ready,
            old(self).taken < old(self).parties,
        ensures
            old(self).fresh > 0,
            final(self).wf(),
            final(self).ready,
            final(self).taken == old(self).taken + 1,
            final(self).fresh == old(self).fresh - 1,
            final(self).parties == old(self).parties,
            final(self).arrived == old(self).arrived,
            final(self).reset == old(self).reset,
            all == (final(self).taken == final(self).parties),
    {
        self.fresh -= 1;
        self.taken += 1;
        self.taken == self.parties
    }

    /// Whether all parties have a new connection.
    pub fn is_over(&self) -> (b: bool)
        ensures
            b == (self.taken >= self.parties),
    {
        self.taken >= self.parties
    }
}

/// No party gets a new connection while another still holds an old one, and never do more
/// parties get one than there are.
pub proof fn law_old_connections_go_first(g: ReopenGate)
    requires
        g.wf(),
    ensures
        g.taken > 0 ==> g.arrived == g.parties,
        g.taken <= g.parties,
        g.taken == g.parties ==> g.fresh == 0,
{
}

} // verus!
