//! Numbers that were given out once are never given out again: a mark remembers the
//! highest one, and deletions do not lower it.
use crate::text::same;
use vstd::prelude::*;
use vstd::string::*;

verus! {

/// The tables whose rows have numbers.
#[derive(Clone, Copy, PartialEq, Eq, Structural, Debug)]
pub enum Entity {
    Players,
    Games,
    Collections,
}

/// The table of a name.
pub open spec fn entity_named(name: Seq<char>) -> Option<Entity> {
    if name == "players"@ {
        Some(Entity::Players)
    } else if name == "games"@ {
        Some(Entity::Games)
    } else if name == "collections"@ {
        Some(Entity::Collections)
    } else {
        None
    }
}

/// Finds the table of a name. Only those whose rows have numbers are accepted.
pub fn table_for(name: &str) -> (r: Result<Entity, String>)
    ensures
        match r {
            Ok(e) => entity_named(name@) == Some(e),
            Err(m) => entity_named(name@) is None && m@ == "unknown id entity: "@ + name@,
        },
{
    if same(name, "players") {
        Ok(Entity::Players)
    } else if same(name, "games") {
        Ok(Entity::Games)
    } else if same(name, "collections") {
        Ok(Entity::Collections)
    } else {
        let mut m: String = "unknown id entity: ".to_owned();
        m.append(name);
        Err(m)
    }
}

/// The highest number given out in each table; 0 for none.
#[derive(Clone, Copy, Debug)]
pub struct IdMarks {
    pub players: u32,
    pub games: u32,
    pub collections: u32,
}

pub open spec fn max_of(a: u32, b: u32) -> u32 {
    if a < b {
        b
    } else {
        a
    }
}

impl IdMarks {
    pub open spec fn mark(&self, e: Entity) -> u32 {
        match e {
            Entity::Players => self.players,
            Entity::Games => self.games,
            Entity::Collections => self.collections,
        }
    }

    /// No number has been given out.
    pub fn new() -> (m: Self)
        ensures
            forall|e: Entity| #[trigger] m.mark(e) == 0,
    {
        IdMarks { players: 0, games: 0, collections: 0 }
    }

    fn mark_of(&self, e: Entity) -> (n: u32)
        ensures
            n == self.mark(e),
    {
        match e {
            Entity::Players => self.players,
            Entity::Games => self.games,
            Entity::Collections => self.collections,
        }
    }

    /// The first number that can be given out in a table, whose highest number is
    /// `live_max`, 0 if it is empty.
    pub fn next_id(&self, entity: &str, live_max: u32) -> (r: Result<u32, String>)
        requires
            entity_named(entity@) is Some ==> max_of(live_max, self.mark(entity_named(entity@)->0))
                < u32::MAX,
        ensures
            match r {
                Ok(n) => entity_named(entity@) is Some && n == max_of(
                    live_max,
                    self.mark(entity_named(entity@)->0),
                ) + 1,
                Err(m) => entity_named(entity@) is None && m@ == "unknown id entity: "@ + entity@,
            },
    {
        let e: Entity = match table_for(entity) {
            Ok(e) => e,
            Err(m) => return Err(m),
        };
        let mark: u32 = self.mark_of(e);
        if live_max < mark {
            Ok(mark + 1)
        } else {
            Ok(live_max + 1)
        }
    }

    /// Remembers that the numbers up to `last_used` have been given out. The mark is never
    /// lowered.
    pub fn raise_high_water(&mut self, entity: &str, last_used: u32) -> (r: Result<(), String>)
        ensures
            match r {
                Ok(_) => entity_named(entity@) is Some && forall|e: Entity| #[trigger]
                    final(self).mark(e) == (if Some(e) == entity_named(entity@) {
                        max_of(old(self).mark(e), last_used)
                    } else {
                        old(self).mark(e)
                    }),
                Err(m) => entity_named(entity@) is None && m@ == "unknown id entity: "@ + entity@
                    && *final(self) == *old(self),
            },
    {
        let e: Entity = match table_for(entity) {
            Ok(e) => e,
            Err(m) => return Err(m),
        };
        let mark: u32 = self.mark_of(e);
        let top: u32 = if mark < last_used {
            last_used
        } else {
            mark
        };
        match e {
            Entity::Players => self.players = top,
            Entity::Games => self.games = top,
            Entity::Collections => self.collections = top,
        }
        Ok(())
    }
}

/// A number that was remembered is not given out again, whatever rows have been deleted
/// and whatever was remembered since: the marks only rise, and what is given out lies
/// above them.
pub proof fn law_numbers_are_not_given_out_again(
    before: IdMarks,
    after: IdMarks,
    e: Entity,
    last_used: u32,
    later: u32,
    live_max: u32,
)
    requires
        after.mark(e) == max_of(max_of(before.mark(e), last_used), later),
        max_of(live_max, after.mark(e)) < u32::MAX,
    ensures
        max_of(live_max, after.mark(e)) + 1 > last_used,
        max_of(live_max, after.mark(e)) + 1 > later,
        max_of(live_max, after.mark(e)) + 1 > before.mark(e),
        max_of(live_max, after.mark(e)) + 1 > live_max,
{
}

/// Each table has its own name and its own mark.
pub proof fn law_tables_have_their_own_marks(m: IdMarks)
    ensures
        entity_named("players"@) == Some(Entity::Players),
        entity_named("games"@) == Some(Entity::Games),
        entity_named("collections"@) == Some(Entity::Collections),
        m.mark(Entity::Players) == m.players,
        m.mark(Entity::Games) == m.games,
        m.mark(Entity::Collections) == m.collections,
        forall|a: u32, b: u32| #[trigger] max_of(a, b) >= a && max_of(a, b) >= b && (max_of(a, b)
            == a || max_of(a, b) == b),
{
    reveal_strlit("players");
    reveal_strlit("games");
    reveal_strlit("collections");
    assert("players"@.len() == 7 && "games"@.len() == 5 && "collections"@.len() == 11);
}

} // verus!
