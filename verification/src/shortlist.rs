//! The tournaments that a player follows.
use crate::text::same;
use vstd::prelude::*;
use vstd::string::*;

verus! {

/// A tournament, and who the player is in it.
#[derive(Debug)]
pub enum ShortlistEntry {
    Individual {
        id: String,
        name: String,
        url: String,
        my_snr: u32,
        my_name: String,
        my_fide_id: Option<u64>,
    },
    Team {
        id: String,
        name: String,
        url: String,
        my_team_name: String,
        /// Whether the home team has Black on the first board and on every other one from
        /// there.
        home_black_board1: bool,
    },
}

/// The tournament's own identifier.
pub open spec fn entry_id(e: ShortlistEntry) -> Seq<char> {
    match e {
        ShortlistEntry::Individual { id, .. } => id@,
        ShortlistEntry::Team { id, .. } => id@,
    }
}

impl ShortlistEntry {
    pub fn id(&self) -> (r: &str)
        ensures
            r@ == entry_id(*self),
    {
        match self {
            ShortlistEntry::Individual { id, .. } => id.as_str(),
            ShortlistEntry::Team { id, .. } => id.as_str(),
        }
    }
}

/// Whether a tournament is in a list.
pub open spec fn lists(entries: Seq<ShortlistEntry>, id: Seq<char>) -> bool {
    exists|i: int| 0 <= i < entries.len() && entry_id(#[trigger] entries[i]) == id
}

/// The first entry of a tournament.
pub fn find_entry(entries: &[ShortlistEntry], id: &str) -> (r: Option<usize>)
    ensures
        match r {
            Some(i) => i < entries.len() && entry_id(entries@[i as int]) == id@ && forall|k: int|
                0 <= k < i ==> entry_id(#[trigger] entries@[k]) != id@,
            None => !lists(entries@, id@),
        },
{
    let mut i: usize = 0;
    while i < entries.len()
        invariant
            i <= entries.len(),
            forall|k: int| 0 <= k < i ==> entry_id(#[trigger] entries@[k]) != id@,
        decreases entries.len() - i,
    {
        if same(entries[i].id(), id) {
            return Some(i);
        }
        i += 1;
    }
    None
}

pub open spec fn not_listed(id: Seq<char>) -> Seq<char> {
    "Tournament "@ + id + " not found in shortlist"@
}

fn tournament_text(id: &str, what: &str) -> (s: String)
    ensures
        s@ == "Tournament "@ + id@ + what@,
{
    let mut s: String = "Tournament ".to_owned();
    s.append(id);
    s.append(what);
    s
}

/// Adds a tournament at the end, unless it is there already.
pub fn add_entry(entries: &mut Vec<ShortlistEntry>, entry: ShortlistEntry) -> (r: Result<
    (),
    String,
>)
    ensures
        if lists(old(entries)@, entry_id(entry)) {
            &&& *final(entries) == *old(entries)
            &&& r matches Err(e)
            &&& e@ == "Tournament "@ + entry_id(entry) + " is already in your shortlist"@
        } else {
            r is Ok && final(entries)@ == old(entries)@.push(entry)
        },
{
    if find_entry(entries, entry.id()).is_some() {
        return Err(tournament_text(entry.id(), " is already in your shortlist"));
    }
    entries.push(entry);
    Ok(())
}

pub open spec fn other_than(id: Seq<char>) -> spec_fn(ShortlistEntry) -> bool {
    |e: ShortlistEntry| entry_id(e) != id
}

/// Removes a tournament, if it is there.
pub fn remove_entry(entries: &mut Vec<ShortlistEntry>, id: &str) -> (r: Result<(), String>)
    ensures
        if lists(old(entries)@, id@) {
            r is Ok && final(entries)@ == old(entries)@.filter(other_than(id@))
        } else {
            &&& final(entries)@ == old(entries)@
            &&& r matches Err(e)
            &&& e@ == not_listed(id@)
        },
{
    let ghost all = entries@;
    let before: usize = entries.len();
    let mut kept: Vec<ShortlistEntry> = Vec::new();
    // Entries are taken from the end, and put back in their order.
    let mut back: Vec<ShortlistEntry> = Vec::new();
    let ghost wanted = other_than(id@);
    assert(all.take(all.len() as int) =~= all);
    assert(back@.reverse() =~= all.skip(all.len() as int).filter(wanted)) by {
        reveal(Seq::filter);
        assert(all.skip(all.len() as int) =~= Seq::empty());
    }
    while entries.len() > 0
        invariant
            wanted == other_than(id@),
            entries@ == all.take(entries@.len() as int),
            entries@.len() <= all.len(),
            back@.reverse() == all.skip(entries@.len() as int).filter(wanted),
            back@.len() <= all.len() - entries@.len(),
            (back@.len() < all.len() - entries@.len()) == (exists|i: int|
                entries@.len() <= i < all.len() && entry_id(#[trigger] all[i]) == id@),
        decreases entries.len(),
    {
        let ghost n = entries@.len() as int;
        let ghost before_back = back@;
        match entries.pop() {
            Some(e) => {
                assert(e == all[n - 1]);
                assert(entries@ =~= all.take(n - 1));
                proof {
                    let tail = all.skip(n - 1);
                    assert(tail =~= seq![e] + all.skip(n));
                    Seq::filter_distributes_over_add(seq![e], all.skip(n), wanted);
                    assert(seq![e].filter(wanted) == (if wanted(e) {
                        seq![e]
                    } else {
                        Seq::<ShortlistEntry>::empty()
                    })) by {
                        reveal_with_fuel(Seq::filter, 2);
                        assert(seq![e].drop_last() =~= Seq::<ShortlistEntry>::empty());
                        assert(seq![e].last() == e);
                        assert(Seq::<ShortlistEntry>::empty().push(e) =~= seq![e]);
                    }
                }
                if !same(e.id(), id) {
                    back.push(e);
                    assert(back@.reverse() =~= seq![e] + before_back.reverse());
                    assert forall|i: int| n - 1 <= i < all.len() && entry_id(#[trigger] all[i])
                        == id@ implies i >= n by {}
                } else {
                    assert(Seq::<ShortlistEntry>::empty() + all.skip(n).filter(wanted) =~= all.skip(
                        n,
                    ).filter(wanted));
                    assert(entry_id(all[n - 1]) == id@);
                }
            },
            None => {},
        }
    }
    assert(all.skip(0) =~= all);
    let ghost rest = back@.reverse();
    let found: bool = back.len() < before;
    while back.len() > 0
        invariant
            kept@ + back@.reverse() == rest,
        decreases back.len(),
    {
        let ghost b = back@;
        let ghost k = kept@;
        match back.pop() {
            Some(e) => {
                kept.push(e);
                assert(b.reverse() =~= seq![e] + b.drop_last().reverse());
                assert(k.push(e) + b.drop_last().reverse() =~= k + b.reverse());
                assert(back@ =~= b.drop_last());
            },
            None => {},
        }
    }
    assert(back@.reverse() =~= Seq::empty());
    assert(kept@ =~= rest);
    proof {
        if !lists(all, id@) {
            lemma_keeps_all(all, wanted);
        }
    }
    *entries = kept;
    if found {
        Ok(())
    } else {
        Err(tournament_text(id, " not found in shortlist"))
    }
}

proof fn lemma_keeps_all(s: Seq<ShortlistEntry>, p: spec_fn(ShortlistEntry) -> bool)
    requires
        forall|i: int| 0 <= i < s.len() ==> p(#[trigger] s[i]),
    ensures
        s.filter(p) == s,
    decreases s.len(),
{
    reveal(Seq::filter);
    if s.len() > 0 {
        let d = s.drop_last();
        assert forall|i: int| 0 <= i < d.len() implies p(#[trigger] d[i]) by {
            assert(d[i] == s[i]);
        }
        lemma_keeps_all(d, p);
        assert(p(s[s.len() - 1]));
        assert(d.push(s.last()) =~= s);
    }
}

/// What was added is removed again: the list is as it was.
pub proof fn law_removing_undoes_adding(entries: Seq<ShortlistEntry>, entry: ShortlistEntry)
    requires
        !lists(entries, entry_id(entry)),
    ensures
        entries.push(entry).filter(other_than(entry_id(entry))) == entries,
{
    reveal(Seq::filter);
    lemma_keeps_all(entries, other_than(entry_id(entry)));
    assert(entries.push(entry).drop_last() =~= entries);
}

/// Removing a tournament takes it away and no other, and a tournament that is not there
/// changes nothing.
pub proof fn law_only_one_tournament_goes(
    entries: Seq<ShortlistEntry>,
    id: Seq<char>,
    e: ShortlistEntry,
)
    ensures
        !lists(entries.filter(other_than(id)), id),
        entry_id(e) != id ==> (entries.filter(other_than(id)).contains(e) <==> entries.contains(e)),
        !lists(entries, id) ==> entries.filter(other_than(id)) == entries,
{
    broadcast use vstd::seq_lib::group_filter_ensures;

    let p = other_than(id);
    let kept = entries.filter(p);
    assert forall|i: int| 0 <= i < kept.len() implies entry_id(#[trigger] kept[i]) != id by {
        assert(p(kept[i]));
    }
    if entry_id(e) != id {
        if entries.contains(e) {
            let i = entries.index_of(e);
            assert(p(entries[i]));
            assert(kept.contains(entries[i]));
        }
        if kept.contains(e) {
            entries.lemma_filter_contains_rev(p, e);
        }
    }
    if !lists(entries, id) {
        assert forall|i: int| 0 <= i < entries.len() implies p(#[trigger] entries[i]) by {
            assert(entry_id(entries[i]) != id);
        }
        lemma_keeps_all(entries, p);
    }
}

} // verus!
