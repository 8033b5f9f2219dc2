//! FIDE numbers for players who have none, by their names. A number is given only where
//! the name belongs to a single one: a wrong number is worse than none.
use crate::csv_file;
use crate::csv_file::{csv_bytes, field_text, read_sound};
use crate::reporter;
use crate::text;
use crate::text::{append_num, chars_of, decimal, parse_u32};
use std::collections::HashMap;
use vstd::hash_map::StringHashMap;
use vstd::prelude::*;
use vstd::string::*;

verus! {

broadcast use vstd::std_specs::hash::group_hash_axioms;

/// The expression that folds a column of names, so that spellings with and without accents
/// and punctuation are the same.
pub fn fold_expr(col: &str) -> (r: String)
    ensures
        r@ == "trim(regexp_replace(strip_accents(lower("@ + col@
            + ")), '[^a-z0-9]+', ' ', 'g'))"@,
{
    let mut r: String = "trim(regexp_replace(strip_accents(lower(".to_owned();
    r.append(col);
    r.append(")), '[^a-z0-9]+', ' ', 'g'))");
    r
}

/// A FIDE number with a folded name: from the FIDE list, with the year of birth where it
/// is known, or from a player of the database that has it.
#[derive(Debug)]
pub struct NamedId {
    pub fide_id: u32,
    pub folded: String,
    pub birth_year: Option<i32>,
}

/// A player without a FIDE number, with the year of the first game where it is known.
#[derive(Debug)]
pub struct Fideless {
    pub id: u32,
    pub folded: String,
    pub first_year: Option<i32>,
}

/// Whether a name belongs to a number.
pub open spec fn owns(known: Seq<NamedId>, name: Seq<char>, id: u32) -> bool {
    exists|i: int|
        0 <= i < known.len() && (#[trigger] known[i]).folded@ == name && known[i].fide_id == id
}

/// Whether a name belongs to this number and to no other.
pub open spec fn is_only(known: Seq<NamedId>, name: Seq<char>, id: u32) -> bool {
    owns(known, name, id) && forall|other: u32| #[trigger] owns(known, name, other) ==> other == id
}

/// The number of a name, if there is a single one.
pub open spec fn match_of(known: Seq<NamedId>, name: Seq<char>) -> Option<u32> {
    if name.len() > 0 && exists|id: u32| is_only(known, name, id) {
        Some(choose|id: u32| is_only(known, name, id))
    } else {
        None
    }
}

/// Whether somebody with this number was born after a year.
pub open spec fn born_after(known: Seq<NamedId>, id: u32, year: int) -> bool {
    exists|i: int|
        0 <= i < known.len() && (#[trigger] known[i]).fide_id == id && known[i].birth_year is Some
            && year < known[i].birth_year->0
}

/// Whether a match is impossible: there is a game from before the birth.
pub open spec fn impossible(known: Seq<NamedId>, id: u32, p: Fideless) -> bool {
    p.first_year is Some && born_after(known, id, p.first_year->0 as int)
}

/// The numbers that players get.
pub open spec fn assignments(known: Seq<NamedId>, players: Seq<Fideless>) -> Seq<(u32, u32)>
    decreases players.len(),
{
    if players.len() == 0 {
        Seq::empty()
    } else {
        let front = assignments(known, players.drop_last());
        let p = players.last();
        match match_of(known, p.folded@) {
            Some(id) => if impossible(known, id, p) {
                front
            } else {
                front.push((p.id, id))
            },
            None => front,
        }
    }
}

/// How many matches were impossible.
pub open spec fn rejections(known: Seq<NamedId>, players: Seq<Fideless>) -> nat
    decreases players.len(),
{
    if players.len() == 0 {
        0
    } else {
        let p = players.last();
        let m = match_of(known, p.folded@);
        rejections(known, players.drop_last()) + (if m is Some && impossible(known, m->0, p) {
            1nat
        } else {
            0nat
        })
    }
}

/// What is known of a name: the one number it belongs to, or that there are several.
#[derive(Clone, Copy, PartialEq, Eq, Structural)]
enum Owner {
    One(u32),
    Several,
}

spec fn knows(m: Map<Seq<char>, Owner>, known: Seq<NamedId>) -> bool {
    forall|name: Seq<char>|
        (#[trigger] m.contains_key(name) <==> exists|id: u32| owns(known, name, id)) && (
        m.contains_key(name) ==> match m[name] {
            Owner::One(id) => is_only(known, name, id),
            Owner::Several => forall|id: u32| !is_only(known, name, id),
        })
}

proof fn lemma_owns_more(known: Seq<NamedId>, e: NamedId, name: Seq<char>, id: u32)
    ensures
        owns(known.push(e), name, id) <==> owns(known, name, id) || (e.folded@ == name && e.fide_id
            == id),
{
    let more = known.push(e);
    if owns(known, name, id) {
        let i = choose|i: int|
            0 <= i < known.len() && (#[trigger] known[i]).folded@ == name && known[i].fide_id == id;
        assert(more[i] == known[i]);
    }
    if e.folded@ == name && e.fide_id == id {
        assert(more[known.len() as int] == e);
    }
    if owns(more, name, id) {
        let i = choose|i: int|
            0 <= i < more.len() && (#[trigger] more[i]).folded@ == name && more[i].fide_id == id;
        if i < known.len() {
            assert(known[i] == more[i]);
        }
    }
}

proof fn lemma_knows_more(
    m: Map<Seq<char>, Owner>,
    known: Seq<NamedId>,
    e: NamedId,
    o: Owner,
)
    requires
        knows(m, known),
        o == (if !m.contains_key(e.folded@) || m[e.folded@] == Owner::One(e.fide_id) {
            Owner::One(e.fide_id)
        } else {
            Owner::Several
        }),
    ensures
        knows(m.insert(e.folded@, o), known.push(e)),
{
    let more = known.push(e);
    let m2 = m.insert(e.folded@, o);
    assert forall|name: Seq<char>|
        (#[trigger] m2.contains_key(name) <==> exists|id: u32| owns(more, name, id)) && (
        m2.contains_key(name) ==> match m2[name] {
            Owner::One(id) => is_only(more, name, id),
            Owner::Several => forall|id: u32| !is_only(more, name, id),
        }) by {
        assert(m.contains_key(name) <==> exists|id: u32| owns(known, name, id));
        assert forall|id: u32| #[trigger] owns(more, name, id) <==> owns(known, name, id) || (
        e.folded@ == name && e.fide_id == id) by {
            lemma_owns_more(known, e, name, id);
        }
        if name == e.folded@ {
            assert(owns(more, name, e.fide_id));
            if !m.contains_key(name) {
                assert forall|other: u32| #[trigger] owns(more, name, other) implies other
                    == e.fide_id by {
                    assert(owns(known, name, other) || other == e.fide_id);
                }
                assert(is_only(more, name, e.fide_id));
            } else {
                match m[name] {
                    Owner::One(id) => {
                        if id == e.fide_id {
                            assert(is_only(more, name, id));
                        } else {
                            assert(owns(more, name, id));
                            assert forall|x: u32| !is_only(more, name, x) by {
                                if is_only(more, name, x) {
                                    assert(id == x);
                                    assert(e.fide_id == x);
                                }
                            }
                        }
                    },
                    Owner::Several => {
                        let a = choose|id: u32| owns(known, name, id);
                        assert(!is_only(known, name, a));
                        let b = choose|b: u32| #[trigger] owns(known, name, b) && b != a;
                        assert(owns(more, name, a) && owns(more, name, b));
                        assert forall|x: u32| !is_only(more, name, x) by {
                            if is_only(more, name, x) {
                                assert(a == x);
                                assert(b == x);
                            }
                        }
                    },
                }
            }
        } else {
            if m.contains_key(name) {
                match m[name] {
                    Owner::One(id) => {
                        assert(is_only(known, name, id));
                        assert(owns(more, name, id));
                        assert(is_only(more, name, id));
                    },
                    Owner::Several => {
                        assert forall|x: u32| !is_only(more, name, x) by {
                            assert(!is_only(known, name, x));
                            if is_only(more, name, x) {
                                assert(owns(known, name, x));
                                let b = choose|b: u32| #[trigger] owns(known, name, b) && b != x;
                                assert(owns(more, name, b));
                            }
                        }
                    },
                }
                let id = choose|id: u32| owns(known, name, id);
                assert(owns(more, name, id));
            }
        }
    }
}

spec fn knows_births(m: Map<u32, i32>, known: Seq<NamedId>) -> bool {
    forall|id: u32, year: int| #[trigger]
        born_after(known, id, year) <==> m.contains_key(id) && year < m[id]
}

proof fn lemma_births_more(m: Map<u32, i32>, known: Seq<NamedId>, e: NamedId, m2: Map<u32, i32>)
    requires
        knows_births(m, known),
        m2 == (match e.birth_year {
            Some(b) => if m.contains_key(e.fide_id) && m[e.fide_id] >= b {
                m
            } else {
                m.insert(e.fide_id, b)
            },
            None => m,
        }),
    ensures
        knows_births(m2, known.push(e)),
{
    let more = known.push(e);
    assert forall|id: u32, year: int| #[trigger]
        born_after(more, id, year) <==> m2.contains_key(id) && year < m2[id] by {
        assert(born_after(known, id, year) <==> m.contains_key(id) && year < m[id]);
        if born_after(known, id, year) {
            let i = choose|i: int|
                0 <= i < known.len() && (#[trigger] known[i]).fide_id == id
                    && known[i].birth_year is Some && year < known[i].birth_year->0;
            assert(more[i] == known[i]);
            assert(born_after(more, id, year));
        }
        if born_after(more, id, year) {
            let i = choose|i: int|
                0 <= i < more.len() && (#[trigger] more[i]).fide_id == id
                    && more[i].birth_year is Some && year < more[i].birth_year->0;
            if i < known.len() {
                assert(known[i] == more[i]);
                assert(born_after(known, id, year));
            }
        }
        if e.fide_id == id && e.birth_year is Some && year < e.birth_year->0 {
            assert(more[known.len() as int] == e);
            assert(born_after(more, id, year));
        }
    }
}

/// What a resolution comes to.
#[derive(Debug)]
pub struct Resolution {
    /// Players with the FIDE numbers that they get.
    pub assigned: Vec<(u32, u32)>,
    /// How many matches the years ruled out.
    pub rejected: u64,
}

/// Gives FIDE numbers to players by their folded names.
pub fn resolve(known: &[NamedId], players: &[Fideless]) -> (r: Resolution)
    ensures
        r.assigned@ == assignments(known@, players@),
        r.rejected == rejections(known@, players@),
{
    let mut owners: StringHashMap<Owner> = StringHashMap::new();
    let mut births: HashMap<u32, i32> = HashMap::new();
    let mut i: usize = 0;
    proof {
        assert(known@.take(0) =~= Seq::empty());
        assert(knows(owners@, known@.take(0)));
        assert(knows_births(births@, known@.take(0)));
    }
    while i < known.len()
        invariant
            i <= known.len(),
            knows(owners@, known@.take(i as int)),
            knows_births(births@, known@.take(i as int)),
        decreases known.len() - i,
    {
        let e: &NamedId = &known[i];
        let ghost before = known@.take(i as int);
        assert(known@.take(i + 1) =~= before.push(*e));
        let o: Owner = match owners.get(e.folded.as_str()) {
            Some(Owner::One(id)) => if *id == e.fide_id {
                Owner::One(e.fide_id)
            } else {
                Owner::Several
            },
            Some(Owner::Several) => Owner::Several,
            None => Owner::One(e.fide_id),
        };
        proof {
            lemma_knows_more(owners@, before, *e, o);
        }
        owners.insert(e.folded.clone(), o);
        let ghost b0 = births@;
        match e.birth_year {
            Some(b) => {
                let later: bool = match births.get(&e.fide_id) {
                    Some(x) => *x >= b,
                    None => false,
                };
                if !later {
                    births.insert(e.fide_id, b);
                }
            },
            None => {},
        }
        proof {
            lemma_births_more(b0, before, *e, births@);
        }
        i += 1;
    }
    assert(known@.take(i as int) =~= known@);
    let mut assigned: Vec<(u32, u32)> = Vec::new();
    let mut rejected: u64 = 0;
    let mut j: usize = 0;
    assert(players@.take(0) =~= Seq::empty());
    while j < players.len()
        invariant
            j <= players.len(),
            knows(owners@, known@),
            knows_births(births@, known@),
            assigned@ == assignments(known@, players@.take(j as int)),
            rejected == rejections(known@, players@.take(j as int)),
            rejected <= j,
        decreases players.len() - j,
    {
        let p: &Fideless = &players[j];
        proof {
            let t = players@.take(j + 1);
            assert(t.drop_last() =~= players@.take(j as int));
            assert(t.last() == *p);
        }
        let found: Option<u32> = if p.folded.as_str().is_empty() {
            None
        } else {
            match owners.get(p.folded.as_str()) {
                Some(Owner::One(id)) => Some(*id),
                _ => None,
            }
        };
        proof {
            assert(owners@.contains_key(p.folded@) <==> exists|id: u32|
                owns(known@, p.folded@, id));
            if found is Some {
                assert(is_only(known@, p.folded@, found->0));
                let c = choose|id: u32| is_only(known@, p.folded@, id);
                assert(is_only(known@, p.folded@, c));
                assert(owns(known@, p.folded@, c));
            }
            assert(found == match_of(known@, p.folded@));
        }
        match found {
            Some(id) => {
                let too_young: bool = match p.first_year {
                    Some(y) => match births.get(&id) {
                        Some(b) => y < *b,
                        None => false,
                    },
                    None => false,
                };
                proof {
                    if p.first_year is Some {
                        assert(born_after(known@, id, p.first_year->0 as int) <==> births@.contains_key(id)
                            && p.first_year->0 < births@[id]);
                    }
                    assert(too_young == impossible(known@, id, *p));
                }
                if too_young {
                    rejected += 1;
                } else {
                    assigned.push((p.id, id));
                }
            },
            None => {},
        }
        j += 1;
    }
    assert(players@.take(j as int) =~= players@);
    Resolution { assigned, rejected }
}

/// A name that two numbers share is never guessed.
pub proof fn law_shared_names_are_not_guessed(
    known: Seq<NamedId>,
    name: Seq<char>,
    a: u32,
    b: u32,
)
    requires
        owns(known, name, a),
        owns(known, name, b),
        a != b,
    ensures
        match_of(known, name) is None,
{
    assert forall|id: u32| !is_only(known, name, id) by {
        if is_only(known, name, id) {
            assert(a == id);
            assert(b == id);
        }
    }
}

/// Every number that is given belongs to the player's own name, to no other number, and to
/// nobody born after the player's first game.
pub proof fn law_numbers_fit(known: Seq<NamedId>, players: Seq<Fideless>, k: int) -> (j: int)
    requires
        0 <= k < assignments(known, players).len(),
    ensures
        0 <= j < players.len(),
        assignments(known, players)[k].0 == players[j].id,
        is_only(known, players[j].folded@, assignments(known, players)[k].1),
        !impossible(known, assignments(known, players)[k].1, players[j]),
    decreases players.len(),
{
    let front = assignments(known, players.drop_last());
    if k < front.len() {
        let j = law_numbers_fit(known, players.drop_last(), k);
        assert(players.drop_last()[j] == players[j]);
        j
    } else {
        let p = players.last();
        let c = choose|id: u32| is_only(known, p.folded@, id);
        assert(is_only(known, p.folded@, c));
        players.len() - 1
    }
}

// ── What is told ─────────────────────────────────────────────────────────────

/// What is told before anything is done.
pub fn backlog_message(pending: u64) -> (m: String)
    ensures
        m@ == text::dec(pending as nat) + " player(s) without a FIDE ID."@,
{
    let mut m: String = "".to_owned();
    append_num(&mut m, pending);
    m.append(" player(s) without a FIDE ID.");
    proof {
        reveal_strlit("");
        assert(""@ + text::dec(pending as nat) =~= text::dec(pending as nat));
    }
    m
}

/// What is told where there is no FIDE list.
pub const NO_FIDE_LIST: &'static str =
    "No FIDE list loaded — run `chess-db fide refresh --file <FIDE players list>` first.";

/// What is told when the matching begins. `None` where there is no FIDE list to match
/// against.
pub fn matching_message(fide_count: u64) -> (m: Option<String>)
    ensures
        reporter::opt_text(m) == (if fide_count == 0 {
            None
        } else {
            Some(
                "Matching FIDE-less names against "@ + text::dec(fide_count as nat)
                    + " FIDE players + this DB's tagged players…"@,
            )
        }),
{
    if fide_count == 0 {
        return None;
    }
    let mut m: String = "Matching FIDE-less names against ".to_owned();
    append_num(&mut m, fide_count);
    m.append(" FIDE players + this DB's tagged players…");
    Some(m)
}

/// What is told of matches that the years ruled out.
pub open spec fn gate_note(rejected: nat) -> Seq<char> {
    if rejected > 0 {
        " Birth-year gate rejected "@ + text::dec(rejected)
            + " impossible match(es) (game predates FIDE birth year)."@
    } else {
        ""@
    }
}

/// What is told at the end. `after` is how many players are still without a number; `None`
/// where nothing was written.
pub fn done_message(assigned: u64, before: u64, after: Option<u64>, rejected: u64) -> (m: String)
    ensures
        m@ == (match after {
            None => "Dry run — would assign a FIDE ID to "@ + text::dec(assigned as nat) + " of "@
                + text::dec(before as nat) + " FIDE-less player(s)."@,
            Some(after) => "Resolved FIDE IDs: "@ + text::dec(assigned as nat)
                + " player row(s) assigned ("@ + text::dec(before as nat) + " → "@ + text::dec(
                after as nat,
            ) + " still without one)."@,
        }) + gate_note(rejected as nat),
{
    let mut m: String = match after {
        None => {
            let mut m: String = "Dry run — would assign a FIDE ID to ".to_owned();
            append_num(&mut m, assigned);
            m.append(" of ");
            append_num(&mut m, before);
            m.append(" FIDE-less player(s).");
            m
        },
        Some(after) => {
            let mut m: String = "Resolved FIDE IDs: ".to_owned();
            append_num(&mut m, assigned);
            m.append(" player row(s) assigned (");
            append_num(&mut m, before);
            m.append(" → ");
            append_num(&mut m, after);
            m.append(" still without one).");
            m
        },
    };
    let mut gate: String = "".to_owned();
    if rejected > 0 {
        gate = " Birth-year gate rejected ".to_owned();
        append_num(&mut gate, rejected);
        gate.append(" impossible match(es) (game predates FIDE birth year).");
    }
    m.append(gate.as_str());
    m
}

// ── Resolutions in a file ────────────────────────────────────────────────────

/// A resolution: a name, the number that it belongs to, if any, who says so and when.
#[derive(Debug)]
pub struct LedgerEntry {
    pub name: String,
    pub fide_id: Option<u32>,
    pub source: String,
    pub checked: Option<String>,
}

/// A resolution, as values.
pub struct LedgerView {
    pub name: Seq<char>,
    pub fide_id: Option<u32>,
    pub source: Seq<char>,
    pub checked: Option<Seq<char>>,
}

impl View for LedgerEntry {
    type V = LedgerView;

    open spec fn view(&self) -> LedgerView {
        LedgerView {
            name: self.name@,
            fide_id: self.fide_id,
            source: self.source@,
            checked: reporter::opt_text(self.checked),
        }
    }
}

/// The resolution that a row is of: none where it has no name.
pub open spec fn entry_in(f: Seq<Seq<char>>) -> Option<LedgerView> {
    let name = csv_file::trimmed_field(f, 0);
    let source = csv_file::trimmed_field(f, 2);
    let checked = csv_file::trimmed_field(f, 3);
    if name.len() == 0 {
        None
    } else {
        Some(
            LedgerView {
                name,
                fide_id: match text::parse_nat(csv_file::trimmed_field(f, 1), u32::MAX as nat) {
                    Some(id) => Some(id as u32),
                    None => None,
                },
                source: if source.len() > 0 {
                    source
                } else {
                    "import"@
                },
                checked: if checked.len() > 0 {
                    Some(checked)
                } else {
                    None
                },
            },
        )
    }
}

/// Reads a row. Rows without a name are passed over.
pub fn read_entry(f: &[String]) -> (r: Option<LedgerEntry>)
    ensures
        match r {
            Some(e) => entry_in(text::texts(f@)) == Some(e@),
            None => entry_in(text::texts(f@)) is None,
        },
{
    let name: String = field_text(f, 0);
    if name.as_str().is_empty() {
        return None;
    }
    let id: String = field_text(f, 1);
    let source: String = field_text(f, 2);
    let checked: String = field_text(f, 3);
    Some(
        LedgerEntry {
            name,
            fide_id: parse_u32(&chars_of(id.as_str())),
            source: if source.as_str().is_empty() {
                "import".to_owned()
            } else {
                source
            },
            checked: if checked.as_str().is_empty() {
                None
            } else {
                Some(checked)
            },
        },
    )
}

/// What the ledger holds for a name once an entry is taken: one with a number replaces
/// what is there, one without never does.
pub fn taken_entry(there: Option<Option<u32>>, entry: Option<u32>) -> (r: Option<u32>)
    ensures
        r == (match entry {
            Some(id) => Some(id),
            None => match there {
                Some(old_id) => old_id,
                None => None,
            },
        }),
{
    match entry {
        Some(id) => Some(id),
        None => match there {
            Some(old_id) => old_id,
            None => None,
        },
    }
}

/// What is told when a ledger has been taken.
pub fn ledger_message(positives: u64, negatives: u64, assigned: u64) -> (m: String)
    ensures
        m@ == "Imported resolution ledger: "@ + text::dec(positives as nat) + " positive, "@
            + text::dec(negatives as nat) + " negative → "@ + text::dec(assigned as nat)
            + " player row(s) assigned a FIDE ID."@,
{
    let mut m: String = "Imported resolution ledger: ".to_owned();
    append_num(&mut m, positives);
    m.append(" positive, ");
    append_num(&mut m, negatives);
    m.append(" negative → ");
    append_num(&mut m, assigned);
    m.append(" player row(s) assigned a FIDE ID.");
    m
}

/// The resolutions in some rows, in order.
pub open spec fn entries_in(rows: Seq<Seq<Seq<char>>>) -> Seq<LedgerView>
    decreases rows.len(),
{
    if rows.len() == 0 {
        Seq::empty()
    } else {
        let front = entries_in(rows.drop_last());
        match entry_in(rows.last()) {
            Some(e) => front.push(e),
            None => front,
        }
    }
}

pub open spec fn entry_views(v: Seq<LedgerEntry>) -> Seq<LedgerView> {
    v.map_values(|e: LedgerEntry| e@)
}

/// A ledger from a file: its resolutions before the first broken row, and what is wrong with
/// that row.
pub struct Ledger {
    pub entries: Vec<LedgerEntry>,
    pub broken: Option<String>,
}

/// Reads a ledger.
pub fn read_ledger(bytes: &[u8]) -> (r: Ledger)
    ensures
        entry_views(r.entries@) == entries_in(csv_file::sound(csv_file::csv_rows_in(bytes@))),
        reporter::opt_text(r.broken) == csv_file::first_fault(csv_file::csv_rows_in(bytes@)),
{
    let (rows, broken) = read_sound(bytes);
    let ghost all = csv_file::record_views(rows@);
    let mut entries: Vec<LedgerEntry> = Vec::new();
    let mut i: usize = 0;
    assert(all.take(0) =~= Seq::empty());
    assert(entry_views(entries@) =~= Seq::empty());
    while i < rows.len()
        invariant
            i <= rows.len(),
            all == csv_file::record_views(rows@),
            entry_views(entries@) == entries_in(all.take(i as int)),
        decreases rows.len() - i,
    {
        proof {
            assert(all[i as int] == text::texts(rows@[i as int]@));
            assert(all.take(i + 1).drop_last() =~= all.take(i as int));
        }
        if let Some(e) = read_entry(&rows[i]) {
            let ghost had = entry_views(entries@);
            entries.push(e);
            assert(entry_views(entries@) =~= had.push(e@));
        }
        i += 1;
    }
    assert(all.take(i as int) =~= all);
    Ledger { entries, broken }
}

/// A resolution as it is stored.
#[derive(Debug)]
pub struct StoredResolution {
    pub name: String,
    pub fide_id: Option<u32>,
    pub source: Option<String>,
    pub checked: Option<String>,
}

/// A text, or nothing for none.
pub open spec fn or_empty(s: Option<Seq<char>>) -> Seq<char> {
    match s {
        Some(t) => t,
        None => Seq::empty(),
    }
}

/// The record of a resolution in a file: what is not known is left empty.
pub open spec fn resolution_record(r: StoredResolution) -> Seq<Seq<char>> {
    seq![
        r.name@,
        match r.fide_id {
            Some(id) => text::dec(id as nat),
            None => Seq::empty(),
        },
        or_empty(reporter::opt_text(r.source)),
        or_empty(reporter::opt_text(r.checked)),
    ]
}

pub open spec fn resolution_records(v: Seq<StoredResolution>) -> Seq<Seq<Seq<char>>> {
    v.map_values(|r: StoredResolution| resolution_record(r))
}

/// The headings of a ledger.
pub open spec fn ledger_headings() -> Seq<Seq<char>> {
    seq!["name_normalized"@, "fide_id"@, "source"@, "checked_at"@]
}

fn known_text(s: &Option<String>) -> (r: String)
    ensures
        r@ == or_empty(reporter::opt_text(*s)),
{
    match s {
        Some(t) => t.clone(),
        None => String::new(),
    }
}

/// The file of a ledger: headings, and a row for each resolution.
pub fn ledger_csv(stored: &[StoredResolution]) -> (out: Vec<u8>)
    ensures
        out@ == csv_file::csv_of(seq![ledger_headings()] + resolution_records(stored@)),
        csv_file::csv_rows_in(out@) == csv_file::all_sound(resolution_records(stored@)),
{
    let mut records: Vec<Vec<String>> = Vec::new();
    let mut head: Vec<String> = Vec::new();
    head.push("name_normalized".to_owned());
    head.push("fide_id".to_owned());
    head.push("source".to_owned());
    head.push("checked_at".to_owned());
    assert(text::texts(head@) =~= ledger_headings());
    records.push(head);
    assert(csv_file::record_views(records@) =~= seq![ledger_headings()] + resolution_records(
        stored@.take(0),
    ));
    let mut i: usize = 0;
    while i < stored.len()
        invariant
            i <= stored.len(),
            csv_file::record_views(records@) == seq![ledger_headings()] + resolution_records(
                stored@.take(i as int),
            ),
        decreases stored.len() - i,
    {
        let ghost had = csv_file::record_views(records@);
        let s: &StoredResolution = &stored[i];
        let mut r: Vec<String> = Vec::new();
        r.push(s.name.clone());
        r.push(
            match s.fide_id {
                Some(id) => decimal(id as u64),
                None => String::new(),
            },
        );
        r.push(known_text(&s.source));
        r.push(known_text(&s.checked));
        assert(text::texts(r@) =~= resolution_record(stored@[i as int]));
        records.push(r);
        i += 1;
        proof {
            let last = resolution_record(stored@[i - 1]);
            assert(csv_file::record_views(records@) =~= had.push(last));
            assert(resolution_records(stored@.take(i as int)) =~= resolution_records(
                stored@.take(i - 1),
            ).push(last));
            assert(csv_file::record_views(records@) =~= seq![ledger_headings()]
                + resolution_records(stored@.take(i as int)));
        }
    }
    proof {
        assert(stored@.take(i as int) =~= stored@);
        reveal_strlit("name_normalized");
        let all = csv_file::record_views(records@);
        assert(all[0] == ledger_headings());
        assert forall|k: int| 0 <= k < all.len() implies (#[trigger] all[k]).len() == all[0].len() by {
            if k > 0 {
                assert(all[k] == resolution_records(stored@)[k - 1]);
            }
        }
        assert(all.skip(1) =~= resolution_records(stored@));
    }
    csv_bytes(&records)
}

/// Whether a resolution is as the ledger keeps them: a name, and texts without white space at
/// their ends.
pub open spec fn is_kept(r: StoredResolution) -> bool {
    &&& r.name@.len() > 0
    &&& text::trim(r.name@) == r.name@
    &&& r.source matches Some(s) ==> s@.len() > 0 && text::trim(s@) == s@
    &&& r.checked matches Some(c) ==> c@.len() > 0 && text::trim(c@) == c@
}

proof fn lemma_resolution_comes_back(r: StoredResolution)
    requires
        is_kept(r),
    ensures
        entry_in(resolution_record(r)) == Some(
            LedgerView {
                name: r.name@,
                fide_id: r.fide_id,
                source: match r.source {
                    Some(s) => s@,
                    None => "import"@,
                },
                checked: reporter::opt_text(r.checked),
            },
        ),
{
    let f = resolution_record(r);
    assert(text::trim(Seq::<char>::empty()) =~= Seq::empty());
    assert(text::parse_nat(Seq::<char>::empty(), u32::MAX as nat) is None);
    if let Some(id) = r.fide_id {
        text::law_decimal_reads_back(id as nat, u32::MAX as nat);
        text::law_decimal_is_one_word(id as nat);
    }
    assert(f[0] == r.name@);
    assert(f[3] == or_empty(reporter::opt_text(r.checked)));
}

/// A ledger that goes out to a file comes back from it, with every number and every name
/// that has none; only one that nobody vouches for is then vouched for by the import.
pub proof fn law_ledger_comes_back(stored: Seq<StoredResolution>)
    requires
        forall|i: int| 0 <= i < stored.len() ==> is_kept(#[trigger] stored[i]),
    ensures
        entries_in(csv_file::sound(csv_file::all_sound(resolution_records(stored)))) == stored.map_values(
            |r: StoredResolution|
                LedgerView {
                    name: r.name@,
                    fide_id: r.fide_id,
                    source: match r.source {
                        Some(s) => s@,
                        None => "import"@,
                    },
                    checked: reporter::opt_text(r.checked),
                },
        ),
        csv_file::first_fault(csv_file::all_sound(resolution_records(stored))) is None,
    decreases stored.len(),
{
    csv_file::law_sound_rows_are_all_read(resolution_records(stored));
    let back = |r: StoredResolution|
        LedgerView {
            name: r.name@,
            fide_id: r.fide_id,
            source: match r.source {
                Some(s) => s@,
                None => "import"@,
            },
            checked: reporter::opt_text(r.checked),
        };
    let rows = resolution_records(stored);
    if stored.len() > 0 {
        let front = stored.drop_last();
        law_ledger_comes_back(front);
        csv_file::law_sound_rows_are_all_read(resolution_records(front));
        assert(rows.drop_last() =~= resolution_records(front));
        assert(is_kept(stored[stored.len() - 1]));
        lemma_resolution_comes_back(stored.last());
        assert(rows.last() == resolution_record(stored.last()));
        assert(stored.map_values(back) =~= front.map_values(back).push(back(stored.last())));
    } else {
        assert(rows =~= Seq::empty());
        assert(stored.map_values(back) =~= Seq::empty());
    }
}

// ── Laws of matches ──────────────────────────────────────────────────────────

/// A player whose name belongs to a single number gets that number, unless the player's first
/// game was before that number's birth.
pub proof fn law_single_names_are_matched(known: Seq<NamedId>, players: Seq<Fideless>, j: int, id: u32)
    requires
        0 <= j < players.len(),
        players[j].folded@.len() > 0,
        is_only(known, players[j].folded@, id),
        !impossible(known, id, players[j]),
    ensures
        assignments(known, players).contains((players[j].id, id)),
    decreases players.len(),
{
    let front = players.drop_last();
    let a = assignments(known, front);
    let all = assignments(known, players);
    if j < front.len() {
        assert(front[j] == players[j]);
        law_single_names_are_matched(known, front, j, id);
        let i = a.index_of((players[j].id, id));
        assert(all[i] == a[i]);
    } else {
        lemma_match_is(known, players[j].folded@, id);
        assert(all[a.len() as int] == (players[j].id, id));
    }
}

proof fn lemma_match_is(known: Seq<NamedId>, name: Seq<char>, id: u32)
    requires
        name.len() > 0,
        is_only(known, name, id),
    ensures
        match_of(known, name) == Some(id),
{
    let c = choose|c: u32| is_only(known, name, c);
    assert(is_only(known, name, c));
    assert(owns(known, name, c));
}

/// Every match is taken or ruled out by the years: none is both, and none is lost.
pub proof fn law_matches_are_taken_or_ruled_out(known: Seq<NamedId>, players: Seq<Fideless>)
    ensures
        assignments(known, players).len() + rejections(known, players) <= players.len(),
        (forall|j: int|
            0 <= j < players.len() ==> match_of(known, (#[trigger] players[j]).folded@) is Some)
            ==> assignments(known, players).len() + rejections(known, players) == players.len(),
    decreases players.len(),
{
    if players.len() > 0 {
        let front = players.drop_last();
        law_matches_are_taken_or_ruled_out(known, front);
        if forall|j: int|
            0 <= j < players.len() ==> match_of(known, (#[trigger] players[j]).folded@) is Some {
            assert forall|j: int| 0 <= j < front.len() implies match_of(
                known,
                (#[trigger] front[j]).folded@,
            ) is Some by {
                assert(front[j] == players[j]);
            }
            assert(match_of(known, players[players.len() - 1].folded@) is Some);
        }
    }
}

/// A game in the year of the birth, or later, rules no match out; one before it does.
pub proof fn law_years_rule_out(known: Seq<NamedId>, i: int, p: Fideless)
    requires
        0 <= i < known.len(),
        known[i].birth_year is Some,
        p.first_year is Some,
    ensures
        p.first_year->0 < known[i].birth_year->0 ==> impossible(known, known[i].fide_id, p),
        (forall|k: int|
            0 <= k < known.len() && (#[trigger] known[k]).birth_year is Some
                ==> known[k].birth_year->0 <= p.first_year->0) ==> !impossible(
            known,
            known[i].fide_id,
            p,
        ),
{
}

/// Without a year of the first game nothing is ruled out.
pub proof fn law_undated_players_are_matched(known: Seq<NamedId>, id: u32, p: Fideless)
    requires
        p.first_year is None,
    ensures
        !impossible(known, id, p),
{
}

/// A row of a ledger without a name is none; a source that is missing is the import.
pub proof fn law_ledger_rows(name: Seq<char>, id: u32)
    requires
        name.len() > 0,
        text::trim(name) == name,
    ensures
        entry_in(seq![name, text::dec(id as nat)]) matches Some(e) && e.name == name && e.fide_id
            == Some(id) && e.source == "import"@ && e.checked is None,
        entry_in(seq![name]) matches Some(e) && e.name == name && e.fide_id is None,
        entry_in(seq![Seq::empty(), text::dec(id as nat)]) is None,
        entry_in(Seq::empty()) is None,
{
    text::law_decimal_is_one_word(id as nat);
    text::law_decimal_reads_back(id as nat, u32::MAX as nat);
    let none = Seq::<char>::empty();
    text::law_trim_leaves_the_middle(none, none, none);
    assert(none + none + none =~= none);
    let a = seq![name, text::dec(id as nat)];
    assert(a[0] == name && a[1] == text::dec(id as nat));
    let b = seq![name];
    assert(b[0] == name);
    assert(text::parse_nat(none, u32::MAX as nat) is None);
}

/// What is told of an entry of the ledger is what it holds.
pub proof fn law_entries_hold_what_is_told(e: LedgerEntry)
    ensures
        e@.name == e.name@,
        e@.fide_id == e.fide_id,
        e@.source == e.source@,
        e@.checked == reporter::opt_text(e.checked),
{
}

/// The columns of a ledger are headed by what stands in them, in the order of the records.
pub proof fn law_ledgers_have_headings(r: StoredResolution)
    ensures
        ledger_headings() == seq!["name_normalized"@, "fide_id"@, "source"@, "checked_at"@],
        resolution_record(r).len() == ledger_headings().len(),
        resolution_record(r)[0] == r.name@,
        r.fide_id is Some ==> resolution_record(r)[1] == text::dec(r.fide_id->0 as nat),
        r.fide_id is None ==> resolution_record(r)[1].len() == 0,
        r.source is Some ==> resolution_record(r)[2] == r.source->0@,
        r.checked is Some ==> resolution_record(r)[3] == r.checked->0@,
        gate_note(0) == ""@,
{
}

} // verus!
