//! How duplicates are removed: what is told beforehand, in which steps the work is done,
//! and what is told in the end.
use crate::dedup;
use crate::fingerprint;
use crate::player_merge;
use crate::player_merge::PlayerRow;
use crate::reporter;
use crate::text;
use crate::text::{append_num, joined, same};
use std::collections::HashMap;
use vstd::prelude::*;
use vstd::string::*;

verus! {

broadcast use vstd::std_specs::hash::group_hash_axioms;

// ── What a merge of players would do ─────────────────────────────────────────

/// No more merges than this are listed.
pub const MAX_LINES: usize = 50;

/// The row with an id.
pub open spec fn row_of(rows: Seq<PlayerRow>, id: u32) -> Option<PlayerRow>
    decreases rows.len(),
{
    if rows.len() == 0 {
        None
    } else if rows.last().id == id {
        Some(rows.last())
    } else {
        row_of(rows.drop_last(), id)
    }
}

/// The rows that go into a row, in their order.
pub open spec fn losers_of(mapping: Seq<(u32, u32)>, sid: u32) -> Seq<u32>
    decreases mapping.len(),
{
    if mapping.len() == 0 {
        Seq::empty()
    } else {
        let front = losers_of(mapping.drop_last(), sid);
        if mapping.last().1 == sid {
            front.push(mapping.last().0)
        } else {
            front
        }
    }
}

pub open spec fn survives(mapping: Seq<(u32, u32)>, sid: u32) -> bool {
    exists|i: int| 0 <= i < mapping.len() && (#[trigger] mapping[i]).1 == sid
}

pub open spec fn increasing(v: Seq<u32>) -> bool {
    forall|i: int, j: int| 0 <= i < j < v.len() ==> (#[trigger] v[i]) < (#[trigger] v[j])
}

/// Whether a list holds the rows that others go into, each once, the lowest first.
pub open spec fn are_survivors(ss: Seq<u32>, mapping: Seq<(u32, u32)>) -> bool {
    increasing(ss) && forall|sid: u32| #[trigger] ss.contains(sid) <==> survives(mapping, sid)
}

pub open spec fn has_fide(r: Option<PlayerRow>) -> bool {
    r is Some && r->0.fide_id is Some
}

/// Whether one of some rows has a FIDE ID.
pub open spec fn any_fide(rows: Seq<PlayerRow>, ids: Seq<u32>) -> bool
    decreases ids.len(),
{
    ids.len() > 0 && (any_fide(rows, ids.drop_last()) || has_fide(row_of(rows, ids.last())))
}

/// Whether a FIDE ID justifies a merge; otherwise the names alone do.
pub open spec fn linked_by_fide(
    rows: Seq<PlayerRow>,
    mapping: Seq<(u32, u32)>,
    sid: u32,
) -> bool {
    has_fide(row_of(rows, sid)) || any_fide(rows, losers_of(mapping, sid))
}

/// How many merges are justified by the names alone.
pub open spec fn by_name_only(
    rows: Seq<PlayerRow>,
    mapping: Seq<(u32, u32)>,
    ss: Seq<u32>,
) -> nat
    decreases ss.len(),
{
    if ss.len() == 0 {
        0
    } else {
        by_name_only(rows, mapping, ss.drop_last()) + (if linked_by_fide(rows, mapping, ss.last()) {
            0nat
        } else {
            1nat
        })
    }
}

/// A row as it is listed.
pub open spec fn loser_text(rows: Seq<PlayerRow>, id: u32) -> Seq<char> {
    match row_of(rows, id) {
        Some(r) => "“"@ + r.name@ + "” ["@ + text::dec(r.id as nat) + "]"@,
        None => "["@ + text::dec(id as nat) + "]"@,
    }
}

/// A merge as it is listed.
pub open spec fn merge_line(
    rows: Seq<PlayerRow>,
    mapping: Seq<(u32, u32)>,
    sid: u32,
) -> Seq<char> {
    let keep = row_of(rows, sid);
    "  keep “"@ + (match keep {
        Some(k) => k.name@,
        None => "?"@,
    }) + "” ["@ + text::dec(sid as nat) + "] ("@ + (if has_fide(keep) {
        "FIDE "@ + text::dec(keep->0.fide_id->0 as nat)
    } else {
        "by name"@
    }) + ") ← "@ + text::join(
        losers_of(mapping, sid).map_values(|l: u32| loser_text(rows, l)),
        ", "@,
    )
}

/// The list of merges: the first ones in full, then how many more there are, then a
/// warning of those that rest on names alone.
pub open spec fn plan_lines(
    rows: Seq<PlayerRow>,
    mapping: Seq<(u32, u32)>,
    ss: Seq<u32>,
) -> Seq<Seq<char>> {
    let shown = (if ss.len() > MAX_LINES {
        ss.take(MAX_LINES as int)
    } else {
        ss
    }).map_values(|sid: u32| merge_line(rows, mapping, sid));
    let more = if ss.len() > MAX_LINES {
        seq!["  …and "@ + text::dec((ss.len() - MAX_LINES) as nat) + " more"@]
    } else {
        Seq::empty()
    };
    let n = by_name_only(rows, mapping, ss);
    let warning = if n > 0 {
        seq![
            text::dec(n)
                + " of these are linked by name alone (no FIDE ID on either side) — check those for genuine namesakes."@,
        ]
    } else {
        Seq::empty()
    };
    shown + more + warning
}

/// What is told of a planned merge: the lines, then the end.
#[derive(Debug)]
pub struct PlanReport {
    pub lines: Vec<String>,
    pub done: String,
}

/// Where rows stand, by id.
spec fn indexes(m: Map<u32, usize>, rows: Seq<PlayerRow>) -> bool {
    forall|id: u32|
        match #[trigger] row_of(rows, id) {
            Some(r) => m.contains_key(id) && m[id] < rows.len() && rows[m[id] as int] == r,
            None => !m.contains_key(id),
        }
}

fn index_rows(rows: &[PlayerRow]) -> (m: HashMap<u32, usize>)
    ensures
        indexes(m@, rows@),
{
    let mut m: HashMap<u32, usize> = HashMap::new();
    let mut i: usize = 0;
    proof {
        assert(rows@.take(0) =~= Seq::empty());
        assert(indexes(m@, rows@.take(0)));
    }
    while i < rows.len()
        invariant
            i <= rows.len(),
            indexes(m@, rows@.take(i as int)),
        decreases rows.len() - i,
    {
        let ghost before = m@;
        m.insert(rows[i].id, i);
        i += 1;
        proof {
            let t = rows@.take(i as int);
            assert(t.drop_last() =~= rows@.take(i - 1));
            assert(t.last() == rows@[i - 1]);
            assert forall|id: u32|
                match #[trigger] row_of(t, id) {
                    Some(r) => m@.contains_key(id) && m@[id] < t.len() && t[m@[id] as int] == r,
                    None => !m@.contains_key(id),
                } by {
                let old_row = row_of(rows@.take(i - 1), id);
                if id != rows@[i - 1].id {
                    assert(row_of(t, id) == old_row);
                    if old_row is Some {
                        assert(rows@.take(i - 1)[before[id] as int] == t[before[id] as int]);
                    }
                }
            }
        }
    }
    assert(rows@.take(i as int) =~= rows@);
    m
}

fn find_row<'a>(rows: &'a [PlayerRow], index: &HashMap<u32, usize>, id: u32) -> (r: Option<
    &'a PlayerRow,
>)
    requires
        indexes(index@, rows@),
    ensures
        match r {
            Some(x) => row_of(rows@, id) == Some(*x),
            None => row_of(rows@, id) is None,
        },
{
    proof {
        let x = row_of(rows@, id);
    }
    match index.get(&id) {
        Some(i) => Some(&rows[*i]),
        None => None,
    }
}

/// The rows that go into each, and the list of those that others go into.
spec fn grouped(
    groups: Map<u32, Vec<u32>>,
    ss: Seq<u32>,
    mapping: Seq<(u32, u32)>,
) -> bool {
    &&& are_survivors(ss, mapping)
    &&& forall|sid: u32|
        (#[trigger] groups.contains_key(sid) <==> survives(mapping, sid)) && (groups.contains_key(
            sid,
        ) ==> groups[sid]@ == losers_of(mapping, sid))
}

fn insert_survivor(v: &mut Vec<u32>, x: u32)
    requires
        increasing(old(v)@),
        !old(v)@.contains(x),
    ensures
        increasing(final(v)@),
        forall|y: u32| #[trigger] final(v)@.contains(y) <==> old(v)@.contains(y) || y == x,
{
    let ghost before = v@;
    let mut p: usize = v.len();
    while p > 0 && v[p - 1] > x
        invariant
            p <= v.len(),
            v@ == before,
            forall|k: int| p <= k < v.len() ==> (#[trigger] v@[k]) > x,
        decreases p,
    {
        p -= 1;
    }
    v.insert(p, x);
    proof {
        let after = v@;
        assert(after =~= before.insert(p as int, x));
        if p > 0 {
            assert(before[p - 1] != x) by {
                if before[p - 1] == x {
                    assert(before.contains(x));
                }
            }
        }
        assert forall|i: int, j: int| 0 <= i < j < after.len() implies (#[trigger] after[i]) < (
        #[trigger] after[j]) by {
            let i2 = if i < p {
                i
            } else {
                i - 1
            };
            let j2 = if j < p {
                j
            } else {
                j - 1
            };
            if i == p {
                assert(after[j] == before[j2]);
            } else if j == p {
                assert(after[i] == before[i2]);
                if i2 < p - 1 {
                    assert(before[i2] < before[p - 1]);
                }
            } else {
                assert(after[i] == before[i2] && after[j] == before[j2]);
                assert(before[i2] < before[j2]);
            }
        }
        assert forall|y: u32| #[trigger] after.contains(y) <==> before.contains(y) || y == x by {
            if before.contains(y) {
                let k = choose|k: int| 0 <= k < before.len() && before[k] == y;
                if k < p {
                    assert(after[k] == y);
                } else {
                    assert(after[k + 1] == y);
                }
            }
            if y == x {
                assert(after[p as int] == y);
            }
            if after.contains(y) && y != x {
                let k = choose|k: int| 0 <= k < after.len() && after[k] == y;
                if k < p {
                    assert(before[k] == y);
                } else {
                    assert(before[k - 1] == y);
                }
            }
        }
    }
}

proof fn lemma_survives_more(mapping: Seq<(u32, u32)>, e: (u32, u32), sid: u32)
    ensures
        survives(mapping.push(e), sid) <==> survives(mapping, sid) || e.1 == sid,
        losers_of(mapping.push(e), sid) == (if e.1 == sid {
            losers_of(mapping, sid).push(e.0)
        } else {
            losers_of(mapping, sid)
        }),
        !survives(mapping, sid) ==> losers_of(mapping, sid).len() == 0,
    decreases mapping.len(),
{
    let more = mapping.push(e);
    assert(more.drop_last() =~= mapping);
    if survives(mapping, sid) {
        let i = choose|i: int| 0 <= i < mapping.len() && (#[trigger] mapping[i]).1 == sid;
        assert(more[i].1 == sid);
    }
    if e.1 == sid {
        assert(more[mapping.len() as int].1 == sid);
    }
    if survives(more, sid) {
        let i = choose|i: int| 0 <= i < more.len() && (#[trigger] more[i]).1 == sid;
        if i < mapping.len() {
            assert(mapping[i].1 == sid);
        }
    }
    if mapping.len() > 0 {
        let d = mapping.drop_last();
        lemma_survives_more(d, mapping.last(), sid);
        assert(d.push(mapping.last()) =~= mapping);
    }
}

fn group_merges(mapping: &[(u32, u32)]) -> (r: (HashMap<u32, Vec<u32>>, Vec<u32>))
    ensures
        grouped(r.0@, r.1@, mapping@),
{
    let mut groups: HashMap<u32, Vec<u32>> = HashMap::new();
    let mut ss: Vec<u32> = Vec::new();
    let mut i: usize = 0;
    proof {
        assert(mapping@.take(0) =~= Seq::empty());
        assert(grouped(groups@, ss@, mapping@.take(0)));
    }
    while i < mapping.len()
        invariant
            i <= mapping.len(),
            grouped(groups@, ss@, mapping@.take(i as int)),
        decreases mapping.len() - i,
    {
        let (loser, sid): (u32, u32) = mapping[i];
        let ghost before = mapping@.take(i as int);
        let ghost g0 = groups@;
        let ghost s0 = ss@;
        proof {
            assert(mapping@.take(i + 1) =~= before.push(mapping@[i as int]));
            lemma_survives_more(before, mapping@[i as int], sid);
            assert(g0.contains_key(sid) <==> survives(before, sid));
            assert(s0.contains(sid) <==> survives(before, sid));
        }
        let mut v: Vec<u32> = match groups.remove(&sid) {
            Some(v) => v,
            None => {
                insert_survivor(&mut ss, sid);
                Vec::new()
            },
        };
        v.push(loser);
        groups.insert(sid, v);
        i += 1;
        proof {
            let now = mapping@.take(i as int);
            assert forall|x: u32|
                (#[trigger] groups@.contains_key(x) <==> survives(now, x)) && (
                groups@.contains_key(x) ==> groups@[x]@ == losers_of(now, x)) by {
                lemma_survives_more(before, mapping@[i - 1], x);
                assert(g0.contains_key(x) <==> survives(before, x));
            }
            assert forall|x: u32| #[trigger] ss@.contains(x) <==> survives(now, x) by {
                lemma_survives_more(before, mapping@[i - 1], x);
                assert(s0.contains(x) <==> survives(before, x));
            }
        }
    }
    assert(mapping@.take(i as int) =~= mapping@);
    (groups, ss)
}

fn loser_name(rows: &[PlayerRow], index: &HashMap<u32, usize>, id: u32) -> (r: String)
    requires
        indexes(index@, rows@),
    ensures
        r@ == loser_text(rows@, id),
{
    match find_row(rows, index, id) {
        Some(r) => {
            let mut m: String = "“".to_owned();
            m.append(r.name.as_str());
            m.append("” [");
            append_num(&mut m, r.id as u64);
            m.append("]");
            m
        },
        None => {
            let mut m: String = "[".to_owned();
            append_num(&mut m, id as u64);
            m.append("]");
            m
        },
    }
}

fn row_has_fide(rows: &[PlayerRow], index: &HashMap<u32, usize>, id: u32) -> (b: bool)
    requires
        indexes(index@, rows@),
    ensures
        b == has_fide(row_of(rows@, id)),
{
    match find_row(rows, index, id) {
        Some(r) => r.fide_id.is_some(),
        None => false,
    }
}

fn some_fide(rows: &[PlayerRow], index: &HashMap<u32, usize>, ids: &[u32]) -> (b: bool)
    requires
        indexes(index@, rows@),
    ensures
        b == any_fide(rows@, ids@),
{
    let mut b: bool = false;
    let mut i: usize = 0;
    assert(ids@.take(0) =~= Seq::empty());
    while i < ids.len()
        invariant
            i <= ids.len(),
            indexes(index@, rows@),
            b == any_fide(rows@, ids@.take(i as int)),
        decreases ids.len() - i,
    {
        let here: bool = row_has_fide(rows, index, ids[i]);
        b = b || here;
        i += 1;
        proof {
            let t = ids@.take(i as int);
            assert(t.drop_last() =~= ids@.take(i - 1));
            assert(t.last() == ids@[i - 1]);
        }
    }
    assert(ids@.take(i as int) =~= ids@);
    b
}

fn listed_merge(
    rows: &[PlayerRow],
    index: &HashMap<u32, usize>,
    losers: &[u32],
    sid: u32,
    mapping: &[(u32, u32)],
) -> (r: String)
    requires
        indexes(index@, rows@),
        losers@ == losers_of(mapping@, sid),
    ensures
        r@ == merge_line(rows@, mapping@, sid),
{
    let mut names: Vec<String> = Vec::new();
    let ghost want = losers@.map_values(|l: u32| loser_text(rows@, l));
    let mut i: usize = 0;
    while i < losers.len()
        invariant
            i <= losers.len(),
            indexes(index@, rows@),
            names@.len() == i,
            want == losers@.map_values(|l: u32| loser_text(rows@, l)),
            forall|k: int| 0 <= k < i ==> (#[trigger] names@[k])@ == want[k],
        decreases losers.len() - i,
    {
        names.push(loser_name(rows, index, losers[i]));
        i += 1;
    }
    assert(text::texts(names@) =~= want);
    let keep: Option<&PlayerRow> = find_row(rows, index, sid);
    let mut m: String = "  keep “".to_owned();
    match keep {
        Some(k) => m.append(k.name.as_str()),
        None => m.append("?"),
    }
    m.append("” [");
    append_num(&mut m, sid as u64);
    m.append("] (");
    let fide: Option<u32> = match keep {
        Some(k) => k.fide_id,
        None => None,
    };
    let mut why: String = "by name".to_owned();
    match fide {
        Some(f) => {
            why = "FIDE ".to_owned();
            append_num(&mut why, f as u64);
        },
        None => {},
    }
    m.append(why.as_str());
    m.append(") ← ");
    let list: String = joined(&names, ", ");
    m.append(list.as_str());
    m
}

/// Spells out what a merge would do: which rows go, into which one, and what links them. A
/// merge cannot be undone, so what rests on names alone is pointed out.
pub fn report_planned_merges(rows: &[PlayerRow], mapping: &[(u32, u32)], groups: usize) -> (r:
    PlanReport)
    ensures
        exists|ss: Seq<u32>|
            #[trigger] are_survivors(ss, mapping@) && text::texts(r.lines@) == plan_lines(
                rows@,
                mapping@,
                ss,
            ),
        r.done@ == "Dry run: "@ + text::dec(mapping@.len()) + " duplicate player record(s) across "@
            + text::dec(groups as nat) + " player(s) would be merged."@,
{
    let index: HashMap<u32, usize> = index_rows(rows);
    let (by_survivor, ss): (HashMap<u32, Vec<u32>>, Vec<u32>) = group_merges(mapping);
    let mut lines: Vec<String> = Vec::new();
    let mut by_name: u64 = 0;
    let mut i: usize = 0;
    let ghost shown = if ss@.len() > MAX_LINES {
        ss@.take(MAX_LINES as int)
    } else {
        ss@
    };
    let ghost want = shown.map_values(|sid: u32| merge_line(rows@, mapping@, sid));
    proof {
        assert(ss@.take(0) =~= Seq::empty());
    }
    while i < ss.len()
        invariant
            i <= ss.len(),
            indexes(index@, rows@),
            grouped(by_survivor@, ss@, mapping@),
            shown == (if ss@.len() > MAX_LINES {
                ss@.take(MAX_LINES as int)
            } else {
                ss@
            }),
            want == shown.map_values(|sid: u32| merge_line(rows@, mapping@, sid)),
            lines@.len() == (if i > MAX_LINES {
                MAX_LINES as int
            } else {
                i as int
            }),
            forall|k: int| 0 <= k < lines@.len() ==> (#[trigger] lines@[k])@ == want[k],
            by_name == by_name_only(rows@, mapping@, ss@.take(i as int)),
            by_name <= i,
        decreases ss.len() - i,
    {
        let sid: u32 = ss[i];
        proof {
            assert(ss@.contains(sid)) by {
                assert(ss@[i as int] == sid);
            }
            assert(survives(mapping@, sid));
            assert(by_survivor@.contains_key(sid));
            let t = ss@.take(i + 1);
            assert(t.drop_last() =~= ss@.take(i as int));
            assert(t.last() == sid);
        }
        match by_survivor.get(&sid) {
            Some(losers) => {
                let linked: bool = row_has_fide(rows, &index, sid) || some_fide(
                    rows,
                    &index,
                    losers,
                );
                if !linked {
                    by_name += 1;
                }
                if i < MAX_LINES {
                    let line: String = listed_merge(rows, &index, losers, sid, mapping);
                    assert(line@ == want[i as int]);
                    lines.push(line);
                }
            },
            None => {},
        }
        i += 1;
    }
    assert(ss@.take(i as int) =~= ss@);
    let ghost first = lines@;
    assert(text::texts(first) =~= want);
    if ss.len() > MAX_LINES {
        let mut m: String = "  …and ".to_owned();
        append_num(&mut m, (ss.len() - MAX_LINES) as u64);
        m.append(" more");
        let ghost had = text::texts(lines@);
        lines.push(m);
        assert(text::texts(lines@) =~= had + seq![m@]);
    }
    let ghost second = text::texts(lines@);
    assert(second == want + (if ss@.len() > MAX_LINES {
        seq!["  …and "@ + text::dec((ss@.len() - MAX_LINES) as nat) + " more"@]
    } else {
        Seq::empty()
    }));
    if by_name > 0 {
        let mut m: String = "".to_owned();
        append_num(&mut m, by_name);
        m.append(
            " of these are linked by name alone (no FIDE ID on either side) — check those for genuine namesakes.",
        );
        proof {
            reveal_strlit("");
            let d = text::dec(by_name as nat);
            assert(""@ + d =~= d);
        }
        lines.push(m);
        assert(text::texts(lines@) =~= second + seq![m@]);
    }
    assert(text::texts(lines@) =~= plan_lines(rows@, mapping@, ss@));
    let mut done: String = "Dry run: ".to_owned();
    append_num(&mut done, mapping.len() as u64);
    done.append(" duplicate player record(s) across ");
    append_num(&mut done, groups as u64);
    done.append(" player(s) would be merged.");
    PlanReport { lines, done }
}

/// There is one list of the rows that others go into.
pub proof fn law_one_list_of_survivors(a: Seq<u32>, b: Seq<u32>, mapping: Seq<(u32, u32)>)
    requires
        are_survivors(a, mapping),
        are_survivors(b, mapping),
    ensures
        a == b,
{
    lemma_increasing_unique(a, b);
}

proof fn lemma_increasing_unique(a: Seq<u32>, b: Seq<u32>)
    requires
        increasing(a),
        increasing(b),
        forall|x: u32| a.contains(x) <==> b.contains(x),
    ensures
        a == b,
    decreases a.len(),
{
    if a.len() == 0 {
        if b.len() > 0 {
            assert(b.contains(b[0]));
            assert(a.contains(b[0]));
        }
        assert(a =~= b);
    } else {
        assert(a.contains(a[0]));
        assert(b.contains(a[0]));
        let la = a.last();
        let lb = b.last();
        assert(a.contains(la)) by {
            assert(a[a.len() - 1] == la);
        }
        assert(b.contains(lb)) by {
            assert(b[b.len() - 1] == lb);
        }
        assert(a.contains(lb) && b.contains(la));
        let i = choose|i: int| 0 <= i < a.len() && a[i] == lb;
        let j = choose|j: int| 0 <= j < b.len() && b[j] == la;
        if i < a.len() - 1 {
            assert(a[i] < a[a.len() - 1]);
        }
        if j < b.len() - 1 {
            assert(b[j] < b[b.len() - 1]);
        }
        assert(la == lb);
        let a2 = a.drop_last();
        let b2 = b.drop_last();
        assert forall|x: u32| a2.contains(x) <==> b2.contains(x) by {
            if a2.contains(x) {
                let k = choose|k: int| 0 <= k < a2.len() && a2[k] == x;
                assert(a[k] == x);
                assert(a[k] < a[a.len() - 1]);
                assert(a.contains(x));
                assert(b.contains(x));
                let l = choose|l: int| 0 <= l < b.len() && b[l] == x;
                assert(b2[l] == x);
            }
            if b2.contains(x) {
                let k = choose|k: int| 0 <= k < b2.len() && b2[k] == x;
                assert(b[k] == x);
                assert(b[k] < b[b.len() - 1]);
                assert(b.contains(x));
                assert(a.contains(x));
                let l = choose|l: int| 0 <= l < a.len() && a[l] == x;
                assert(a2[l] == x);
            }
        }
        assert(increasing(a2)) by {
            assert forall|i: int, j: int| 0 <= i < j < a2.len() implies (#[trigger] a2[i]) < (
            #[trigger] a2[j]) by {
                assert(a[i] < a[j]);
            }
        }
        assert(increasing(b2)) by {
            assert forall|i: int, j: int| 0 <= i < j < b2.len() implies (#[trigger] b2[i]) < (
            #[trigger] b2[j]) by {
                assert(b[i] < b[j]);
            }
        }
        lemma_increasing_unique(a2, b2);
        assert(a =~= a2.push(la));
        assert(b =~= b2.push(lb));
    }
}

// ── Work in ranges of game numbers ───────────────────────────────────────────

/// Games per step of a merge.
pub const MERGE_RANGE: i64 = 1000000;

/// Games per step of the fingerprinting.
pub const BACKFILL_CHUNK: i64 = 200000;

/// How many ranges of a size cover the numbers up to `max_id`.
pub open spec fn range_count(max_id: int, size: int) -> nat {
    (max_id / size + 1) as nat
}

/// Ranges that cover the numbers from 0 to `max_id`: each from its first number to before
/// its second.
pub open spec fn id_ranges(max_id: int, size: int) -> Seq<(i64, i64)> {
    Seq::new(range_count(max_id, size), |i: int| ((i * size) as i64, ((i + 1) * size) as i64))
}

/// Splits the numbers from 0 to `max_id` into ranges.
pub fn split_ids(max_id: i64, size: i64) -> (v: Vec<(i64, i64)>)
    requires
        0 <= max_id,
        0 < size,
        max_id + size <= i64::MAX,
    ensures
        v@ == id_ranges(max_id as int, size as int),
{
    let mut v: Vec<(i64, i64)> = Vec::new();
    let mut lo: i64 = 0;
    let ghost n: int = 0;
    proof {
        assert(0 * size == 0) by (nonlinear_arith);
    }
    while lo <= max_id
        invariant
            0 <= max_id,
            0 < size,
            max_id + size <= i64::MAX,
            n >= 0,
            lo == n * size,
            v@.len() == n,
            lo <= max_id + size,
            n == 0 || (n - 1) * size <= max_id,
            forall|k: int|
                0 <= k < n ==> (#[trigger] v@[k]) == ((k * size) as i64, ((k + 1) * size) as i64),
        decreases max_id + size - lo,
    {
        v.push((lo, lo + size));
        lo += size;
        proof {
            assert((n + 1) * size == n * size + size) by (nonlinear_arith);
            n = n + 1;
        }
    }
    proof {
        assert(n >= 1) by {
            if n == 0 {
                assert(lo == 0);
            }
        }
        assert(n == range_count(max_id as int, size as int)) by {
            let q = max_id as int / size as int;
            assert((n - 1) * size <= max_id < n * size);
            assert(q == n - 1) by (nonlinear_arith)
                requires
                    (n - 1) * size <= max_id,
                    max_id < n * size,
                    size > 0,
                    q == max_id as int / size as int,
            ;
        }
        assert(v@ =~= id_ranges(max_id as int, size as int));
    }
    v
}

/// Every number up to the highest lies in one range, and in no other.
pub proof fn law_ranges_cover(max_id: int, size: int, id: int) -> (k: int)
    requires
        0 <= id <= max_id,
        0 < size,
        max_id + size <= i64::MAX,
    ensures
        0 <= k < id_ranges(max_id, size).len(),
        forall|j: int|
            0 <= j < id_ranges(max_id, size).len() ==> ((#[trigger] id_ranges(max_id, size)[j]).0
                <= id < id_ranges(max_id, size)[j].1 <==> j == k),
{
    let k = id / size;
    assert(k * size <= id < (k + 1) * size) by (nonlinear_arith)
        requires
            k == id / size,
            size > 0,
    ;
    assert(0 <= k) by (nonlinear_arith)
        requires
            k == id / size,
            size > 0,
            id >= 0,
    ;
    assert(k <= max_id / size) by (nonlinear_arith)
        requires
            k == id / size,
            size > 0,
            id <= max_id,
    ;
    assert(max_id / size * size <= max_id) by (nonlinear_arith)
        requires
            size > 0,
            max_id >= 0,
    ;
    assert forall|j: int| 0 <= j < id_ranges(max_id, size).len() implies ((
    #[trigger] id_ranges(max_id, size)[j]).0 <= id < id_ranges(max_id, size)[j].1 <==> j == k) by {
        assert(0 <= j * size && j * size <= max_id && (j + 1) * size <= max_id + size) by (
        nonlinear_arith)
            requires
                0 <= j <= max_id / size,
                size > 0,
                max_id / size * size <= max_id,
                max_id >= 0,
        ;
        assert(j * size <= id < (j + 1) * size <==> j == k) by (nonlinear_arith)
            requires
                k * size <= id,
                id < (k + 1) * size,
                size > 0,
        ;
    }
    k
}

// ── Merging players ──────────────────────────────────────────────────────────

/// What is done about duplicate players.
pub enum MergeDecision {
    /// There are none, or the run was cancelled: only this is told.
    Tell(String),
    /// Only tell what would be done.
    Preview,
    /// Do it; this is told at the beginning.
    Merge(String),
}

/// Decides what is done about the rows that are to go.
pub fn decide_merge(merges: usize, dry_run: bool, cancelled: bool) -> (d: MergeDecision)
    ensures
        match d {
            MergeDecision::Tell(m) => if merges == 0 {
                m@ == "No duplicate players found."@
            } else {
                !dry_run && cancelled && m@ == "Cancelled before merging."@
            },
            MergeDecision::Preview => merges > 0 && dry_run,
            MergeDecision::Merge(m) => merges > 0 && !dry_run && !cancelled && m@
                == "Preparing to merge "@ + text::dec(merges as nat) + " player row(s)…"@,
        },
{
    if merges == 0 {
        MergeDecision::Tell("No duplicate players found.".to_owned())
    } else if dry_run {
        MergeDecision::Preview
    } else if cancelled {
        MergeDecision::Tell("Cancelled before merging.".to_owned())
    } else {
        let mut m: String = "Preparing to merge ".to_owned();
        append_num(&mut m, merges as u64);
        m.append(" player row(s)…");
        MergeDecision::Merge(m)
    }
}

/// A step of a merge.
#[derive(Clone, Copy, PartialEq, Eq, Structural, Debug)]
pub enum MergeStep {
    /// Give White's games in a range to the rows that stay.
    White { lo: i64, hi: i64 },
    /// The same for Black's.
    Black { lo: i64, hi: i64 },
    /// Remove the rows that go.
    RemovePlayers,
    /// Have the games of the rows that stay looked at again.
    ReopenGames,
    /// Nothing is left to do.
    Finished,
    /// The run was cancelled; a later one will do the rest.
    Cancelled,
}

/// A merge of players, step by step: White's games, Black's games, the rows.
pub struct MergeRun {
    pub ranges: Vec<(i64, i64)>,
    pub step: usize,
}

/// What is told while players are merged.
pub const MERGING: &'static str = "Merging duplicate players…";

impl MergeRun {
    pub open spec fn wf(&self) -> bool {
        self.ranges@.len() * 2 + 2 <= usize::MAX && self.step <= self.ranges@.len() * 2 + 2
    }

    /// The step that comes next, unless the run is cancelled.
    pub open spec fn due(&self) -> MergeStep {
        let n = self.ranges@.len();
        let s = self.step as int;
        if s < n {
            MergeStep::White { lo: self.ranges@[s].0, hi: self.ranges@[s].1 }
        } else if s < 2 * n {
            MergeStep::Black { lo: self.ranges@[s - n].0, hi: self.ranges@[s - n].1 }
        } else if s == 2 * n {
            MergeStep::RemovePlayers
        } else if s == 2 * n + 1 {
            MergeStep::ReopenGames
        } else {
            MergeStep::Finished
        }
    }

    /// A merge for games with numbers up to `max_id`.
    pub fn new(max_id: i64) -> (r: Self)
        requires
            0 <= max_id <= u32::MAX,
        ensures
            r.wf(),
            r.step == 0,
            r.ranges@ == id_ranges(max_id as int, MERGE_RANGE as int),
    {
        let ranges: Vec<(i64, i64)> = split_ids(max_id, MERGE_RANGE);
        MergeRun { ranges, step: 0 }
    }

    /// How many steps are told of.
    pub fn total_steps(&self) -> (n: u64)
        requires
            self.wf(),
        ensures
            n == self.ranges@.len() * 2 + 1,
    {
        self.ranges.len() as u64 * 2 + 1
    }

    /// How many of them are done.
    pub fn steps_done(&self) -> (n: u64)
        requires
            self.wf(),
        ensures
            n == (if self.step <= self.ranges@.len() * 2 + 1 {
                self.step as int
            } else {
                self.ranges@.len() as int * 2 + 1
            }),
    {
        if self.step <= self.ranges.len() * 2 + 1 {
            self.step as u64
        } else {
            self.ranges.len() as u64 * 2 + 1
        }
    }

    /// Says what is to be done next. A run can be cancelled as long as games are given to
    /// other rows; from then on it is finished, so that no row goes that still has games.
    pub fn next(&mut self, cancelled: bool) -> (s: MergeStep)
        requires
            old(self).wf(),
        ensures
            final(self).wf(),
            final(self).ranges == old(self).ranges,
            if cancelled && old(self).step < old(self).ranges@.len() * 2 {
                s == MergeStep::Cancelled && final(self).step == old(self).step
            } else {
                s == old(self).due() && final(self).step == (if old(self).due()
                    == MergeStep::Finished {
                    old(self).step as int
                } else {
                    old(self).step + 1
                })
            },
    {
        let n: usize = self.ranges.len();
        let s: usize = self.step;
        if cancelled && s < n * 2 {
            return MergeStep::Cancelled;
        }
        if s < n {
            self.step = s + 1;
            MergeStep::White { lo: self.ranges[s].0, hi: self.ranges[s].1 }
        } else if s < 2 * n {
            self.step = s + 1;
            MergeStep::Black { lo: self.ranges[s - n].0, hi: self.ranges[s - n].1 }
        } else if s == 2 * n {
            self.step = s + 1;
            MergeStep::RemovePlayers
        } else if s == 2 * n + 1 {
            self.step = s + 1;
            MergeStep::ReopenGames
        } else {
            MergeStep::Finished
        }
    }
}

/// No row goes before all its games have been given away: the steps before the removal
/// cover every game with either colour.
pub proof fn law_rows_go_last(run: MergeRun, max_id: int, game: int) -> (k: int)
    requires
        run.ranges@ == id_ranges(max_id, MERGE_RANGE as int),
        run.wf(),
        run.due() == MergeStep::RemovePlayers,
        0 <= game <= max_id <= u32::MAX,
    ensures
        0 <= k < run.step,
        k + run.ranges@.len() < run.step,
        ({
            let white = (MergeRun { step: k as usize, ..run }).due();
            let black = (MergeRun { step: (k + run.ranges@.len()) as usize, ..run }).due();
            &&& white matches MergeStep::White { lo, hi } && lo <= game < hi
            &&& black matches MergeStep::Black { lo, hi } && lo <= game < hi
        }),
{
    let k = law_ranges_cover(max_id, MERGE_RANGE as int, game);
    assert(run.ranges@[k].0 <= game < run.ranges@[k].1);
    k
}

// ── What a merge does to the database ────────────────────────────────────────

/// A stored game: who played it, and whether it was looked at for copies.
pub struct MergedGame {
    pub white: u32,
    pub black: u32,
    pub deduped: bool,
}

/// Stored games, by number, and the players' rows.
#[verifier::ext_equal]
pub struct MergeStore {
    pub games: Map<int, MergedGame>,
    pub players: Set<u32>,
}

/// Whether a row goes.
pub open spec fn row_goes(mapping: Seq<(u32, u32)>, id: u32) -> bool {
    exists|k: int| 0 <= k < mapping.len() && (#[trigger] mapping[k]).0 == id
}

/// Whether another row goes into this one.
pub open spec fn row_takes(mapping: Seq<(u32, u32)>, id: u32) -> bool {
    exists|k: int| 0 <= k < mapping.len() && (#[trigger] mapping[k]).1 == id
}

/// The row that a player has afterwards.
pub open spec fn row_after(mapping: Seq<(u32, u32)>, id: u32) -> u32 {
    if row_goes(mapping, id) {
        mapping[choose|k: int| 0 <= k < mapping.len() && (#[trigger] mapping[k]).0 == id].1
    } else {
        id
    }
}

/// What a step of a merge makes of the database.
pub open spec fn merge_applied(db: MergeStore, s: MergeStep, mapping: Seq<(u32, u32)>) -> MergeStore {
    match s {
        MergeStep::White { lo, hi } => MergeStore {
            games: Map::new(
                |id: int| db.games.contains_key(id),
                |id: int|
                    if lo <= id < hi {
                        MergedGame { white: row_after(mapping, db.games[id].white), ..db.games[id] }
                    } else {
                        db.games[id]
                    },
            ),
            ..db
        },
        MergeStep::Black { lo, hi } => MergeStore {
            games: Map::new(
                |id: int| db.games.contains_key(id),
                |id: int|
                    if lo <= id < hi {
                        MergedGame { black: row_after(mapping, db.games[id].black), ..db.games[id] }
                    } else {
                        db.games[id]
                    },
            ),
            ..db
        },
        MergeStep::RemovePlayers => MergeStore {
            players: db.players.filter(|p: u32| !row_goes(mapping, p)),
            ..db
        },
        MergeStep::ReopenGames => MergeStore {
            games: Map::new(
                |id: int| db.games.contains_key(id),
                |id: int| reopened_game(db.games[id], mapping),
            ),
            ..db
        },
        MergeStep::Finished | MergeStep::Cancelled => db,
    }
}

/// A game that is looked at again where it is of a row that took another.
pub open spec fn reopened_game(g: MergedGame, mapping: Seq<(u32, u32)>) -> MergedGame {
    MergedGame {
        deduped: g.deduped && !row_takes(mapping, g.white) && !row_takes(mapping, g.black),
        ..g
    }
}

/// The database once all steps from here on are done.
pub open spec fn merged(db: MergeStore, run: MergeRun, mapping: Seq<(u32, u32)>) -> MergeStore
    decreases run.ranges@.len() * 2 + 2 - run.step,
{
    if !run.wf() || run.step >= run.ranges@.len() * 2 + 2 {
        db
    } else {
        merged(
            merge_applied(db, run.due(), mapping),
            MergeRun { step: (run.step + 1) as usize, ..run },
            mapping,
        )
    }
}

/// A game once the first `s` steps are done, if its range is the `k`-th of `n`.
spec fn game_at(g: MergedGame, k: int, n: int, s: int, mapping: Seq<(u32, u32)>) -> MergedGame {
    let g1 = MergedGame {
        white: if s > k {
            row_after(mapping, g.white)
        } else {
            g.white
        },
        black: if s > n + k {
            row_after(mapping, g.black)
        } else {
            g.black
        },
        ..g
    };
    if s > 2 * n + 1 {
        reopened_game(g1, mapping)
    } else {
        g1
    }
}

spec fn store_at(db: MergeStore, n: int, s: int, mapping: Seq<(u32, u32)>) -> MergeStore {
    MergeStore {
        games: Map::new(
            |id: int| db.games.contains_key(id),
            |id: int| game_at(db.games[id], id / (MERGE_RANGE as int), n, s, mapping),
        ),
        players: if s > 2 * n {
            db.players.filter(|p: u32| !row_goes(mapping, p))
        } else {
            db.players
        },
    }
}

proof fn lemma_in_range(id: int, max_id: int, j: int)
    requires
        0 <= id <= max_id <= u32::MAX,
        0 <= j < id_ranges(max_id, MERGE_RANGE as int).len(),
    ensures
        id_ranges(max_id, MERGE_RANGE as int)[j].0 <= id < id_ranges(max_id, MERGE_RANGE as int)[j].1
            <==> id / (MERGE_RANGE as int) == j,
        0 <= id / (MERGE_RANGE as int) < id_ranges(max_id, MERGE_RANGE as int).len(),
{
    let r = id_ranges(max_id, MERGE_RANGE as int)[j];
    assert(j <= max_id / 1000000);
    assert(r.0 == j * 1000000 && r.1 == (j + 1) * 1000000);
}

proof fn lemma_merge_step(
    db: MergeStore,
    run: MergeRun,
    mapping: Seq<(u32, u32)>,
    max_id: int,
)
    requires
        run.ranges@ == id_ranges(max_id, MERGE_RANGE as int),
        run.wf(),
        run.step < run.ranges@.len() * 2 + 2,
        0 <= max_id <= u32::MAX,
        forall|id: int| #[trigger] db.games.contains_key(id) ==> 0 <= id <= max_id,
    ensures
        ({
            let n = run.ranges@.len() as int;
            let s = run.step as int;
            merge_applied(store_at(db, n, s, mapping), run.due(), mapping) == store_at(
                db,
                n,
                s + 1,
                mapping,
            )
        }),
{
    let n = run.ranges@.len() as int;
    let s = run.step as int;
    let x = merge_applied(store_at(db, n, s, mapping), run.due(), mapping);
    let y = store_at(db, n, s + 1, mapping);
    assert forall|id: int| #[trigger] db.games.contains_key(id) implies x.games[id] == y.games[id] by {
        if s < n {
            lemma_in_range(id, max_id, s);
        } else if s < 2 * n {
            lemma_in_range(id, max_id, s - n);
        } else {
            lemma_in_range(id, max_id, 0);
        }
    }
    assert(x.games =~= y.games);
    assert(x.players =~= y.players);
}

proof fn lemma_merged(
    db: MergeStore,
    run: MergeRun,
    mapping: Seq<(u32, u32)>,
    max_id: int,
)
    requires
        run.ranges@ == id_ranges(max_id, MERGE_RANGE as int),
        run.wf(),
        0 <= max_id <= u32::MAX,
        forall|id: int| #[trigger] db.games.contains_key(id) ==> 0 <= id <= max_id,
    ensures
        ({
            let n = run.ranges@.len() as int;
            merged(store_at(db, n, run.step as int, mapping), run, mapping) == store_at(
                db,
                n,
                2 * n + 2,
                mapping,
            )
        }),
    decreases run.ranges@.len() * 2 + 2 - run.step,
{
    if run.step < run.ranges@.len() * 2 + 2 {
        lemma_merge_step(db, run, mapping, max_id);
        lemma_merged(db, MergeRun { step: (run.step + 1) as usize, ..run }, mapping, max_id);
    }
}

/// Once all steps of a merge are done, the rows that go are gone and no game names one: each
/// game is of the rows that its players have now, and is otherwise as it was. Every game of a
/// row that took another is to be looked at again for copies.
pub proof fn law_merge_leaves_no_game_behind(
    db: MergeStore,
    run: MergeRun,
    rows: Seq<PlayerRow>,
    mapping: Seq<(u32, u32)>,
    max_id: int,
)
    requires
        run.ranges@ == id_ranges(max_id, MERGE_RANGE as int),
        run.wf(),
        run.step == 0,
        0 <= max_id <= u32::MAX,
        forall|id: int| #[trigger] db.games.contains_key(id) ==> 0 <= id <= max_id,
        player_merge::unique_ids(rows),
        player_merge::is_merge_plan(rows, mapping),
    ensures
        ({
            let after = merged(db, run, mapping);
            &&& after.games.dom() == db.games.dom()
            &&& forall|p: u32| #[trigger]
                after.players.contains(p) <==> db.players.contains(p) && !row_goes(mapping, p)
            &&& forall|id: int| #[trigger]
                db.games.contains_key(id) ==> {
                    let g = after.games[id];
                    &&& g.white == row_after(mapping, db.games[id].white)
                    &&& g.black == row_after(mapping, db.games[id].black)
                    &&& !row_goes(mapping, g.white) && !row_goes(mapping, g.black)
                    &&& g.deduped == (db.games[id].deduped && !row_takes(mapping, g.white)
                        && !row_takes(mapping, g.black))
                }
        }),
{
    let n = run.ranges@.len() as int;
    let first = store_at(db, n, 0, mapping);
    let after = store_at(db, n, 2 * n + 2, mapping);
    assert forall|id: int| #[trigger] db.games.contains_key(id) implies first.games[id]
        == db.games[id] && 0 <= id / (MERGE_RANGE as int) < n by {
        assert(max_id / (MERGE_RANGE as int) >= 0);
        lemma_in_range(id, max_id, 0);
    }
    assert(first.games =~= db.games);
    assert(first =~= db);
    lemma_merged(db, run, mapping, max_id);
    assert forall|p: u32| !row_goes(mapping, #[trigger] row_after(mapping, p)) by {
        if row_goes(mapping, p) {
            let k = choose|k: int| 0 <= k < mapping.len() && (#[trigger] mapping[k]).0 == p;
            let b = mapping[k].1;
            assert(mapping.contains((p, b)));
            if row_goes(mapping, b) {
                let j = choose|j: int| 0 <= j < mapping.len() && (#[trigger] mapping[j]).0 == b;
                assert(mapping.contains((b, mapping[j].1)));
                player_merge::law_merge_ends_at_once(rows, p, b, mapping[j].1);
            }
        }
    }
    assert(after.games.dom() =~= db.games.dom());
}

/// What is told at the end of a merge.
pub fn merge_done(finished: bool, merges: usize, groups: usize) -> (m: String)
    ensures
        m@ == (if finished {
            "Removed "@ + text::dec(merges as nat) + " duplicate player record(s) across "@
                + text::dec(groups as nat) + " player(s)."@
        } else {
            "Cancelled — player merge partially applied; re-run to finish."@
        }),
{
    if !finished {
        return "Cancelled — player merge partially applied; re-run to finish.".to_owned();
    }
    let mut m: String = "Removed ".to_owned();
    append_num(&mut m, merges as u64);
    m.append(" duplicate player record(s) across ");
    append_num(&mut m, groups as u64);
    m.append(" player(s).");
    m
}

// ── Removing games ───────────────────────────────────────────────────────────

/// The condition by which a run leaves out pairs that were looked at before; a full run
/// leaves out none.
pub fn incremental_filter(full: bool) -> (s: String)
    ensures
        s@ == (if full {
            ""@
        } else {
            "AND (g1.deduped IS NOT TRUE OR g2.deduped IS NOT TRUE)"@
        }),
{
    if full {
        "".to_owned()
    } else {
        "AND (g1.deduped IS NOT TRUE OR g2.deduped IS NOT TRUE)".to_owned()
    }
}

/// What is known of a stored game when copies are looked for.
#[derive(Debug)]
pub struct GameCopy {
    pub id: u32,
    pub white_id: u32,
    pub black_id: u32,
    pub date: Option<String>,
    pub result: Option<String>,
    pub move_hash: Option<i64>,
    pub move_hash_short: Option<i64>,
    /// Whether it was looked at before.
    pub deduped: bool,
}

pub open spec fn same_hash(a: Option<i64>, b: Option<i64>) -> bool {
    a is Some && a == b
}

/// Whether two games, the first with the lower number, are one: the same players, day and
/// result, and the same moves, but for at most one at the end. A run that is not full leaves
/// out pairs that were both looked at before.
pub open spec fn copies(a: GameCopy, b: GameCopy, full: bool) -> bool {
    &&& a.id < b.id
    &&& a.white_id == b.white_id
    &&& a.black_id == b.black_id
    &&& a.date is Some
    &&& reporter::opt_text(a.date) == reporter::opt_text(b.date)
    &&& reporter::opt_text(a.result) == reporter::opt_text(b.result)
    &&& same_hash(a.move_hash, b.move_hash) || same_hash(a.move_hash, b.move_hash_short)
        || same_hash(a.move_hash_short, b.move_hash)
    &&& full || !a.deduped || !b.deduped
}

fn hashes_match(a: Option<i64>, b: Option<i64>) -> (r: bool)
    ensures
        r == same_hash(a, b),
{
    match (a, b) {
        (Some(x), Some(y)) => x == y,
        _ => false,
    }
}

fn texts_match(a: &Option<String>, b: &Option<String>) -> (r: bool)
    ensures
        r == (reporter::opt_text(*a) == reporter::opt_text(*b)),
{
    match (a, b) {
        (Some(x), Some(y)) => same(x.as_str(), y.as_str()),
        (None, None) => true,
        _ => false,
    }
}

/// Tells whether two games are one.
pub fn are_copies(a: &GameCopy, b: &GameCopy, full: bool) -> (r: bool)
    ensures
        r == copies(*a, *b, full),
{
    a.id < b.id && a.white_id == b.white_id && a.black_id == b.black_id && a.date.is_some()
        && texts_match(&a.date, &b.date) && texts_match(&a.result, &b.result) && (hashes_match(
        a.move_hash,
        b.move_hash,
    ) || hashes_match(a.move_hash, b.move_hash_short) || hashes_match(
        a.move_hash_short,
        b.move_hash,
    )) && (full || !a.deduped || !b.deduped)
}

/// Whether a game has the fingerprints of a PGN text.
pub open spec fn has_fingerprints(g: GameCopy, pgn: Seq<char>) -> bool {
    g.move_hash == Some(fingerprint::fingerprints(pgn).0) && g.move_hash_short
        == fingerprint::fingerprints(pgn).1
}

/// Two records of one game are found to be copies, however they are annotated, and even if
/// one lacks the last move.
pub proof fn law_records_of_one_game_are_found(
    a: GameCopy,
    b: GameCopy,
    pgn_a: Seq<char>,
    pgn_b: Seq<char>,
)
    requires
        a.id < b.id,
        a.white_id == b.white_id,
        a.black_id == b.black_id,
        a.date is Some,
        reporter::opt_text(a.date) == reporter::opt_text(b.date),
        reporter::opt_text(a.result) == reporter::opt_text(b.result),
        has_fingerprints(a, pgn_a),
        has_fingerprints(b, pgn_b),
        ({
            let x = fingerprint::bare_moves(pgn_a);
            let y = fingerprint::bare_moves(pgn_b);
            ||| x == y
            ||| x.len() >= 2 && x.drop_last() == y
            ||| y.len() >= 2 && y.drop_last() == x
        }),
    ensures
        copies(a, b, true),
{
    let x = fingerprint::bare_moves(pgn_a);
    let y = fingerprint::bare_moves(pgn_b);
    if x == y {
        fingerprint::law_same_moves_same_fingerprints(pgn_a, pgn_b);
    } else if x.len() >= 2 && x.drop_last() == y {
        fingerprint::law_short_matches_one_move_less(pgn_a, pgn_b);
    } else {
        fingerprint::law_short_matches_one_move_less(pgn_b, pgn_a);
    }
}

/// Whether pairs are found for all games that are one: all, in a full run; in one that is not,
/// those of which one game is new.
pub open spec fn finds_copies(
    pairs: Seq<(u32, i64, u32, i64)>,
    games: Seq<GameCopy>,
    full: bool,
) -> bool {
    forall|i: int, j: int|
        0 <= i < games.len() && 0 <= j < games.len() && #[trigger] copies(games[i], games[j], full)
            ==> exists|k: int|
            0 <= k < pairs.len() && (#[trigger] pairs[k]).0 == games[i].id && pairs[k].2
                == games[j].id
}

/// Whether no two of the games that were looked at before are one.
pub open spec fn marks_hold(games: Seq<GameCopy>) -> bool {
    forall|i: int, j: int|
        0 <= i < games.len() && 0 <= j < games.len() && games[i].deduped && games[j].deduped
            ==> !#[trigger] copies(games[i], games[j], true)
}

/// Once the games that a run picks are gone, no two games are left that are one. A full run
/// needs nothing for that; one that is not needs that the games which were looked at before
/// have no copies among themselves.
pub proof fn law_no_copies_are_left(
    games: Seq<GameCopy>,
    pairs: Seq<(u32, i64, u32, i64)>,
    losers: Seq<(u32, u32)>,
    full: bool,
    i: int,
    j: int,
)
    requires
        full || marks_hold(games),
        finds_copies(pairs, games, full),
        dedup::are_losers(pairs, losers),
        0 <= i < games.len(),
        0 <= j < games.len(),
        !dedup::goes(losers, games[i].id),
        !dedup::goes(losers, games[j].id),
    ensures
        !copies(games[i], games[j], true),
{
    if copies(games[i], games[j], true) {
        assert(copies(games[i], games[j], full));
        let k = choose|k: int|
            0 <= k < pairs.len() && (#[trigger] pairs[k]).0 == games[i].id && pairs[k].2
                == games[j].id;
        dedup::law_one_of_a_pair_goes(pairs, losers, k);
    }
}

/// What a run for duplicate games does.
pub struct GamesPlan {
    /// What is told before games go; `None` if none do.
    pub removing: Option<String>,
    /// Whether the games are marked as looked at.
    pub mark: bool,
    /// What is told at the end.
    pub done: String,
}

/// Plans a run that found so many games to remove. A preview changes nothing.
pub fn plan_games(losers: usize, dry_run: bool) -> (p: GamesPlan)
    ensures
        p.mark == !dry_run,
        match p.removing {
            Some(m) => losers > 0 && !dry_run && m@ == "Removing "@ + text::dec(losers as nat)
                + " duplicate game(s)…"@,
            None => losers == 0 || dry_run,
        },
        p.done@ == (if losers == 0 {
            "No duplicate games found."@
        } else if dry_run {
            "Dry run: "@ + text::dec(losers as nat) + " duplicate game(s) would be deleted."@
        } else {
            "Done: "@ + text::dec(losers as nat) + " duplicate game(s) deleted."@
        }),
{
    if losers == 0 {
        return GamesPlan {
            removing: None,
            mark: !dry_run,
            done: "No duplicate games found.".to_owned(),
        };
    }
    if dry_run {
        let mut done: String = "Dry run: ".to_owned();
        append_num(&mut done, losers as u64);
        done.append(" duplicate game(s) would be deleted.");
        return GamesPlan { removing: None, mark: false, done };
    }
    let mut m: String = "Removing ".to_owned();
    append_num(&mut m, losers as u64);
    m.append(" duplicate game(s)…");
    let mut done: String = "Done: ".to_owned();
    append_num(&mut done, losers as u64);
    done.append(" duplicate game(s) deleted.");
    GamesPlan { removing: Some(m), mark: true, done }
}

/// The fingerprinting of games that have none, in ranges of their numbers.
pub struct Backfill {
    pub pending: u64,
    pub done: u64,
    pub lo: i64,
    pub max_id: i64,
}

/// What comes next in the fingerprinting.
#[derive(Clone, Copy, PartialEq, Eq, Structural, Debug)]
pub enum BackfillNext {
    /// The games of this range.
    Range { lo: i64, hi: i64 },
    /// Nothing: all are done, or the run was cancelled.
    Over,
}

impl Backfill {
    pub open spec fn wf(&self) -> bool {
        0 <= self.lo && 0 <= self.max_id <= u32::MAX && self.lo <= self.max_id + BACKFILL_CHUNK
    }

    /// `None` if no game is without a fingerprint.
    pub fn new(pending: u64, max_id: i64) -> (r: Option<Self>)
        requires
            0 <= max_id <= u32::MAX,
        ensures
            match r {
                Some(b) => pending > 0 && b.wf() && b.pending == pending && b.done == 0 && b.lo == 0
                    && b.max_id == max_id,
                None => pending == 0,
            },
    {
        if pending == 0 {
            None
        } else {
            Some(Backfill { pending, done: 0, lo: 0, max_id })
        }
    }

    /// What is told at the beginning.
    pub fn start_message(&self) -> (m: String)
        ensures
            m@ == "Computing move fingerprints for "@ + text::dec(self.pending as nat)
                + " game(s) (one-time)…"@,
    {
        let mut m: String = "Computing move fingerprints for ".to_owned();
        append_num(&mut m, self.pending);
        m.append(" game(s) (one-time)…");
        m
    }

    /// The next range.
    pub fn next(&mut self, cancelled: bool) -> (n: BackfillNext)
        requires
            old(self).wf(),
        ensures
            final(self).wf(),
            final(self).pending == old(self).pending,
            final(self).done == old(self).done,
            final(self).max_id == old(self).max_id,
            if old(self).lo <= old(self).max_id && !cancelled {
                n == BackfillNext::Range {
                    lo: old(self).lo,
                    hi: (old(self).lo + BACKFILL_CHUNK) as i64,
                } && final(self).lo == old(self).lo + BACKFILL_CHUNK
            } else {
                n == BackfillNext::Over && final(self).lo == old(self).lo
            },
    {
        if self.lo <= self.max_id && !cancelled {
            let lo: i64 = self.lo;
            self.lo = lo + BACKFILL_CHUNK;
            BackfillNext::Range { lo, hi: lo + BACKFILL_CHUNK }
        } else {
            BackfillNext::Over
        }
    }

    /// Notes that so many games have got their fingerprints, and says what is told.
    pub fn hashed(&mut self, count: u64) -> (m: Option<String>)
        requires
            old(self).wf(),
            old(self).done + count <= u64::MAX,
        ensures
            final(self).wf(),
            final(self).pending == old(self).pending,
            final(self).lo == old(self).lo,
            final(self).max_id == old(self).max_id,
            final(self).done == old(self).done + count,
            match m {
                Some(t) => count > 0 && t@ == "Fingerprinting games… "@ + text::dec(
                    final(self).done as nat,
                ) + "/"@ + text::dec(final(self).pending as nat),
                None => count == 0,
            },
    {
        if count == 0 {
            return None;
        }
        self.done += count;
        let mut m: String = "Fingerprinting games… ".to_owned();
        append_num(&mut m, self.done);
        m.append("/");
        append_num(&mut m, self.pending);
        Some(m)
    }
}

// ── Games that are not standard chess ────────────────────────────────────────

/// Chess960 by its variant, fragments by their set-up.
pub const NONSTANDARD: &'static str =
    "pgn ILIKE '%[Variant \"chess960\"]%' OR pgn LIKE '%[SetUp \"1\"]%'";

/// What is told where nothing was asked for.
pub const NOTHING_TO_DO: &'static str =
    "Nothing to do. Pass --non-standard to remove Chess960 and game fragments.";

/// What a clean-up does once the games are counted.
pub struct CleanupPlan {
    /// What is told first, if anything is found.
    pub found: Option<String>,
    /// Whether the games go.
    pub delete: bool,
    /// What is told while their positions go.
    pub positions: String,
    /// What is told at the end.
    pub done: String,
}

/// Plans a clean-up of so many games.
pub fn plan_cleanup(total: u64, dry_run: bool) -> (p: CleanupPlan)
    ensures
        p.delete == (total > 0 && !dry_run),
        match p.found {
            Some(m) => total > 0 && m@ == text::dec(total as nat) + " non-standard game(s) found"@
                + (if dry_run {
                " (dry run — nothing will be deleted)"@
            } else {
                ""@
            }) + "."@,
            None => total == 0,
        },
        p.positions@ == "Deleting positions for "@ + text::dec(total as nat) + " game(s)..."@,
        p.done@ == (if total == 0 {
            "No non-standard games found."@
        } else if dry_run {
            "Would delete "@ + text::dec(total as nat) + " game(s)."@
        } else {
            "Done: "@ + text::dec(total as nat) + " non-standard game(s) deleted."@
        }),
{
    let mut positions: String = "Deleting positions for ".to_owned();
    append_num(&mut positions, total);
    positions.append(" game(s)...");
    if total == 0 {
        return CleanupPlan {
            found: None,
            delete: false,
            positions,
            done: "No non-standard games found.".to_owned(),
        };
    }
    let mut m: String = "".to_owned();
    append_num(&mut m, total);
    proof {
        reveal_strlit("");
        let d = text::dec(total as nat);
        assert(""@ + d =~= d);
    }
    m.append(" non-standard game(s) found");
    let note: &str = if dry_run {
        " (dry run — nothing will be deleted)"
    } else {
        ""
    };
    m.append(note);
    m.append(".");
    let done: String = if dry_run {
        let mut d: String = "Would delete ".to_owned();
        append_num(&mut d, total);
        d.append(" game(s).");
        d
    } else {
        let mut d: String = "Done: ".to_owned();
        append_num(&mut d, total);
        d.append(" non-standard game(s) deleted.");
        d
    };
    CleanupPlan { found: Some(m), delete: !dry_run, positions, done }
}

// ── Laws of plans ────────────────────────────────────────────────────────────

/// Games are copies only if their players, day and result are the same and their moves are,
/// but for one at the end; and a run that is not full looks at new games only.
pub proof fn law_only_one_game_has_copies(a: GameCopy, b: GameCopy, full: bool)
    requires
        copies(a, b, full),
    ensures
        a.id < b.id,
        a.white_id == b.white_id,
        a.black_id == b.black_id,
        a.date is Some && b.date is Some && a.date->0@ == b.date->0@,
        reporter::opt_text(a.result) == reporter::opt_text(b.result),
        a.move_hash is Some && a.move_hash == b.move_hash || a.move_hash is Some && a.move_hash
            == b.move_hash_short || b.move_hash is Some && a.move_hash_short == b.move_hash,
        !full ==> !(a.deduped && b.deduped),
        copies(a, b, true),
{
}

/// Two games with the same players, day and result are copies as soon as their fingerprints
/// meet: both whole, or one whole and one without its last move.
pub proof fn law_copies_are_found_by_fingerprints(a: GameCopy, b: GameCopy, hash: i64)
    requires
        a.id < b.id,
        a.white_id == b.white_id,
        a.black_id == b.black_id,
        a.date is Some && b.date is Some && a.date->0@ == b.date->0@,
        reporter::opt_text(a.result) == reporter::opt_text(b.result),
    ensures
        a.move_hash == Some(hash) && b.move_hash == Some(hash) ==> copies(a, b, true),
        a.move_hash == Some(hash) && b.move_hash_short == Some(hash) ==> copies(a, b, true),
        a.move_hash_short == Some(hash) && b.move_hash == Some(hash) ==> copies(a, b, true),
        copies(a, b, true) && !(a.deduped && b.deduped) ==> copies(a, b, false),
{
}

/// The rows that go into a row are those that the plan sends there, and no others.
pub proof fn law_losers_are_those_of_the_plan(mapping: Seq<(u32, u32)>, sid: u32, id: u32)
    ensures
        losers_of(mapping, sid).contains(id) <==> mapping.contains((id, sid)),
    decreases mapping.len(),
{
    if mapping.len() > 0 {
        let d = mapping.drop_last();
        law_losers_are_those_of_the_plan(d, sid, id);
        let f = losers_of(d, sid);
        let all = losers_of(mapping, sid);
        if all.contains(id) {
            let i = all.index_of(id);
            if i < f.len() {
                assert(f[i] == id);
                assert(f.contains(id));
                let k = d.index_of((id, sid));
                assert(mapping[k] == (id, sid));
            } else {
                assert(mapping[mapping.len() - 1] == (id, sid));
            }
        }
        if mapping.contains((id, sid)) {
            let k = mapping.index_of((id, sid));
            if k < d.len() {
                assert(d[k] == (id, sid));
                assert(d.contains((id, sid)));
                let i = f.index_of(id);
                assert(all[i] == id);
            } else {
                assert(all[f.len() as int] == id);
            }
        }
    }
}

/// The row of a number is the row with that number.
pub proof fn law_rows_are_found(rows: Seq<PlayerRow>, k: int)
    requires
        0 <= k < rows.len(),
        player_merge::unique_ids(rows),
    ensures
        row_of(rows, rows[k].id) == Some(rows[k]),
    decreases rows.len(),
{
    if k < rows.len() - 1 {
        let d = rows.drop_last();
        assert(rows[k].id != rows[rows.len() - 1].id);
        assert forall|i: int, j: int| 0 <= i < d.len() && 0 <= j < d.len() && i != j implies (
        #[trigger] d[i]).id != (#[trigger] d[j]).id by {
            assert(d[i] == rows[i] && d[j] == rows[j]);
        }
        assert(d[k] == rows[k]);
        law_rows_are_found(d, k);
    }
}

/// A merge rests on a FIDE ID if the row that stays has one, or a row that goes into it does.
pub proof fn law_merges_rest_on_fide_ids(
    rows: Seq<PlayerRow>,
    mapping: Seq<(u32, u32)>,
    sid: u32,
    id: u32,
)
    ensures
        has_fide(row_of(rows, sid)) ==> linked_by_fide(rows, mapping, sid),
        mapping.contains((id, sid)) && has_fide(row_of(rows, id)) ==> linked_by_fide(
            rows,
            mapping,
            sid,
        ),
        linked_by_fide(rows, mapping, sid) ==> has_fide(row_of(rows, sid)) || exists|l: u32|
            #[trigger] mapping.contains((l, sid)) && has_fide(row_of(rows, l)),
{
    law_losers_are_those_of_the_plan(mapping, sid, id);
    let ls = losers_of(mapping, sid);
    if ls.contains(id) && has_fide(row_of(rows, id)) {
        lemma_any_fide(rows, ls, id);
    }
    if any_fide(rows, ls) {
        let l = lemma_some_fide(rows, ls);
        law_losers_are_those_of_the_plan(mapping, sid, l);
        assert(mapping.contains((l, sid)));
    }
}

proof fn lemma_any_fide(rows: Seq<PlayerRow>, ids: Seq<u32>, id: u32)
    requires
        ids.contains(id),
        has_fide(row_of(rows, id)),
    ensures
        any_fide(rows, ids),
    decreases ids.len(),
{
    let k = ids.index_of(id);
    if k < ids.len() - 1 {
        assert(ids.drop_last()[k] == id);
        lemma_any_fide(rows, ids.drop_last(), id);
    }
}

proof fn lemma_some_fide(rows: Seq<PlayerRow>, ids: Seq<u32>) -> (l: u32)
    requires
        any_fide(rows, ids),
    ensures
        ids.contains(l),
        has_fide(row_of(rows, l)),
    decreases ids.len(),
{
    if has_fide(row_of(rows, ids.last())) {
        assert(ids[ids.len() - 1] == ids.last());
        ids.last()
    } else {
        let l = lemma_some_fide(rows, ids.drop_last());
        let k = ids.drop_last().index_of(l);
        assert(ids[k] == l);
        l
    }
}

/// The merges that rest on names alone are those that no FIDE ID justifies.
pub proof fn law_merges_by_name_are_counted(
    rows: Seq<PlayerRow>,
    mapping: Seq<(u32, u32)>,
    ss: Seq<u32>,
    sid: u32,
)
    ensures
        by_name_only(rows, mapping, ss.push(sid)) == by_name_only(rows, mapping, ss) + (
        if linked_by_fide(rows, mapping, sid) {
            0nat
        } else {
            1nat
        }),
        by_name_only(rows, mapping, Seq::empty()) == 0,
{
    assert(ss.push(sid).drop_last() =~= ss);
}

/// A step for White changes White's players only, and one for Black changes Black's: in the
/// games of its range, and nothing else.
pub proof fn law_steps_change_one_side(db: MergeStore, lo: i64, hi: i64, mapping: Seq<(u32, u32)>, id: int)
    requires
        db.games.contains_key(id),
    ensures
        ({
            let w = merge_applied(db, MergeStep::White { lo, hi }, mapping);
            let b = merge_applied(db, MergeStep::Black { lo, hi }, mapping);
            &&& w.players == db.players && b.players == db.players
            &&& w.games.contains_key(id) && b.games.contains_key(id)
            &&& w.games[id].black == db.games[id].black
            &&& b.games[id].white == db.games[id].white
            &&& w.games[id].deduped == db.games[id].deduped
            &&& b.games[id].deduped == db.games[id].deduped
            &&& !(lo <= id < hi) ==> w.games[id] == db.games[id] && b.games[id] == db.games[id]
            &&& lo <= id < hi && !row_goes(mapping, db.games[id].white) ==> w.games[id].white
                == db.games[id].white
            &&& lo <= id < hi && !row_goes(mapping, db.games[id].black) ==> b.games[id].black
                == db.games[id].black
        }),
{
}

/// A row that goes becomes the row that the plan names for it.
pub proof fn law_rows_become_what_the_plan_says(mapping: Seq<(u32, u32)>, old_id: u32)
    ensures
        row_goes(mapping, old_id) ==> mapping.contains((old_id, row_after(mapping, old_id))),
        !row_goes(mapping, old_id) ==> row_after(mapping, old_id) == old_id,
{
    if row_goes(mapping, old_id) {
        let to = row_after(mapping, old_id);
        assert(exists|k: int| 0 <= k < mapping.len() && #[trigger] mapping[k] == (old_id, to));
    }
}

/// The games of a row that took another are looked at again, and no others.
pub proof fn law_games_of_merged_rows_are_reopened(g: MergedGame, mapping: Seq<(u32, u32)>)
    ensures
        row_takes(mapping, g.white) || row_takes(mapping, g.black) ==> !reopened_game(
            g,
            mapping,
        ).deduped,
        !row_takes(mapping, g.white) && !row_takes(mapping, g.black) ==> reopened_game(g, mapping)
            == g,
        reopened_game(g, mapping).white == g.white,
        reopened_game(g, mapping).black == g.black,
{
}

/// A list of merges has a line for each, up to a bound; what is beyond it is counted.
pub proof fn law_merges_are_listed(
    rows: Seq<PlayerRow>,
    mapping: Seq<(u32, u32)>,
    ss: Seq<u32>,
    k: int,
)
    ensures
        ss.len() <= 50 && 0 <= k < ss.len() ==> plan_lines(rows, mapping, ss)[k] == merge_line(
            rows,
            mapping,
            ss[k],
        ),
        ss.len() > 50 && 0 <= k < 50 ==> plan_lines(rows, mapping, ss)[k] == merge_line(
            rows,
            mapping,
            ss[k],
        ),
        ss.len() > 50 ==> plan_lines(rows, mapping, ss)[50] == "  …and "@ + text::dec(
            (ss.len() - 50) as nat,
        ) + " more"@,
        ss.len() <= 50 && by_name_only(rows, mapping, ss) == 0 ==> plan_lines(
            rows,
            mapping,
            ss,
        ).len() == ss.len(),
        ss.len() <= 50 && by_name_only(rows, mapping, ss) > 0 ==> plan_lines(
            rows,
            mapping,
            ss,
        ).len() == ss.len() + 1,
{
}

/// The line of a merge says which row stays, by what it is justified, and which rows go.
pub proof fn law_lines_say_who_stays(
    rows: Seq<PlayerRow>,
    mapping: Seq<(u32, u32)>,
    sid: u32,
    keep: PlayerRow,
)
    requires
        row_of(rows, sid) == Some(keep),
    ensures
        keep.fide_id is Some ==> merge_line(rows, mapping, sid) == "  keep “"@ + keep.name@ + "” ["@
            + text::dec(sid as nat) + "] ("@ + ("FIDE "@ + text::dec(keep.fide_id->0 as nat))
            + ") ← "@ + text::join(
            losers_of(mapping, sid).map_values(|l: u32| loser_text(rows, l)),
            ", "@,
        ),
        keep.fide_id is None ==> merge_line(rows, mapping, sid) == "  keep “"@ + keep.name@ + "” ["@
            + text::dec(sid as nat) + "] ("@ + "by name"@ + ") ← "@ + text::join(
            losers_of(mapping, sid).map_values(|l: u32| loser_text(rows, l)),
            ", "@,
        ),
{
}

} // verus!
