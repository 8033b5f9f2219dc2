//! Merging player rows that are one person: who belongs together, and whose row stays.
use crate::text;
use crate::text::{chars_of, dropped, find_char, parse_i64, slice, split_words, trim_chars};
use std::collections::HashMap;
use vstd::hash_map::StringHashMap;
use vstd::prelude::*;
use vstd::string::*;

verus! {

broadcast use vstd::std_specs::hash::group_hash_axioms;

/// One candidate row for the player merge: everything needed to cluster it and to
/// score it as a survivor.
#[derive(Clone, Debug)]
pub struct PlayerRow {
    pub id: u32,
    pub name: String,
    pub name_normalized: String,
    pub fide_id: Option<u32>,
    pub name_normalised: bool,
    pub last_date: Option<String>,
}

// ── Scoring a row ────────────────────────────────────────────────────────────

/// A word that ends in a dot and is more than the dot, such as a title.
pub open spec fn is_title_word(w: Seq<char>) -> bool {
    w.len() > 1 && w.last() == '.'
}

pub open spec fn has_title_word(ws: Seq<Seq<char>>) -> bool {
    exists|i: int| 0 <= i < ws.len() && is_title_word(#[trigger] ws[i])
}

/// How well a name is written: with a comma, with a first name of more than one
/// letter behind it, and with no title before it.
pub open spec fn name_quality(name: Seq<char>) -> int {
    let n = text::index_of(name, ',') as int;
    if n >= name.len() {
        0
    } else {
        let before = name.take(n);
        let after = name.skip(n + 1);
        1000 + (if text::trim(after).len() > 1 {
            500int
        } else {
            0
        }) - (if has_title_word(text::words(before)) {
            300int
        } else {
            0
        })
    }
}

/// The year, month and day of a date, read as one number and scaled down; nothing if it
/// is no number.
pub open spec fn recency(date: Seq<char>) -> int {
    match text::parse_int(
        text::without_char(date, '-'),
        0x8000_0000_0000_0000,
        0x7fff_ffff_ffff_ffff,
    ) {
        Some(n) => n / 10_000,
        None => 0,
    }
}

/// The score of a row; the higher, the better to keep. A normalised row always wins.
pub open spec fn score_of(name: Seq<char>, normalised: bool, date: Option<Seq<char>>) -> int {
    if normalised {
        1_000_000
    } else {
        name_quality(name) + match date {
            Some(d) => recency(d),
            None => 0,
        }
    }
}

fn any_title_word(ws: &[String]) -> (b: bool)
    ensures
        b == has_title_word(text::texts(ws@)),
{
    let ghost all = text::texts(ws@);
    let mut i: usize = 0;
    while i < ws.len()
        invariant
            i <= ws.len(),
            all == text::texts(ws@),
            forall|k: int| 0 <= k < i ==> !is_title_word(#[trigger] all[k]),
        decreases ws.len() - i,
    {
        let w: Vec<char> = chars_of(ws[i].as_str());
        assert(all[i as int] == w@);
        if w.len() > 1 && w[w.len() - 1] == '.' {
            return true;
        }
        i += 1;
    }
    false
}

proof fn lemma_no_minus(s: Seq<char>)
    ensures
        forall|i: int|
            0 <= i < text::without_char(s, '-').len() ==> #[trigger] text::without_char(s, '-')[i]
                != '-',
    decreases s.len(),
{
    reveal(Seq::filter);
    if s.len() > 0 {
        lemma_no_minus(s.drop_last());
    }
}

/// Scores a player row for survivor selection. Higher is the better candidate to keep.
pub fn name_score(name: &str, name_normalised: bool, last_date: Option<&str>) -> (score: i64)
    ensures
        score == score_of(
            name@,
            name_normalised,
            match last_date {
                Some(d) => Some(d@),
                None => None,
            },
        ),
        0 <= score <= 1_000_000_000_000_000,
{
    // A normalised row always wins.
    if name_normalised {
        return 1_000_000;
    }
    let mut score: i64 = 0;
    let s: Vec<char> = chars_of(name);
    let n: usize = find_char(&s, ',');
    if n < s.len() {
        score = 1000;
        let before: Vec<char> = slice(&s, 0, n);
        let after: Vec<char> = slice(&s, n + 1, s.len());
        assert(before@ =~= name@.take(n as int));
        assert(after@ =~= name@.skip(n + 1));
        let first: Vec<char> = trim_chars(&after);
        if first.len() > 1 {
            score += 500;
        }
        if any_title_word(&split_words(&before)) {
            score -= 300;
        }
    }
    if let Some(date) = last_date {
        let digits: Vec<char> = dropped(&chars_of(date), '-');
        if let Some(numeric) = parse_i64(&digits) {
            proof {
                lemma_no_minus(date@);
                assert(digits.len() > 0 ==> digits@[0] != '-');
            }
            assert(numeric >= 0);
            score += numeric / 10_000;
        }
    }
    score
}

pub open spec fn row_score(r: PlayerRow) -> int {
    score_of(
        r.name@,
        r.name_normalised,
        match r.last_date {
            Some(d) => Some(d@),
            None => None,
        },
    )
}

/// `a` is to be kept rather than `b`: it carries a FIDE ID where `b` does not, or else
/// scores higher, or else has the lower id.
pub open spec fn outranks(a: PlayerRow, b: PlayerRow) -> bool {
    ||| a.fide_id is Some && b.fide_id is None
    ||| (a.fide_id is Some) == (b.fide_id is Some) && row_score(a) > row_score(b)
    ||| (a.fide_id is Some) == (b.fide_id is Some) && row_score(a) == row_score(b) && a.id < b.id
}

fn score_row(r: &PlayerRow) -> (score: i64)
    ensures
        score == row_score(*r),
{
    match &r.last_date {
        Some(d) => name_score(r.name.as_str(), r.name_normalised, Some(d.as_str())),
        None => name_score(r.name.as_str(), r.name_normalised, None),
    }
}

/// The id of the row to keep for a cluster: one that carries a FIDE ID, and among equals
/// the best scored, and among equals again the one with the lowest id. 0 if there is no
/// row at all.
pub fn pick_survivor(rows: &[&PlayerRow]) -> (id: u32)
    ensures
        rows.len() == 0 ==> id == 0,
        rows.len() > 0 ==> exists|i: int|
            0 <= i < rows.len() && (#[trigger] rows@[i]).id == id && forall|j: int|
                0 <= j < rows.len() ==> !outranks(*#[trigger] rows@[j], *rows@[i]),
{
    if rows.len() == 0 {
        return 0;
    }
    let mut best: usize = 0;
    let mut best_score: i64 = score_row(rows[0]);
    let mut i: usize = 1;
    while i < rows.len()
        invariant
            best < i <= rows.len(),
            best_score == row_score(*rows@[best as int]),
            forall|j: int| 0 <= j < i ==> !outranks(*#[trigger] rows@[j], *rows@[best as int]),
        decreases rows.len() - i,
    {
        let score: i64 = score_row(rows[i]);
        if beats(rows[i], score, rows[best], best_score) {
            best = i;
            best_score = score;
        }
        i += 1;
    }
    rows[best].id
}

/// Whether `a`, which scores `sa`, is to be kept rather than `b`, which scores `sb`.
fn beats(a: &PlayerRow, sa: i64, b: &PlayerRow, sb: i64) -> (r: bool)
    requires
        sa == row_score(*a),
        sb == row_score(*b),
    ensures
        r == outranks(*a, *b),
{
    let fa: bool = a.fide_id.is_some();
    let fb: bool = b.fide_id.is_some();
    (fa && !fb) || (fa == fb && sa > sb) || (fa == fb && sa == sb && a.id < b.id)
}

// ── Who belongs together ─────────────────────────────────────────────────────

/// The ids of the rows are different, as a table's primary key is.
pub open spec fn unique_ids(rows: Seq<PlayerRow>) -> bool {
    forall|i: int, j: int|
        0 <= i < rows.len() && 0 <= j < rows.len() && i != j ==> (#[trigger] rows[i]).id != (
        #[trigger] rows[j]).id
}

/// Rows with two different FIDE IDs hold the name: namesakes.
pub open spec fn is_ambiguous(rows: Seq<PlayerRow>, name: Seq<char>) -> bool {
    exists|i: int, j: int|
        0 <= i < rows.len() && 0 <= j < rows.len() && (#[trigger] rows[i]).name_normalized@ == name
            && (#[trigger] rows[j]).name_normalized@ == name && rows[i].fide_id is Some
            && rows[j].fide_id is Some && rows[i].fide_id != rows[j].fide_id
}

/// Rows that share the name are one person: it is a name at all, and no namesakes hold it.
pub open spec fn name_identifies(rows: Seq<PlayerRow>, name: Seq<char>) -> bool {
    name.len() > 0 && !is_ambiguous(rows, name)
}

/// A row under the name carries the FIDE ID.
pub open spec fn fide_under(rows: Seq<PlayerRow>, name: Seq<char>, f: u32) -> bool {
    exists|i: int|
        0 <= i < rows.len() && (#[trigger] rows[i]).name_normalized@ == name && rows[i].fide_id
            == Some(f)
}

/// The FIDE ID of the person that a row stands for: its own, or else the one that a row
/// with the same identifying name carries.
pub open spec fn person_fide(rows: Seq<PlayerRow>, r: PlayerRow) -> Option<u32> {
    if r.fide_id is Some {
        r.fide_id
    } else if name_identifies(rows, r.name_normalized@) && exists|f: u32|
        fide_under(rows, r.name_normalized@, f) {
        Some(choose|f: u32| fide_under(rows, r.name_normalized@, f))
    } else {
        None
    }
}

/// The two rows stand for one person: they are one row, or the person's FIDE ID is the
/// same, or neither has one and they share an identifying name.
pub open spec fn same_player(rows: Seq<PlayerRow>, a: PlayerRow, b: PlayerRow) -> bool {
    ||| a.id == b.id
    ||| match (person_fide(rows, a), person_fide(rows, b)) {
        (Some(f), Some(g)) => f == g,
        (None, None) => a.name_normalized@ == b.name_normalized@ && name_identifies(
            rows,
            a.name_normalized@,
        ),
        _ => false,
    }
}

/// Row `j` is the one to keep of all the rows that stand for the same person.
pub open spec fn is_kept(rows: Seq<PlayerRow>, j: int) -> bool {
    forall|k: int|
        0 <= k < rows.len() && k != j && same_player(rows, rows[j], #[trigger] rows[k])
            ==> outranks(rows[j], rows[k])
}

/// Row `j` is kept, and at least one other row goes into it.
pub open spec fn absorbs(rows: Seq<PlayerRow>, j: int) -> bool {
    is_kept(rows, j) && exists|k: int|
        0 <= k < rows.len() && k != j && same_player(rows, rows[j], #[trigger] rows[k])
}

/// How many of the first `n` rows absorb others.
pub open spec fn count_absorbing(rows: Seq<PlayerRow>, n: int) -> nat
    decreases n,
{
    if n <= 0 {
        0
    } else {
        count_absorbing(rows, n - 1) + if absorbs(rows, n - 1) {
            1nat
        } else {
            0
        }
    }
}

/// The row with id `old` goes into the row with id `new`.
pub open spec fn goes_into(rows: Seq<PlayerRow>, old_id: u32, new_id: u32) -> bool {
    exists|i: int, j: int|
        0 <= i < rows.len() && 0 <= j < rows.len() && i != j && (#[trigger] rows[i]).id == old_id
            && (#[trigger] rows[j]).id == new_id && same_player(rows, rows[j], rows[i]) && is_kept(
            rows,
            j,
        )
}

/// A list of all that go and whom they go into, in the order of those that go.
pub open spec fn is_merge_plan(rows: Seq<PlayerRow>, plan: Seq<(u32, u32)>) -> bool {
    &&& forall|old_id: u32, new_id: u32| #[trigger]
        plan.contains((old_id, new_id)) <==> goes_into(rows, old_id, new_id)
    &&& forall|i: int, j: int|
        0 <= i < j < plan.len() ==> (#[trigger] plan[i]).0 < (#[trigger] plan[j]).0
}

/// What is known of a name while the rows are read: the first FIDE ID under it, and
/// whether a second one turned up.
#[derive(Clone, Copy)]
struct NameInfo {
    fide: u32,
    ambiguous: bool,
}

spec fn names_known(rows: Seq<PlayerRow>, names: Map<Seq<char>, NameInfo>) -> bool {
    forall|name: Seq<char>|
        #![trigger names.contains_key(name)]
        {
            &&& names.contains_key(name) <==> exists|f: u32| fide_under(rows, name, f)
            &&& names.contains_key(name) ==> fide_under(rows, name, names[name].fide)
            &&& names.contains_key(name) ==> names[name].ambiguous == is_ambiguous(rows, name)
        }
}

proof fn lemma_names_step(rows: Seq<PlayerRow>, r: PlayerRow, name: Seq<char>)
    ensures
        forall|f: u32| #[trigger]
            fide_under(rows.push(r), name, f) <==> fide_under(rows, name, f) || (
            r.name_normalized@ == name && r.fide_id == Some(f)),
        is_ambiguous(rows.push(r), name) <==> is_ambiguous(rows, name) || (r.name_normalized@
            == name && exists|f: u32|
            #[trigger] fide_under(rows, name, f) && r.fide_id is Some && r.fide_id != Some(f)),
{
    let more = rows.push(r);
    let n = rows.len() as int;
    assert(more[n] == r);
    assert forall|f: u32| #[trigger] fide_under(more, name, f) <==> fide_under(rows, name, f) || (
    r.name_normalized@ == name && r.fide_id == Some(f)) by {
        if fide_under(rows, name, f) {
            let i = choose|i: int|
                0 <= i < rows.len() && (#[trigger] rows[i]).name_normalized@ == name
                    && rows[i].fide_id == Some(f);
            assert(more[i] == rows[i]);
        }
        if fide_under(more, name, f) {
            let i = choose|i: int|
                0 <= i < more.len() && (#[trigger] more[i]).name_normalized@ == name
                    && more[i].fide_id == Some(f);
            if i < n {
                assert(more[i] == rows[i]);
            }
        }
    }
    if is_ambiguous(rows, name) {
        let (i, j) = choose|i: int, j: int|
            0 <= i < rows.len() && 0 <= j < rows.len() && (#[trigger] rows[i]).name_normalized@
                == name && (#[trigger] rows[j]).name_normalized@ == name && rows[i].fide_id is Some
                && rows[j].fide_id is Some && rows[i].fide_id != rows[j].fide_id;
        assert(more[i] == rows[i] && more[j] == rows[j]);
    }
    if r.name_normalized@ == name && exists|f: u32|
        #[trigger] fide_under(rows, name, f) && r.fide_id is Some && r.fide_id != Some(f) {
        let f = choose|f: u32|
            #[trigger] fide_under(rows, name, f) && r.fide_id is Some && r.fide_id != Some(f);
        let i = choose|i: int|
            0 <= i < rows.len() && (#[trigger] rows[i]).name_normalized@ == name && rows[i].fide_id
                == Some(f);
        assert(more[i] == rows[i]);
        assert(more[n].fide_id != more[i].fide_id);
    }
    if is_ambiguous(more, name) {
        let (i, j) = choose|i: int, j: int|
            0 <= i < more.len() && 0 <= j < more.len() && (#[trigger] more[i]).name_normalized@
                == name && (#[trigger] more[j]).name_normalized@ == name && more[i].fide_id is Some
                && more[j].fide_id is Some && more[i].fide_id != more[j].fide_id;
        if i < n {
            assert(more[i] == rows[i]);
            assert(fide_under(rows, name, rows[i].fide_id->0));
        }
        if j < n {
            assert(more[j] == rows[j]);
            assert(fide_under(rows, name, rows[j].fide_id->0));
        }
    }
}

/// A name that is not ambiguous has at most one FIDE ID under it.
proof fn lemma_one_fide(rows: Seq<PlayerRow>, name: Seq<char>, f: u32, g: u32)
    requires
        !is_ambiguous(rows, name),
        fide_under(rows, name, f),
        fide_under(rows, name, g),
    ensures
        f == g,
{
    let i = choose|i: int|
        0 <= i < rows.len() && (#[trigger] rows[i]).name_normalized@ == name && rows[i].fide_id
            == Some(f);
    let j = choose|j: int|
        0 <= j < rows.len() && (#[trigger] rows[j]).name_normalized@ == name && rows[j].fide_id
            == Some(g);
    assert(rows[i].fide_id is Some && rows[j].fide_id is Some);
}

proof fn lemma_names_kept(
    rows: Seq<PlayerRow>,
    r: PlayerRow,
    before: Map<Seq<char>, NameInfo>,
    after: Map<Seq<char>, NameInfo>,
)
    requires
        names_known(rows, before),
        ({
            let key = r.name_normalized@;
            match r.fide_id {
                Some(f) => after == if !before.contains_key(key) {
                    before.insert(key, NameInfo { fide: f, ambiguous: false })
                } else if before[key].fide != f {
                    before.insert(key, NameInfo { fide: before[key].fide, ambiguous: true })
                } else {
                    before
                },
                None => after == before,
            }
        }),
    ensures
        names_known(rows.push(r), after),
{
    let key = r.name_normalized@;
    let now = rows.push(r);
    assert forall|name: Seq<char>|
        #![trigger after.contains_key(name)]
        {
            &&& after.contains_key(name) <==> exists|f: u32| fide_under(now, name, f)
            &&& after.contains_key(name) ==> fide_under(now, name, after[name].fide)
            &&& after.contains_key(name) ==> after[name].ambiguous == is_ambiguous(now, name)
        } by {
        lemma_names_step(rows, r, name);
        assert(before.contains_key(name) <==> exists|f: u32| fide_under(rows, name, f));
        if before.contains_key(name) {
            let first = before[name].fide;
            assert(fide_under(rows, name, first));
            assert(fide_under(now, name, first));
            if name == key && r.fide_id is Some {
                let f = r.fide_id->0;
                if first == f {
                    if !is_ambiguous(rows, name) {
                        assert forall|g: u32| fide_under(rows, name, g) implies g == f by {
                            lemma_one_fide(rows, name, g, first);
                        }
                    }
                } else {
                    assert(is_ambiguous(now, name));
                }
            }
        } else {
            assert forall|f: u32| !fide_under(rows, name, f) by {}
            if name == key && r.fide_id is Some {
                assert(fide_under(now, name, r.fide_id->0));
            } else {
                assert forall|f: u32| !fide_under(now, name, f) by {}
            }
            if is_ambiguous(rows, name) {
                let (i, j) = choose|i: int, j: int|
                    0 <= i < rows.len() && 0 <= j < rows.len() && (
                    #[trigger] rows[i]).name_normalized@ == name && (
                    #[trigger] rows[j]).name_normalized@ == name && rows[i].fide_id is Some
                        && rows[j].fide_id is Some && rows[i].fide_id != rows[j].fide_id;
                assert(fide_under(rows, name, rows[i].fide_id->0));
            }
        }
    }
}

fn read_names(rows: &[PlayerRow]) -> (names: StringHashMap<NameInfo>)
    ensures
        names_known(rows@, names@),
{
    let mut names: StringHashMap<NameInfo> = StringHashMap::new();
    let mut i: usize = 0;
    proof {
        let none = rows@.take(0);
        assert forall|name: Seq<char>| #[trigger]
            names@.contains_key(name) <==> exists|f: u32| fide_under(none, name, f) by {
            assert forall|f: u32| !fide_under(none, name, f) by {}
        }
    }
    while i < rows.len()
        invariant
            i <= rows.len(),
            names_known(rows@.take(i as int), names@),
        decreases rows.len() - i,
    {
        let r: &PlayerRow = &rows[i];
        let ghost seen = rows@.take(i as int);
        let ghost before = names@;
        let ghost key = r.name_normalized@;
        assert(before.contains_key(key) <==> exists|f: u32| fide_under(seen, key, f));
        if let Some(fid) = r.fide_id {
            match names.get(r.name_normalized.as_str()) {
                Some(info) => {
                    if info.fide != fid {
                        let first: u32 = info.fide;
                        names.insert(
                            r.name_normalized.clone(),
                            NameInfo { fide: first, ambiguous: true },
                        );
                    }
                },
                None => {
                    names.insert(
                        r.name_normalized.clone(),
                        NameInfo { fide: fid, ambiguous: false },
                    );
                },
            }
        }
        proof {
            let now = rows@.take(i + 1);
            assert(now =~= seen.push(rows@[i as int]));
            lemma_names_kept(seen, *r, before, names@);
        }
        i += 1;
    }
    assert(rows@.take(i as int) =~= rows@);
    names
}

/// The FIDE ID of the person that `r` stands for, and whether its name identifies.
fn find_person(rows: &[PlayerRow], names: &StringHashMap<NameInfo>, r: &PlayerRow) -> (p: (
    Option<u32>,
    bool,
))
    requires
        names_known(rows@, names@),
    ensures
        p.0 == person_fide(rows@, *r),
        p.1 == name_identifies(rows@, r.name_normalized@),
{
    let ghost name = r.name_normalized@;
    let ghost known = names@.contains_key(name);
    let info: Option<NameInfo> = match names.get(r.name_normalized.as_str()) {
        Some(info) => Some(*info),
        None => None,
    };
    let ambiguous: bool = match info {
        Some(info) => info.ambiguous,
        None => false,
    };
    proof {
        if !known && is_ambiguous(rows@, name) {
            let (i, j) = choose|i: int, j: int|
                0 <= i < rows@.len() && 0 <= j < rows@.len() && (
                #[trigger] rows@[i]).name_normalized@ == name && (
                #[trigger] rows@[j]).name_normalized@ == name && rows@[i].fide_id is Some
                    && rows@[j].fide_id is Some && rows@[i].fide_id != rows@[j].fide_id;
            assert(fide_under(rows@, name, rows@[i].fide_id->0));
        }
    }
    let identifies: bool = !r.name_normalized.as_str().is_empty() && !ambiguous;
    if r.fide_id.is_some() {
        return (r.fide_id, identifies);
    }
    match info {
        Some(info) => {
            if identifies {
                proof {
                    let f = choose|f: u32| fide_under(rows@, name, f);
                    assert(fide_under(rows@, name, info.fide));
                    lemma_one_fide(rows@, name, f, info.fide);
                }
                (Some(info.fide), identifies)
            } else {
                (None, identifies)
            }
        },
        None => (None, identifies),
    }
}

/// One cluster while the rows are read: its best row so far and whether it has others.
#[derive(Clone, Copy)]
struct Cluster {
    best: usize,
    score: i64,
    many: bool,
}

/// The clusters of the first `n` rows: `at` says which one each row is in.
spec fn clustered(rows: Seq<PlayerRow>, n: int, at: Seq<usize>, clusters: Seq<Cluster>) -> bool {
    &&& 0 <= n <= rows.len()
    &&& at.len() == n
    &&& forall|a: int| 0 <= a < n ==> #[trigger] at[a] < clusters.len()
    &&& forall|a: int, b: int|
        0 <= a < n && 0 <= b < n ==> (#[trigger] at[a] == #[trigger] at[b] <==> same_player(
            rows,
            rows[a],
            rows[b],
        ))
    &&& forall|c: int|
        0 <= c < clusters.len() ==> {
            let best = (#[trigger] clusters[c]).best as int;
            &&& 0 <= best < n
            &&& at[best] == c
            &&& clusters[c].score == row_score(rows[best])
            &&& forall|a: int|
                0 <= a < n && #[trigger] at[a] == c && a != best ==> outranks(rows[best], rows[a])
            &&& clusters[c].many <==> exists|a: int|
                0 <= a < n && a != best && #[trigger] at[a] == c
        }
}

/// Where the rows of a person with a FIDE ID, or of one with only a name, have gone.
spec fn indexed(
    rows: Seq<PlayerRow>,
    n: int,
    at: Seq<usize>,
    by_fide: Map<u32, usize>,
    by_name: Map<Seq<char>, usize>,
) -> bool {
    &&& forall|a: int|
        0 <= a < n ==> match person_fide(rows, #[trigger] rows[a]) {
            Some(f) => by_fide.contains_key(f) && by_fide[f] == at[a],
            None => name_identifies(rows, rows[a].name_normalized@) ==> by_name.contains_key(
                rows[a].name_normalized@,
            ) && by_name[rows[a].name_normalized@] == at[a],
        }
    &&& forall|f: u32| #[trigger]
        by_fide.contains_key(f) ==> exists|a: int|
            0 <= a < n && person_fide(rows, #[trigger] rows[a]) == Some(f)
    &&& forall|name: Seq<char>| #[trigger]
        by_name.contains_key(name) ==> name_identifies(rows, name) && exists|a: int|
            0 <= a < n && person_fide(rows, #[trigger] rows[a]) is None
                && rows[a].name_normalized@ == name
}

/// The next row finds its cluster: the one of the rows it belongs with, or a new one.
spec fn cluster_found(rows: Seq<PlayerRow>, n: int, at: Seq<usize>, c: Option<usize>) -> bool {
    match c {
        Some(c) => (exists|a: int| 0 <= a < n && #[trigger] at[a] == c) && forall|a: int|
            0 <= a < n ==> (#[trigger] at[a] == c <==> same_player(rows, rows[a], rows[n])),
        None => forall|a: int|
            0 <= a < n ==> !same_player(rows, #[trigger] rows[a], rows[n]),
    }
}

proof fn lemma_joins(rows: Seq<PlayerRow>, a: PlayerRow, b: PlayerRow, c: PlayerRow)
    requires
        same_player(rows, a, b),
        a.id == b.id ==> a == b,
        b.id == c.id ==> b == c,
    ensures
        same_player(rows, b, a),
        same_player(rows, b, c) ==> same_player(rows, a, c),
{
}

proof fn lemma_add_row(
    rows: Seq<PlayerRow>,
    n: int,
    at: Seq<usize>,
    clusters: Seq<Cluster>,
    c: usize,
    found: Option<usize>,
    score: i64,
    after: Seq<Cluster>,
)
    requires
        unique_ids(rows),
        clustered(rows, n, at, clusters),
        n < rows.len(),
        cluster_found(rows, n, at, found),
        score == row_score(rows[n]),
        n <= usize::MAX,
        match found {
            Some(f) => {
                &&& c == f
                &&& c < clusters.len()
                &&& after == clusters.update(
                    c as int,
                    if outranks(rows[n], rows[clusters[c as int].best as int]) {
                        Cluster { best: n as usize, score, many: true }
                    } else {
                        Cluster {
                            best: clusters[c as int].best,
                            score: clusters[c as int].score,
                            many: true,
                        }
                    },
                )
            },
            None => {
                &&& c == clusters.len()
                &&& after == clusters.push(Cluster { best: n as usize, score, many: false })
            },
        },
    ensures
        clustered(rows, n + 1, at.push(c), after),
{
    let now = at.push(c);
    assert forall|a: int| 0 <= a < n implies now[a] == at[a] by {}
    assert(now[n] == c);
    assert forall|a: int, b: int| 0 <= a < n + 1 && 0 <= b < n + 1 implies (#[trigger] now[a]
        == #[trigger] now[b] <==> same_player(rows, rows[a], rows[b])) by {
        if a < n && b < n {
            assert(at[a] == at[b] <==> same_player(rows, rows[a], rows[b]));
        } else if a < n {
            assert(at[a] < clusters.len());
            assert(found is None ==> !same_player(rows, rows[a], rows[n]));
        } else if b < n {
            assert(at[b] < clusters.len());
            assert(found is None ==> !same_player(rows, rows[b], rows[n]));
            if same_player(rows, rows[n], rows[b]) {
                lemma_joins(rows, rows[n], rows[b], rows[b]);
            }
            if same_player(rows, rows[b], rows[n]) {
                lemma_joins(rows, rows[b], rows[n], rows[n]);
            }
        }
    }
    assert forall|k: int| 0 <= k < after.len() implies {
        let best = (#[trigger] after[k]).best as int;
        &&& 0 <= best < n + 1
        &&& now[best] == k
        &&& after[k].score == row_score(rows[best])
        &&& forall|a: int|
            0 <= a < n + 1 && #[trigger] now[a] == k && a != best ==> outranks(rows[best], rows[a])
        &&& after[k].many <==> exists|a: int|
            0 <= a < n + 1 && a != best && #[trigger] now[a] == k
    } by {
        if k == c && found is None {
            assert forall|a: int| 0 <= a < n implies now[a] != k by {
                assert(at[a] < clusters.len());
            }
        } else {
            let old_best = clusters[k].best as int;
            let best = after[k].best as int;
            assert(at[old_best] == k);
            assert(now[old_best] == at[old_best]);
            if k != c {
                assert(after[k] == clusters[k]);
                if clusters[k].many {
                    let a = choose|a: int| 0 <= a < n && a != best && #[trigger] at[a] == k;
                    assert(now[a] == k);
                }
                if exists|a: int| 0 <= a < n + 1 && a != best && #[trigger] now[a] == k {
                    let a = choose|a: int| 0 <= a < n + 1 && a != best && #[trigger] now[a] == k;
                    assert(a < n);
                    assert(at[a] == k);
                }
            } else {
                assert(now[n] == k);
                assert(rows[n].id != rows[old_best].id);
                assert forall|a: int|
                    0 <= a < n + 1 && #[trigger] now[a] == k && a != best implies outranks(
                    rows[best],
                    rows[a],
                ) by {
                    if a < n {
                        assert(at[a] == k);
                    }
                }
                if best == n {
                    assert(now[old_best] == k && old_best != best);
                } else {
                    assert(now[n] == k && n != best);
                }
            }
        }
    }
}

/// Puts one entry into a list that is sorted by its first number.
fn insert_sorted(list: &mut Vec<(u32, u32)>, e: (u32, u32))
    requires
        forall|i: int, j: int| 0 <= i < j < old(list).len() ==> (#[trigger] old(list)@[i]).0 < (
        #[trigger] old(list)@[j]).0,
        forall|i: int| 0 <= i < old(list).len() ==> (#[trigger] old(list)@[i]).0 != e.0,
    ensures
        forall|i: int, j: int| 0 <= i < j < final(list).len() ==> (#[trigger] final(list)@[i]).0 < (
        #[trigger] final(list)@[j]).0,
        forall|x: (u32, u32)| #[trigger]
            final(list)@.contains(x) <==> old(list)@.contains(x) || x == e,
{
    let mut at: usize = list.len();
    while at > 0 && list[at - 1].0 > e.0
        invariant
            at <= list.len(),
            list@ == old(list)@,
            forall|i: int| at <= i < list.len() ==> (#[trigger] list@[i]).0 > e.0,
        decreases at,
    {
        at -= 1;
    }
    list.insert(at, e);
    proof {
        let before = old(list)@;
        assert(list@ =~= before.insert(at as int, e));
        assert forall|x: (u32, u32)| #[trigger] list@.contains(x) <==> before.contains(x) || x
            == e by {
            if before.contains(x) {
                let k = before.index_of(x);
                if k < at {
                    assert(list@[k] == x);
                } else {
                    assert(list@[k + 1] == x);
                }
            }
            assert(list@[at as int] == e);
            if list@.contains(x) {
                let k = list@.index_of(x);
                if k < at {
                    assert(before[k] == x);
                } else if k > at {
                    assert(before[k - 1] == x);
                }
            }
        }
        assert forall|i: int, j: int| 0 <= i < j < list@.len() implies (#[trigger] list@[i]).0 < (
        #[trigger] list@[j]).0 by {
            let x = if i < at {
                i
            } else {
                i - 1
            };
            let y = if j < at {
                j
            } else {
                j - 1
            };
            if i == at {
                assert(before[y] == list@[j]);
            } else if j == at {
                assert(before[x] == list@[i]);
                assert(before[at - 1].0 <= e.0);
                if x < at - 1 {
                    assert(before[x].0 < before[at - 1].0);
                }
            } else {
                assert(before[x] == list@[i] && before[y] == list@[j]);
            }
        }
    }
}

/// Clusters candidate rows into sets that stand for one person and chooses one
/// survivor each. Returns `(old id, survivor's id)` for every row that does not survive,
/// in the order of the old ids, and the number of clusters of two rows or more.
///
/// Rows belong together when they share a FIDE ID or a normalised name, and so on from
/// row to row. A normalised name held by rows with different FIDE IDs joins nothing:
/// those are namesakes that FIDE itself distinguishes, and a merge cannot be undone. Nor
/// does an empty name: it is no identity.
#[verifier::spinoff_prover]
#[verifier::rlimit(60)]
pub fn cluster_players(rows: &[PlayerRow]) -> (r: (Vec<(u32, u32)>, usize))
    requires
        unique_ids(rows@),
    ensures
        is_merge_plan(rows@, r.0@),
        r.1 == count_absorbing(rows@, rows.len() as int),
{
    let names: StringHashMap<NameInfo> = read_names(rows);
    let mut by_fide: HashMap<u32, usize> = HashMap::new();
    let mut by_name: StringHashMap<usize> = StringHashMap::new();
    let mut at: Vec<usize> = Vec::new();
    let mut clusters: Vec<Cluster> = Vec::new();
    let mut n: usize = 0;
    while n < rows.len()
        invariant
            n <= rows.len(),
            unique_ids(rows@),
            names_known(rows@, names@),
            clusters.len() <= n,
            clustered(rows@, n as int, at@, clusters@),
            indexed(rows@, n as int, at@, by_fide@, by_name@),
        decreases rows.len() - n,
    {
        let r: &PlayerRow = &rows[n];
        let (person, identifies) = find_person(rows, &names, r);
        let ghost fides = by_fide@;
        let ghost known = by_name@;
        let ghost places = at@;
        let found: Option<usize> = match person {
            Some(f) => match by_fide.get(&f) {
                Some(c) => Some(*c),
                None => None,
            },
            None => if identifies {
                match by_name.get(r.name_normalized.as_str()) {
                    Some(c) => Some(*c),
                    None => None,
                }
            } else {
                None
            },
        };
        proof {
            assert forall|a: int| 0 <= a < n implies (#[trigger] rows@[a]).id != r.id by {
                assert(rows@[n as int].id == r.id);
            }
            match found {
                Some(c) => {
                    match person {
                        Some(f) => {
                            let a = choose|a: int|
                                0 <= a < n && person_fide(rows@, #[trigger] rows@[a]) == Some(f);
                            assert(places[a] == c);
                        },
                        None => {
                            let a = choose|a: int|
                                0 <= a < n && person_fide(rows@, #[trigger] rows@[a]) is None
                                    && rows@[a].name_normalized@ == r.name_normalized@;
                            assert(places[a] == c);
                        },
                    }
                    assert forall|a: int| 0 <= a < n implies (#[trigger] places[a] == c
                        <==> same_player(rows@, rows@[a], rows@[n as int])) by {
                        let b = choose|b: int| 0 <= b < n && #[trigger] places[b] == c && same_player(
                            rows@,
                            rows@[b],
                            rows@[n as int],
                        );
                        assert(same_player(rows@, rows@[a], rows@[n as int]) ==> places[a] == c) by {
                            if same_player(rows@, rows@[a], rows@[n as int]) {
                                assert(person_fide(rows@, rows@[a]) == person);
                            }
                        }
                        if places[a] == c {
                            match person {
                                Some(f) => {
                                    let k = choose|k: int|
                                        0 <= k < n && person_fide(rows@, #[trigger] rows@[k])
                                            == Some(f);
                                    assert(places[k] == c);
                                    assert(same_player(rows@, rows@[a], rows@[k]));
                                    lemma_joins(rows@, rows@[a], rows@[k], rows@[n as int]);
                                },
                                None => {
                                    let k = choose|k: int|
                                        0 <= k < n && person_fide(rows@, #[trigger] rows@[k]) is None
                                            && rows@[k].name_normalized@ == r.name_normalized@;
                                    assert(places[k] == c);
                                    assert(same_player(rows@, rows@[a], rows@[k]));
                                    lemma_joins(rows@, rows@[a], rows@[k], rows@[n as int]);
                                },
                            }
                        }
                    }
                },
                None => {},
            }
            assert(cluster_found(rows@, n as int, places, found));
        }
        let score: i64 = score_row(r);
        let ghost before = clusters@;
        let c: usize = match found {
            Some(c) => {
                assert(exists|a: int| 0 <= a < n && #[trigger] places[a] == c);
                let old_best: usize = clusters[c].best;
                let old_score: i64 = clusters[c].score;
                if beats(r, score, &rows[old_best], old_score) {
                    clusters.set(c, Cluster { best: n, score, many: true });
                } else {
                    clusters.set(c, Cluster { best: old_best, score: old_score, many: true });
                }
                c
            },
            None => {
                clusters.push(Cluster { best: n, score, many: false });
                clusters.len() - 1
            },
        };
        proof {
            lemma_add_row(rows@, n as int, places, before, c, found, score, clusters@);
        }
        at.push(c);
        match person {
            Some(f) => {
                by_fide.insert(f, c);
            },
            None => {
                if identifies {
                    by_name.insert(r.name_normalized.clone(), c);
                }
            },
        }
        proof {
            assert forall|a: int| 0 <= a < n + 1 implies match person_fide(
                rows@,
                #[trigger] rows@[a],
            ) {
                Some(f) => by_fide@.contains_key(f) && by_fide@[f] == at@[a],
                None => name_identifies(rows@, rows@[a].name_normalized@)
                    ==> by_name@.contains_key(rows@[a].name_normalized@)
                    && by_name@[rows@[a].name_normalized@] == at@[a],
            } by {
                if a < n {
                    assert(at@[a] == places[a]);
                    if same_player(rows@, rows@[a], rows@[n as int]) {
                        assert(clustered(rows@, n + 1, at@, clusters@));
                        assert(at@[a] == at@[n as int]);
                    }
                }
            }
            assert forall|f: u32| #[trigger] by_fide@.contains_key(f) implies exists|a: int|
                0 <= a < n + 1 && person_fide(rows@, #[trigger] rows@[a]) == Some(f) by {
                if fides.contains_key(f) {
                    let a = choose|a: int|
                        0 <= a < n && person_fide(rows@, #[trigger] rows@[a]) == Some(f);
                    assert(person_fide(rows@, rows@[a]) == Some(f));
                } else {
                    assert(person_fide(rows@, rows@[n as int]) == Some(f));
                }
            }
            assert forall|name: Seq<char>| #[trigger]
                by_name@.contains_key(name) implies name_identifies(rows@, name) && exists|a: int|
                0 <= a < n + 1 && person_fide(rows@, #[trigger] rows@[a]) is None
                    && rows@[a].name_normalized@ == name by {
                if known.contains_key(name) {
                    let a = choose|a: int|
                        0 <= a < n && person_fide(rows@, #[trigger] rows@[a]) is None
                            && rows@[a].name_normalized@ == name;
                    assert(person_fide(rows@, rows@[a]) is None);
                } else {
                    assert(rows@[n as int].name_normalized@ == name);
                }
            }
        }
        n += 1;
    }
    let mut mapping: Vec<(u32, u32)> = Vec::new();
    let mut groups: usize = 0;
    let mut i: usize = 0;
    while i < rows.len()
        invariant
            i <= rows.len(),
            unique_ids(rows@),
            clustered(rows@, rows@.len() as int, at@, clusters@),
            groups <= i,
            groups == count_absorbing(rows@, i as int),
            forall|x: int, y: int|
                0 <= x < y < mapping.len() ==> (#[trigger] mapping@[x]).0 < (#[trigger] mapping@[y]).0,
            forall|e: (u32, u32)| #[trigger]
                mapping@.contains(e) <==> exists|k: int|
                    0 <= k < i && (#[trigger] rows@[k]).id == e.0 && goes_into(rows@, e.0, e.1),
        decreases rows.len() - i,
    {
        let c: usize = at[i];
        let best: usize = clusters[c].best;
        let ghost had = mapping@;
        proof {
            lemma_best_is_kept(rows@, at@, clusters@, i as int);
            assert forall|k: int| 0 <= k < i implies (#[trigger] rows@[k]).id != rows@[i as int].id by {}
        }
        if best == i {
            if clusters[c].many {
                groups += 1;
            }
        } else {
            let e: (u32, u32) = (rows[i].id, rows[best].id);
            assert forall|x: int| 0 <= x < had.len() implies (#[trigger] had[x]).0 != e.0 by {
                assert(had.contains(had[x]));
            }
            insert_sorted(&mut mapping, e);
            assert(goes_into(rows@, e.0, e.1));
        }
        proof {
            assert forall|e: (u32, u32)| #[trigger] mapping@.contains(e) <==> exists|k: int|
                0 <= k < i + 1 && (#[trigger] rows@[k]).id == e.0 && goes_into(rows@, e.0, e.1) by {
                if mapping@.contains(e) {
                    if had.contains(e) {
                        let k = choose|k: int|
                            0 <= k < i && (#[trigger] rows@[k]).id == e.0 && goes_into(
                                rows@,
                                e.0,
                                e.1,
                            );
                        assert(0 <= k < i + 1 && rows@[k].id == e.0);
                    } else {
                        assert(rows@[i as int].id == e.0);
                    }
                }
                if exists|k: int|
                    0 <= k < i + 1 && (#[trigger] rows@[k]).id == e.0 && goes_into(
                        rows@,
                        e.0,
                        e.1,
                    ) {
                    let k = choose|k: int|
                        0 <= k < i + 1 && (#[trigger] rows@[k]).id == e.0 && goes_into(
                            rows@,
                            e.0,
                            e.1,
                        );
                    if k < i {
                        assert(had.contains(e));
                    } else {
                        lemma_goes_into_best(rows@, at@, clusters@, i as int, e.1);
                    }
                }
            }
        }
        i += 1;
    }
    proof {
        assert forall|old_id: u32, new_id: u32| #[trigger]
            mapping@.contains((old_id, new_id)) <==> goes_into(rows@, old_id, new_id) by {
            if goes_into(rows@, old_id, new_id) {
                let (k, j) = choose|k: int, j: int|
                    0 <= k < rows@.len() && 0 <= j < rows@.len() && k != j && (
                    #[trigger] rows@[k]).id == old_id && (#[trigger] rows@[j]).id == new_id
                        && same_player(rows@, rows@[j], rows@[k]) && is_kept(rows@, j);
                assert(rows@[k].id == old_id);
            }
        }
    }
    (mapping, groups)
}

/// The best row of a full cluster is the one that is kept, and the cluster has others
/// exactly when that row absorbs them.
proof fn lemma_best_is_kept(rows: Seq<PlayerRow>, at: Seq<usize>, clusters: Seq<Cluster>, i: int)
    requires
        unique_ids(rows),
        clustered(rows, rows.len() as int, at, clusters),
        0 <= i < rows.len(),
    ensures
        ({
            let c = clusters[at[i] as int];
            let best = c.best as int;
            &&& 0 <= best < rows.len()
            &&& is_kept(rows, best)
            &&& same_player(rows, rows[best], rows[i])
            &&& best != i ==> !is_kept(rows, i)
            &&& best == i ==> (absorbs(rows, i) <==> c.many)
            &&& best != i ==> goes_into(rows, rows[i].id, rows[best].id)
        }),
{
    let c = at[i] as int;
    let best = clusters[c].best as int;
    assert(at[i] < clusters.len());
    assert(at[best] == at[i]);
    assert forall|k: int|
        0 <= k < rows.len() && k != best && same_player(rows, rows[best], #[trigger] rows[k]) implies outranks(
        rows[best],
        rows[k],
    ) by {
        assert(at[best] == at[k]);
    }
    if best != i {
        assert(same_player(rows, rows[i], rows[best]));
        assert(outranks(rows[best], rows[i]));
        assert(rows[i].id != rows[best].id);
        assert(!outranks(rows[i], rows[best]));
    }
    if clusters[c].many {
        let a = choose|a: int| 0 <= a < rows.len() && a != best && #[trigger] at[a] == c;
        assert(same_player(rows, rows[best], rows[a]));
    }
    if best == i && absorbs(rows, i) {
        let k = choose|k: int|
            0 <= k < rows.len() && k != i && same_player(rows, rows[i], #[trigger] rows[k]);
        assert(at[i] == at[k]);
    }
}

proof fn lemma_goes_into_best(
    rows: Seq<PlayerRow>,
    at: Seq<usize>,
    clusters: Seq<Cluster>,
    i: int,
    new_id: u32,
)
    requires
        unique_ids(rows),
        clustered(rows, rows.len() as int, at, clusters),
        0 <= i < rows.len(),
        goes_into(rows, rows[i].id, new_id),
    ensures
        clusters[at[i] as int].best != i,
        new_id == rows[clusters[at[i] as int].best as int].id,
{
    lemma_best_is_kept(rows, at, clusters, i);
    let best = clusters[at[i] as int].best as int;
    let (k, j) = choose|k: int, j: int|
        0 <= k < rows.len() && 0 <= j < rows.len() && k != j && (#[trigger] rows[k]).id
            == rows[i].id && (#[trigger] rows[j]).id == new_id && same_player(
            rows,
            rows[j],
            rows[k],
        ) && is_kept(rows, j);
    assert(k == i);
    assert(at[j] == at[i]);
    assert(at[best] == at[i]);
    if j != best {
        assert(same_player(rows, rows[j], rows[best]));
        assert(same_player(rows, rows[best], rows[j]));
        assert(outranks(rows[j], rows[best]));
        assert(outranks(rows[best], rows[j]));
    }
}

// ── Laws ─────────────────────────────────────────────────────────────────────

/// No two rows with different FIDE IDs are ever taken for one person.
pub proof fn law_fide_ids_never_mix(rows: Seq<PlayerRow>, a: PlayerRow, b: PlayerRow)
    requires
        same_player(rows, a, b),
        a.id == b.id ==> a == b,
        a.fide_id is Some,
        b.fide_id is Some,
    ensures
        a.fide_id == b.fide_id,
{
}

/// Rows that share a FIDE ID, or a name that no namesakes hold, are one person.
pub proof fn law_shared_key_joins(rows: Seq<PlayerRow>, i: int, j: int)
    requires
        0 <= i < rows.len(),
        0 <= j < rows.len(),
        (rows[i].fide_id is Some && rows[i].fide_id == rows[j].fide_id) || (
        rows[i].name_normalized@ == rows[j].name_normalized@ && name_identifies(
            rows,
            rows[i].name_normalized@,
        )),
    ensures
        same_player(rows, rows[i], rows[j]),
{
    let name = rows[i].name_normalized@;
    if !(rows[i].fide_id is Some && rows[i].fide_id == rows[j].fide_id) {
        if rows[i].fide_id is Some {
            assert(fide_under(rows, name, rows[i].fide_id->0));
        }
        if rows[j].fide_id is Some {
            assert(fide_under(rows, name, rows[j].fide_id->0));
        }
        if exists|f: u32| fide_under(rows, name, f) {
            let f = choose|f: u32| fide_under(rows, name, f);
            if rows[i].fide_id is Some {
                lemma_one_fide(rows, name, f, rows[i].fide_id->0);
            }
            if rows[j].fide_id is Some {
                lemma_one_fide(rows, name, f, rows[j].fide_id->0);
            }
        }
    }
}

/// Two rows share a key, or are one row.
pub open spec fn share_key(rows: Seq<PlayerRow>, a: PlayerRow, b: PlayerRow) -> bool {
    ||| a == b
    ||| a.fide_id is Some && a.fide_id == b.fide_id
    ||| a.name_normalized@ == b.name_normalized@ && name_identifies(rows, a.name_normalized@)
}

/// Rows are one person only where shared keys lead from one to the other.
pub proof fn law_joined_only_by_shared_keys(rows: Seq<PlayerRow>, i: int, j: int)
    requires
        unique_ids(rows),
        0 <= i < rows.len(),
        0 <= j < rows.len(),
        same_player(rows, rows[i], rows[j]),
    ensures
        exists|k: int, l: int|
            0 <= k < rows.len() && 0 <= l < rows.len() && share_key(
                rows,
                rows[i],
                #[trigger] rows[k],
            ) && share_key(rows, rows[k], #[trigger] rows[l]) && share_key(rows, rows[l], rows[j]),
{
    if rows[i].id == rows[j].id {
        assert(i == j);
        assert(share_key(rows, rows[i], rows[i]));
    } else {
        match person_fide(rows, rows[i]) {
            None => {
                assert(share_key(rows, rows[i], rows[j]));
                assert(share_key(rows, rows[j], rows[j]));
            },
            Some(f) => {
                let k = lemma_carrier(rows, i, f);
                let l = lemma_carrier(rows, j, f);
                assert(share_key(rows, rows[k], rows[l]));
                assert(share_key(rows, rows[i], rows[k]));
                assert(share_key(rows, rows[l], rows[j]));
            },
        }
    }
}

proof fn lemma_carrier(rows: Seq<PlayerRow>, i: int, f: u32) -> (k: int)
    requires
        0 <= i < rows.len(),
        person_fide(rows, rows[i]) == Some(f),
    ensures
        0 <= k < rows.len(),
        rows[k].fide_id == Some(f),
        share_key(rows, rows[i], rows[k]),
        share_key(rows, rows[k], rows[i]),
{
    if rows[i].fide_id is Some {
        i
    } else {
        let name = rows[i].name_normalized@;
        assert(fide_under(rows, name, f));
        choose|k: int|
            0 <= k < rows.len() && (#[trigger] rows[k]).name_normalized@ == name && rows[k].fide_id
                == Some(f)
    }
}

/// A row that is kept has the person's FIDE ID, if any row of the person has one.
pub proof fn law_survivor_keeps_fide_id(rows: Seq<PlayerRow>, j: int, k: int)
    requires
        unique_ids(rows),
        0 <= j < rows.len(),
        0 <= k < rows.len(),
        is_kept(rows, j),
        same_player(rows, rows[j], rows[k]),
        rows[k].fide_id is Some,
    ensures
        rows[j].fide_id == rows[k].fide_id,
{
    if j != k {
        assert(outranks(rows[j], rows[k]));
    }
}

/// A row goes into one other row at most, and the row it goes into goes into none.
pub proof fn law_merge_ends_at_once(rows: Seq<PlayerRow>, a: u32, b: u32, c: u32)
    requires
        unique_ids(rows),
        goes_into(rows, a, b),
    ensures
        !goes_into(rows, b, c),
        goes_into(rows, a, c) ==> c == b,
{
    let (i, j) = choose|i: int, j: int|
        0 <= i < rows.len() && 0 <= j < rows.len() && i != j && (#[trigger] rows[i]).id == a && (
        #[trigger] rows[j]).id == b && same_player(rows, rows[j], rows[i]) && is_kept(rows, j);
    if goes_into(rows, b, c) {
        let (k, l) = choose|k: int, l: int|
            0 <= k < rows.len() && 0 <= l < rows.len() && k != l && (#[trigger] rows[k]).id == b
                && (#[trigger] rows[l]).id == c && same_player(rows, rows[l], rows[k]) && is_kept(
                rows,
                l,
            );
        assert(k == j);
        lemma_joins(rows, rows[l], rows[j], rows[j]);
        assert(outranks(rows[l], rows[j]));
        assert(outranks(rows[j], rows[l]));
    }
    if goes_into(rows, a, c) {
        let (k, l) = choose|k: int, l: int|
            0 <= k < rows.len() && 0 <= l < rows.len() && k != l && (#[trigger] rows[k]).id == a
                && (#[trigger] rows[l]).id == c && same_player(rows, rows[l], rows[k]) && is_kept(
                rows,
                l,
            );
        assert(k == i);
        if l != j {
            lemma_joins(rows, rows[j], rows[i], rows[i]);
            lemma_joins(rows, rows[l], rows[i], rows[j]);
            lemma_joins(rows, rows[l], rows[j], rows[j]);
            assert(outranks(rows[l], rows[j]));
            assert(outranks(rows[j], rows[l]));
        }
    }
}

// ── The order of the rows ────────────────────────────────────────────────────

/// Whether two lists hold the same rows.
spec fn same_rows(rows: Seq<PlayerRow>, other: Seq<PlayerRow>) -> bool {
    forall|r: PlayerRow|
        #![trigger rows.contains(r)]
        #![trigger other.contains(r)]
        rows.contains(r) <==> other.contains(r)
}

proof fn lemma_names_anywhere(rows: Seq<PlayerRow>, other: Seq<PlayerRow>, name: Seq<char>)
    requires
        same_rows(rows, other),
    ensures
        forall|f: u32| #[trigger] fide_under(rows, name, f) ==> fide_under(other, name, f),
        is_ambiguous(rows, name) ==> is_ambiguous(other, name),
{
    assert forall|f: u32| #[trigger] fide_under(rows, name, f) implies fide_under(
        other,
        name,
        f,
    ) by {
        let i = choose|i: int|
            0 <= i < rows.len() && (#[trigger] rows[i]).name_normalized@ == name && rows[i].fide_id
                == Some(f);
        assert(rows.contains(rows[i]));
        let k = other.index_of(rows[i]);
        assert(other[k] == rows[i]);
    }
    if is_ambiguous(rows, name) {
        let (i, j) = choose|i: int, j: int|
            0 <= i < rows.len() && 0 <= j < rows.len() && (#[trigger] rows[i]).name_normalized@
                == name && (#[trigger] rows[j]).name_normalized@ == name && rows[i].fide_id is Some
                && rows[j].fide_id is Some && rows[i].fide_id != rows[j].fide_id;
        assert(rows.contains(rows[i]) && rows.contains(rows[j]));
        let k = other.index_of(rows[i]);
        let l = other.index_of(rows[j]);
        assert(other[k] == rows[i] && other[l] == rows[j]);
    }
}

proof fn lemma_person_anywhere(rows: Seq<PlayerRow>, other: Seq<PlayerRow>, r: PlayerRow)
    requires
        same_rows(rows, other),
    ensures
        person_fide(rows, r) == person_fide(other, r),
        name_identifies(rows, r.name_normalized@) == name_identifies(other, r.name_normalized@),
{
    let name = r.name_normalized@;
    assert(same_rows(other, rows));
    lemma_names_anywhere(rows, other, name);
    lemma_names_anywhere(other, rows, name);
    if name_identifies(rows, name) && exists|f: u32| fide_under(rows, name, f) {
        let f = choose|f: u32| fide_under(rows, name, f);
        assert(fide_under(other, name, f));
        let g = choose|g: u32| fide_under(other, name, g);
        lemma_one_fide(other, name, f, g);
    } else if exists|f: u32| fide_under(other, name, f) {
        let f = choose|f: u32| fide_under(other, name, f);
        assert(fide_under(rows, name, f));
    }
}

proof fn lemma_same_player_anywhere(
    rows: Seq<PlayerRow>,
    other: Seq<PlayerRow>,
    a: PlayerRow,
    b: PlayerRow,
)
    requires
        same_rows(rows, other),
    ensures
        same_player(rows, a, b) == same_player(other, a, b),
{
    lemma_person_anywhere(rows, other, a);
    lemma_person_anywhere(rows, other, b);
}

/// Whether a row is kept, and whether others go into it, does not depend on where it stands.
proof fn lemma_kept_anywhere(
    rows: Seq<PlayerRow>,
    other: Seq<PlayerRow>,
    j: int,
    l: int,
)
    requires
        same_rows(rows, other),
        unique_ids(rows),
        unique_ids(other),
        0 <= j < rows.len(),
        0 <= l < other.len(),
        rows[j] == other[l],
    ensures
        is_kept(rows, j) ==> is_kept(other, l),
        absorbs(rows, j) ==> absorbs(other, l),
{
    if is_kept(rows, j) {
        assert forall|k: int|
            0 <= k < other.len() && k != l && same_player(
                other,
                other[l],
                #[trigger] other[k],
            ) implies outranks(other[l], other[k]) by {
            assert(other.contains(other[k]));
            let i = rows.index_of(other[k]);
            assert(rows[i] == other[k]);
            assert(i != j);
            lemma_same_player_anywhere(rows, other, rows[j], rows[i]);
        }
    }
    if absorbs(rows, j) {
        let k = choose|k: int|
            0 <= k < rows.len() && k != j && same_player(rows, rows[j], #[trigger] rows[k]);
        assert(rows.contains(rows[k]));
        let i = other.index_of(rows[k]);
        assert(other[i] == rows[k]);
        assert(i != l);
        lemma_same_player_anywhere(rows, other, rows[j], rows[k]);
    }
}

/// Whether a row is one of those that others go into, wherever it stands.
spec fn absorbing(rows: Seq<PlayerRow>) -> spec_fn(PlayerRow) -> bool {
    |r: PlayerRow| exists|j: int| 0 <= j < rows.len() && #[trigger] rows[j] == r && absorbs(rows, j)
}

proof fn lemma_count_is_filter(rows: Seq<PlayerRow>, n: int)
    requires
        unique_ids(rows),
        0 <= n <= rows.len(),
    ensures
        count_absorbing(rows, n) == rows.take(n).filter(absorbing(rows)).len(),
    decreases n,
{
    reveal(Seq::filter);
    if n > 0 {
        lemma_count_is_filter(rows, n - 1);
        let t = rows.take(n);
        assert(t.drop_last() =~= rows.take(n - 1));
        assert(t.last() == rows[n - 1]);
        if absorbing(rows)(rows[n - 1]) {
            let j = choose|j: int|
                0 <= j < rows.len() && #[trigger] rows[j] == rows[n - 1] && absorbs(rows, j);
            assert(j == n - 1);
        }
    }
}

proof fn lemma_filter_counts(s: Seq<PlayerRow>, p: spec_fn(PlayerRow) -> bool)
    ensures
        s.filter(p).len() == s.to_multiset().filter(p).len(),
    decreases s.len(),
{
    broadcast use {
        vstd::multiset::group_multiset_axioms,
        vstd::multiset::group_multiset_properties,
    };

    reveal(Seq::filter);
    s.to_multiset_ensures();
    if s.len() == 0 {
        assert(s.to_multiset().filter(p) =~= vstd::multiset::Multiset::empty());
    } else {
        let t = s.drop_last();
        let x = s.last();
        assert(t.push(x) =~= s);
        t.to_multiset_ensures();
        lemma_filter_counts(t, p);
        let m = t.to_multiset();
        assert(s.to_multiset() =~= m.insert(x));
        if p(x) {
            assert(m.insert(x).filter(p) =~= m.filter(p).insert(x));
        } else {
            assert(m.insert(x).filter(p) =~= m.filter(p));
        }
    }
}

/// Two lists of the same pairs, each in the order of its first numbers, are equal.
proof fn lemma_one_plan(a: Seq<(u32, u32)>, b: Seq<(u32, u32)>)
    requires
        forall|p: (u32, u32)|
            #![trigger a.contains(p)]
            #![trigger b.contains(p)]
            a.contains(p) <==> b.contains(p),
        forall|i: int, j: int| 0 <= i < j < a.len() ==> (#[trigger] a[i]).0 < (#[trigger] a[j]).0,
        forall|i: int, j: int| 0 <= i < j < b.len() ==> (#[trigger] b[i]).0 < (#[trigger] b[j]).0,
    ensures
        a == b,
    decreases a.len(),
{
    if a.len() == 0 {
        if b.len() > 0 {
            assert(b.contains(b[0]));
        }
        assert(a =~= b);
    } else {
        assert(a.contains(a[a.len() - 1]));
        assert(b.len() > 0);
        assert(b.contains(b[b.len() - 1]));
        let i = a.index_of(b.last());
        let j = b.index_of(a.last());
        assert(a[i] == b.last() && b[j] == a.last());
        assert(i == a.len() - 1 && j == b.len() - 1) by {
            if i < a.len() - 1 {
                assert(a[i].0 < a[a.len() - 1].0);
                if j < b.len() - 1 {
                    assert(b[j].0 < b[b.len() - 1].0);
                }
            }
            if j < b.len() - 1 {
                assert(b[j].0 < b[b.len() - 1].0);
                if i < a.len() - 1 {
                    assert(a[i].0 < a[a.len() - 1].0);
                }
            }
        }
        let x = a.drop_last();
        let y = b.drop_last();
        assert forall|p: (u32, u32)|
            #![trigger x.contains(p)]
            #![trigger y.contains(p)]
            x.contains(p) <==> y.contains(p) by {
            if x.contains(p) {
                let k = x.index_of(p);
                assert(a[k] == p);
                assert(a.contains(p));
                let l = b.index_of(p);
                assert(b[l] == p);
                assert(a[k].0 < a[a.len() - 1].0);
                assert(y[l] == p);
            }
            if y.contains(p) {
                let k = y.index_of(p);
                assert(b[k] == p);
                assert(b.contains(p));
                let l = a.index_of(p);
                assert(a[l] == p);
                assert(b[k].0 < b[b.len() - 1].0);
                assert(x[l] == p);
            }
        }
        lemma_one_plan(x, y);
        assert(a =~= x.push(a.last()));
        assert(b =~= y.push(b.last()));
    }
}

/// The order in which the rows come does not matter: the same rows go into the same
/// others, and as many are kept, so the plan of the merge is the same list.
pub proof fn law_order_of_rows_does_not_matter(
    rows: Seq<PlayerRow>,
    other: Seq<PlayerRow>,
    plan: Seq<(u32, u32)>,
    other_plan: Seq<(u32, u32)>,
)
    requires
        unique_ids(rows),
        rows.to_multiset() == other.to_multiset(),
        is_merge_plan(rows, plan),
        is_merge_plan(other, other_plan),
    ensures
        unique_ids(other),
        forall|a: u32, b: u32| #[trigger] goes_into(rows, a, b) <==> goes_into(other, a, b),
        count_absorbing(rows, rows.len() as int) == count_absorbing(other, other.len() as int),
        plan == other_plan,
{
    rows.to_multiset_ensures();
    other.to_multiset_ensures();
    assert forall|r: PlayerRow|
        #![trigger rows.contains(r)]
        #![trigger other.contains(r)]
        rows.contains(r) <==> other.contains(r) by {
        assert(rows.contains(r) <==> rows.to_multiset().count(r) > 0);
        assert(other.contains(r) <==> other.to_multiset().count(r) > 0);
    }
    assert(same_rows(rows, other) && same_rows(other, rows));
    assert forall|i: int, j: int| 0 <= i < rows.len() && 0 <= j < rows.len() && i != j implies rows[i]
        != rows[j] by {
        assert(rows[i].id != rows[j].id);
    }
    rows.lemma_multiset_has_no_duplicates();
    other.lemma_multiset_has_no_duplicates_conv();
    assert forall|i: int, j: int|
        0 <= i < other.len() && 0 <= j < other.len() && i != j implies (#[trigger] other[i]).id != (
    #[trigger] other[j]).id by {
        assert(other.contains(other[i]) && other.contains(other[j]));
        let k = rows.index_of(other[i]);
        let l = rows.index_of(other[j]);
        assert(rows[k] == other[i] && rows[l] == other[j]);
        assert(k != l);
    }
    assert forall|a: u32, b: u32| #[trigger] goes_into(rows, a, b) <==> goes_into(other, a, b) by {
        if goes_into(rows, a, b) {
            lemma_goes_anywhere(rows, other, a, b);
        }
        if goes_into(other, a, b) {
            lemma_goes_anywhere(other, rows, a, b);
        }
    }
    let p = absorbing(rows);
    let q = absorbing(other);
    assert forall|r: PlayerRow| #[trigger] p(r) == q(r) by {
        if p(r) {
            lemma_absorbing_anywhere(rows, other, r);
        }
        if q(r) {
            lemma_absorbing_anywhere(other, rows, r);
        }
    }
    assert(p =~= q);
    lemma_count_is_filter(rows, rows.len() as int);
    lemma_count_is_filter(other, other.len() as int);
    assert(rows.take(rows.len() as int) =~= rows);
    assert(other.take(other.len() as int) =~= other);
    lemma_filter_counts(rows, p);
    lemma_filter_counts(other, p);
    assert forall|e: (u32, u32)|
        #![trigger plan.contains(e)]
        #![trigger other_plan.contains(e)]
        plan.contains(e) <==> other_plan.contains(e) by {
        let (a, b) = e;
        assert(plan.contains((a, b)) <==> goes_into(rows, a, b));
        assert(other_plan.contains((a, b)) <==> goes_into(other, a, b));
    }
    lemma_one_plan(plan, other_plan);
}

proof fn lemma_goes_anywhere(rows: Seq<PlayerRow>, other: Seq<PlayerRow>, a: u32, b: u32)
    requires
        same_rows(rows, other),
        unique_ids(rows),
        unique_ids(other),
        goes_into(rows, a, b),
    ensures
        goes_into(other, a, b),
{
    let (i, j) = choose|i: int, j: int|
        0 <= i < rows.len() && 0 <= j < rows.len() && i != j && (#[trigger] rows[i]).id == a && (
        #[trigger] rows[j]).id == b && same_player(rows, rows[j], rows[i]) && is_kept(rows, j);
    assert(rows.contains(rows[i]) && rows.contains(rows[j]));
    let k = other.index_of(rows[i]);
    let l = other.index_of(rows[j]);
    assert(other[k] == rows[i] && other[l] == rows[j]);
    assert(k != l);
    lemma_same_player_anywhere(rows, other, rows[j], rows[i]);
    lemma_kept_anywhere(rows, other, j, l);
}

proof fn lemma_absorbing_anywhere(rows: Seq<PlayerRow>, other: Seq<PlayerRow>, r: PlayerRow)
    requires
        same_rows(rows, other),
        unique_ids(rows),
        unique_ids(other),
        absorbing(rows)(r),
    ensures
        absorbing(other)(r),
{
    let j = choose|j: int| 0 <= j < rows.len() && #[trigger] rows[j] == r && absorbs(rows, j);
    assert(rows.contains(rows[j]));
    let l = other.index_of(r);
    assert(other[l] == r);
    lemma_kept_anywhere(rows, other, j, l);
}

// ── Laws of the row to keep ──────────────────────────────────────────────────

/// A row with a FIDE ID is kept rather than one without; then the higher score counts, and
/// then the lower number. Of two rows one is kept, and only one.
pub proof fn law_which_row_is_kept(a: PlayerRow, b: PlayerRow)
    requires
        a.id != b.id,
    ensures
        a.fide_id is Some && b.fide_id is None ==> outranks(a, b),
        a.fide_id is Some && b.fide_id is Some && row_score(a) > row_score(b) ==> outranks(a, b),
        a.fide_id is None && b.fide_id is None && row_score(a) > row_score(b) ==> outranks(a, b),
        (a.fide_id is Some) == (b.fide_id is Some) && row_score(a) == row_score(b) && a.id < b.id
            ==> outranks(a, b),
        outranks(a, b) <==> !outranks(b, a),
{
}

/// The order in which rows are kept goes through.
pub proof fn law_order_of_rows_goes_through(a: PlayerRow, b: PlayerRow, c: PlayerRow)
    requires
        outranks(a, b),
        outranks(b, c),
    ensures
        outranks(a, c),
        !outranks(a, a),
{
}

/// A normalised row has the score of one, whatever else it holds; any other has that of its
/// name and its last game.
pub proof fn law_scores_of_rows(r: PlayerRow)
    ensures
        r.name_normalised ==> row_score(r) == 1_000_000,
        !r.name_normalised && r.last_date is None ==> row_score(r) == name_quality(r.name@),
        !r.name_normalised && r.last_date is Some ==> row_score(r) == name_quality(r.name@)
            + recency(r.last_date->0@),
{
}

/// The date of a game counts by its year: of two dates the later year counts more.
pub proof fn law_later_years_count_more(a: Seq<char>, b: Seq<char>, m: nat, n: nat)
    requires
        text::without_char(a, '-') == text::dec(m),
        text::without_char(b, '-') == text::dec(n),
        m < 100_000_000 && n < 100_000_000,
    ensures
        recency(a) == m / 10_000,
        m / 10_000 < n / 10_000 ==> recency(a) < recency(b),
{
    text::law_signed_decimal_reads_back(m as int, 0x8000_0000_0000_0000, 0x7fff_ffff_ffff_ffff);
    text::law_signed_decimal_reads_back(n as int, 0x8000_0000_0000_0000, 0x7fff_ffff_ffff_ffff);
}

/// A name with a comma is better than one without, one with a full first name better than
/// one with a letter, and a title takes some of that away.
pub proof fn law_how_names_are_rated(surname: Seq<char>, first: Seq<char>)
    requires
        !surname.contains(','),
    ensures
        name_quality(surname) == 0,
        text::trim(first).len() > 1 && !has_title_word(text::words(surname)) ==> name_quality(
            surname + seq![','] + first,
        ) == 1500,
        text::trim(first).len() <= 1 && !has_title_word(text::words(surname)) ==> name_quality(
            surname + seq![','] + first,
        ) == 1000,
        text::trim(first).len() > 1 && has_title_word(text::words(surname)) ==> name_quality(
            surname + seq![','] + first,
        ) == 1200,
        text::trim(first).len() <= 1 && has_title_word(text::words(surname)) ==> name_quality(
            surname + seq![','] + first,
        ) == 700,
{
    let name = surname + seq![','] + first;
    let n = surname.len();
    assert forall|i: int| 0 <= i < n implies text::not_char(',')(#[trigger] surname[i]) by {
        assert(surname.contains(surname[i]));
    }
    text::lemma_lead_is(surname, text::not_char(','), n);
    assert forall|i: int| 0 <= i < n implies text::not_char(',')(#[trigger] name[i]) by {
        assert(name[i] == surname[i]);
        assert(text::not_char(',')(surname[i]));
    }
    assert(name[n as int] == ',');
    text::lemma_lead_is(name, text::not_char(','), n);
    assert(name.take(n as int) =~= surname);
    assert(name.skip(n as int + 1) =~= first);
}

/// A title is a word with a dot at its end; a letter with a dot counts as one, a dot alone
/// does not.
pub proof fn law_titles_end_in_a_dot(w: Seq<char>)
    ensures
        w.len() > 0 ==> is_title_word(w.push('.')),
        !is_title_word(seq!['.']),
        w.len() > 0 && w.last() != '.' ==> !is_title_word(w),
{
}

} // verus!
