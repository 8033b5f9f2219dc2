//! Questions to the database: the conditions that a search sets, and the values for them.
use crate::text;
use crate::text::{append_num, chars_of, joined, same, split_words};
use vstd::prelude::*;
use vstd::string::*;

verus! {

/// A value in a question.
#[derive(Debug)]
pub enum SqlValue {
    Hash(i64),
    Id(u32),
    Collection(i32),
    Text(String),
}

pub enum SqlValueView {
    Hash(i64),
    Id(u32),
    Collection(i32),
    Text(Seq<char>),
}

impl View for SqlValue {
    type V = SqlValueView;

    open spec fn view(&self) -> SqlValueView {
        match self {
            SqlValue::Hash(h) => SqlValueView::Hash(*h),
            SqlValue::Id(i) => SqlValueView::Id(*i),
            SqlValue::Collection(c) => SqlValueView::Collection(*c),
            SqlValue::Text(t) => SqlValueView::Text(t@),
        }
    }
}

pub open spec fn value_views(v: Seq<SqlValue>) -> Seq<SqlValueView> {
    v.map_values(|x: SqlValue| x@)
}

/// Which games are asked for.
#[derive(Debug)]
pub struct MovesFilter {
    pub player_id: Option<u32>,
    pub name_pattern: Option<String>,
    pub fide_id: Option<u32>,
    /// The colour of the player: `"white"`, `"black"`, or either.
    pub color: String,
    pub white_pattern: Option<String>,
    pub black_pattern: Option<String>,
    pub white_fide_id: Option<u32>,
    pub black_fide_id: Option<u32>,
    pub from: Option<String>,
    pub to: Option<String>,
    pub visibility: Option<String>,
    pub collection_id: Option<i32>,
}

/// A condition with the values for its places.
#[verifier::ext_equal]
pub struct CondView {
    pub sql: Seq<char>,
    pub values: Seq<SqlValueView>,
}

pub open spec fn no_condition() -> CondView {
    CondView { sql: ""@, values: Seq::empty() }
}

/// One of three conditions, by colour; for either colour the value stands in two places.
pub open spec fn by_color(
    color: Seq<char>,
    v: SqlValueView,
    white: Seq<char>,
    black: Seq<char>,
    either: Seq<char>,
) -> CondView {
    if color == "white"@ {
        CondView { sql: white, values: seq![v] }
    } else if color == "black"@ {
        CondView { sql: black, values: seq![v] }
    } else {
        CondView { sql: either, values: seq![v, v] }
    }
}

/// The condition on the player: by number, else by FIDE number, else by name.
pub open spec fn player_condition(f: MovesFilter) -> CondView {
    if f.player_id is Some {
        by_color(
            f.color@,
            SqlValueView::Id(f.player_id->0),
            "AND g.white_id = ?"@,
            "AND g.black_id = ?"@,
            "AND (g.white_id = ? OR g.black_id = ?)"@,
        )
    } else if f.fide_id is Some {
        by_color(
            f.color@,
            SqlValueView::Id(f.fide_id->0),
            "AND pw.fide_id = ?"@,
            "AND pb.fide_id = ?"@,
            "AND (pw.fide_id = ? OR pb.fide_id = ?)"@,
        )
    } else if f.name_pattern is Some {
        by_color(
            f.color@,
            SqlValueView::Text(f.name_pattern->0@),
            "AND pw.name_normalized LIKE ?"@,
            "AND pb.name_normalized LIKE ?"@,
            "AND (pw.name_normalized LIKE ? OR pb.name_normalized LIKE ?)"@,
        )
    } else {
        no_condition()
    }
}

/// A condition on one side: by FIDE number, else by name.
pub open spec fn side_condition(
    fide_id: Option<u32>,
    pattern: Option<String>,
    by_id: Seq<char>,
    by_name: Seq<char>,
) -> CondView {
    if fide_id is Some {
        CondView { sql: by_id, values: seq![SqlValueView::Id(fide_id->0)] }
    } else if pattern is Some {
        CondView { sql: by_name, values: seq![SqlValueView::Text(pattern->0@)] }
    } else {
        no_condition()
    }
}

pub open spec fn text_condition(v: Option<String>, sql: Seq<char>) -> CondView {
    match v {
        Some(t) => CondView { sql, values: seq![SqlValueView::Text(t@)] },
        None => no_condition(),
    }
}

pub open spec fn collection_condition(c: Option<i32>) -> CondView {
    match c {
        Some(c) => CondView {
            sql: "AND EXISTS (SELECT 1 FROM game_collections gc WHERE gc.game_id = g.id AND gc.collection_id = ?)"@,
            values: seq![SqlValueView::Collection(c)],
        },
        None => no_condition(),
    }
}

/// All conditions of a search, in their order.
pub open spec fn conditions(f: MovesFilter) -> Seq<CondView> {
    seq![
        player_condition(f),
        side_condition(
            f.white_fide_id,
            f.white_pattern,
            "AND pw.fide_id = ?"@,
            "AND pw.name_normalized LIKE ?"@,
        ),
        side_condition(
            f.black_fide_id,
            f.black_pattern,
            "AND pb.fide_id = ?"@,
            "AND pb.name_normalized LIKE ?"@,
        ),
        text_condition(f.from, "AND g.date >= ?"@),
        text_condition(f.to, "AND g.date <= ?"@),
        text_condition(f.visibility, "AND g.visibility = ?"@),
        collection_condition(f.collection_id),
    ]
}

/// The text of some conditions, one per line.
pub open spec fn cond_text(cs: Seq<CondView>) -> Seq<char>
    decreases cs.len(),
{
    if cs.len() == 0 {
        Seq::empty()
    } else {
        cond_text(cs.drop_last()) + cs.last().sql + "\n"@
    }
}

/// The values of some conditions.
pub open spec fn cond_values(cs: Seq<CondView>) -> Seq<SqlValueView>
    decreases cs.len(),
{
    if cs.len() == 0 {
        Seq::empty()
    } else {
        cond_values(cs.drop_last()) + cs.last().values
    }
}

/// The part of a question that depends on the search: conditions, one per line, and the
/// values for the whole question.
#[derive(Debug)]
pub struct MovesQuery {
    pub conditions: String,
    pub values: Vec<SqlValue>,
}

impl MovesQuery {
    /// Holds these conditions, behind the position's own.
    spec fn holds(&self, hash: i64, cs: Seq<CondView>) -> bool {
        self.conditions@ == cond_text(cs) && value_views(self.values@) == seq![
            SqlValueView::Hash(hash),
        ] + cond_values(cs)
    }

    fn push(&mut self, sql: &str, values: Vec<SqlValue>, hash: Ghost<i64>, cs: Ghost<Seq<CondView>>)
        requires
            old(self).holds(hash@, cs@),
        ensures
            final(self).holds(
                hash@,
                cs@.push(CondView { sql: sql@, values: value_views(values@) }),
            ),
    {
        let ghost c = CondView { sql: sql@, values: value_views(values@) };
        let ghost before = self.values@;
        let mut vs: Vec<SqlValue> = values;
        let ghost added = vs@;
        self.conditions.append(sql);
        self.conditions.append("\n");
        self.values.append(&mut vs);
        proof {
            assert(cs@.push(c).drop_last() =~= cs@);
            assert(cs@.push(c).last() == c);
            assert(value_views(self.values@) =~= value_views(before) + value_views(added));
            assert(self.conditions@ =~= cond_text(cs@) + sql@ + "\n"@);
            assert(value_views(self.values@) =~= seq![SqlValueView::Hash(hash@)] + (cond_values(
                cs@,
            ) + c.values));
        }
    }
}

fn one(v: SqlValue) -> (r: Vec<SqlValue>)
    ensures
        value_views(r@) == seq![v@],
{
    let mut r: Vec<SqlValue> = Vec::new();
    r.push(v);
    assert(value_views(r@) =~= seq![v@]);
    r
}

fn colored<'a>(
    color: &str,
    v: SqlValue,
    again: SqlValue,
    white: &'a str,
    black: &'a str,
    either: &'a str,
) -> (r: (&'a str, Vec<SqlValue>))
    requires
        again@ == v@,
    ensures
        (CondView { sql: r.0@, values: value_views(r.1@) }) == by_color(
            color@,
            v@,
            white@,
            black@,
            either@,
        ),
{
    let mut vs: Vec<SqlValue> = Vec::new();
    vs.push(v);
    if same(color, "white") {
        assert(value_views(vs@) =~= seq![v@]);
        (white, vs)
    } else if same(color, "black") {
        assert(value_views(vs@) =~= seq![v@]);
        (black, vs)
    } else {
        vs.push(again);
        assert(value_views(vs@) =~= seq![v@, v@]);
        (either, vs)
    }
}

fn player_part<'a>(f: &MovesFilter) -> (r: (&'a str, Vec<SqlValue>))
    ensures
        (CondView { sql: r.0@, values: value_views(r.1@) }) == player_condition(*f),
{
    match f.player_id {
        Some(id) => colored(
            f.color.as_str(),
            SqlValue::Id(id),
            SqlValue::Id(id),
            "AND g.white_id = ?",
            "AND g.black_id = ?",
            "AND (g.white_id = ? OR g.black_id = ?)",
        ),
        None => match f.fide_id {
            Some(id) => colored(
                f.color.as_str(),
                SqlValue::Id(id),
                SqlValue::Id(id),
                "AND pw.fide_id = ?",
                "AND pb.fide_id = ?",
                "AND (pw.fide_id = ? OR pb.fide_id = ?)",
            ),
            None => match &f.name_pattern {
                Some(p) => colored(
                    f.color.as_str(),
                    SqlValue::Text(p.clone()),
                    SqlValue::Text(p.clone()),
                    "AND pw.name_normalized LIKE ?",
                    "AND pb.name_normalized LIKE ?",
                    "AND (pw.name_normalized LIKE ? OR pb.name_normalized LIKE ?)",
                ),
                None => {
                    let vs: Vec<SqlValue> = Vec::new();
                    assert(value_views(vs@) =~= Seq::empty());
                    ("", vs)
                },
            },
        },
    }
}

fn side_part<'a>(
    fide_id: Option<u32>,
    pattern: &Option<String>,
    by_id: &'a str,
    by_name: &'a str,
) -> (r: (&'a str, Vec<SqlValue>))
    ensures
        (CondView { sql: r.0@, values: value_views(r.1@) }) == side_condition(
            fide_id,
            *pattern,
            by_id@,
            by_name@,
        ),
{
    match fide_id {
        Some(id) => (by_id, one(SqlValue::Id(id))),
        None => match pattern {
            Some(p) => (by_name, one(SqlValue::Text(p.clone()))),
            None => {
                let vs: Vec<SqlValue> = Vec::new();
                assert(value_views(vs@) =~= Seq::empty());
                ("", vs)
            },
        },
    }
}

fn text_part<'a>(v: &Option<String>, sql: &'a str) -> (r: (&'a str, Vec<SqlValue>))
    ensures
        (CondView { sql: r.0@, values: value_views(r.1@) }) == text_condition(*v, sql@),
{
    match v {
        Some(t) => (sql, one(SqlValue::Text(t.clone()))),
        None => {
            let vs: Vec<SqlValue> = Vec::new();
            assert(value_views(vs@) =~= Seq::empty());
            ("", vs)
        },
    }
}

fn collection_part<'a>(c: Option<i32>) -> (r: (&'a str, Vec<SqlValue>))
    ensures
        (CondView { sql: r.0@, values: value_views(r.1@) }) == collection_condition(c),
{
    match c {
        Some(c) => (
            "AND EXISTS (SELECT 1 FROM game_collections gc WHERE gc.game_id = g.id AND gc.collection_id = ?)",
            one(SqlValue::Collection(c)),
        ),
        None => {
            let vs: Vec<SqlValue> = Vec::new();
            assert(value_views(vs@) =~= Seq::empty());
            ("", vs)
        },
    }
}

/// The conditions under which the moves of a position are counted, and the values for
/// them, the position's hash first.
pub fn position_moves(hash: i64, f: &MovesFilter) -> (q: MovesQuery)
    ensures
        q.conditions@ == cond_text(conditions(*f)),
        value_views(q.values@) == seq![SqlValueView::Hash(hash)] + cond_values(conditions(*f)),
{
    let mut q = MovesQuery { conditions: "".to_owned(), values: one(SqlValue::Hash(hash)) };
    let ghost cs = Seq::<CondView>::empty();
    proof {
        reveal_strlit("");
        assert(q.conditions@ =~= cond_text(cs));
        assert(value_views(q.values@) =~= seq![SqlValueView::Hash(hash)] + cond_values(cs));
    }
    let p = player_part(f);
    q.push(p.0, p.1, Ghost(hash), Ghost(cs));
    let ghost cs = cs.push(player_condition(*f));
    let w = side_part(
        f.white_fide_id,
        &f.white_pattern,
        "AND pw.fide_id = ?",
        "AND pw.name_normalized LIKE ?",
    );
    let ghost wc = CondView { sql: w.0@, values: value_views(w.1@) };
    q.push(w.0, w.1, Ghost(hash), Ghost(cs));
    let ghost cs = cs.push(wc);
    let b = side_part(
        f.black_fide_id,
        &f.black_pattern,
        "AND pb.fide_id = ?",
        "AND pb.name_normalized LIKE ?",
    );
    let ghost bc = CondView { sql: b.0@, values: value_views(b.1@) };
    q.push(b.0, b.1, Ghost(hash), Ghost(cs));
    let ghost cs = cs.push(bc);
    let from = text_part(&f.from, "AND g.date >= ?");
    let ghost fc = CondView { sql: from.0@, values: value_views(from.1@) };
    q.push(from.0, from.1, Ghost(hash), Ghost(cs));
    let ghost cs = cs.push(fc);
    let to = text_part(&f.to, "AND g.date <= ?");
    let ghost tc = CondView { sql: to.0@, values: value_views(to.1@) };
    q.push(to.0, to.1, Ghost(hash), Ghost(cs));
    let ghost cs = cs.push(tc);
    let v = text_part(&f.visibility, "AND g.visibility = ?");
    let ghost vc = CondView { sql: v.0@, values: value_views(v.1@) };
    q.push(v.0, v.1, Ghost(hash), Ghost(cs));
    let ghost cs = cs.push(vc);
    let c = collection_part(f.collection_id);
    q.push(c.0, c.1, Ghost(hash), Ghost(cs));
    let ghost cs = cs.push(collection_condition(f.collection_id));
    assert(cs =~= conditions(*f));
    q
}

// ── Places and values ────────────────────────────────────────────────────────

/// How many places for values a text has.
pub open spec fn places(s: Seq<char>) -> nat
    decreases s.len(),
{
    if s.len() == 0 {
        0
    } else {
        places(s.drop_last()) + (if s.last() == '?' {
            1nat
        } else {
            0nat
        })
    }
}

proof fn lemma_places_add(a: Seq<char>, b: Seq<char>)
    ensures
        places(a + b) == places(a) + places(b),
    decreases b.len(),
{
    if b.len() == 0 {
        assert(a + b =~= a);
    } else {
        lemma_places_add(a, b.drop_last());
        assert((a + b).drop_last() =~= a + b.drop_last());
        assert((a + b).last() == b.last());
    }
}

proof fn lemma_no_places(s: Seq<char>)
    requires
        forall|i: int| 0 <= i < s.len() ==> s[i] != '?',
    ensures
        places(s) == 0,
    decreases s.len(),
{
    if s.len() > 0 {
        assert(s[s.len() - 1] != '?');
        lemma_no_places(s.drop_last());
    }
}

proof fn lemma_one_place(s: Seq<char>, k: int)
    requires
        0 <= k < s.len(),
        s[k] == '?',
        forall|i: int| 0 <= i < s.len() && i != k ==> s[i] != '?',
    ensures
        places(s) == 1,
{
    let a = s.take(k + 1);
    let b = s.skip(k + 1);
    assert(s =~= a + b);
    lemma_places_add(a, b);
    lemma_no_places(b);
    assert(a.drop_last() =~= s.take(k));
    lemma_no_places(s.take(k));
}

proof fn lemma_two_places(s: Seq<char>, k: int, l: int)
    requires
        0 <= k < l < s.len(),
        s[k] == '?',
        s[l] == '?',
        forall|i: int| 0 <= i < s.len() && i != k && i != l ==> s[i] != '?',
    ensures
        places(s) == 2,
{
    let a = s.take(k + 1);
    let b = s.skip(k + 1);
    assert(s =~= a + b);
    lemma_places_add(a, b);
    lemma_one_place(a, k);
    lemma_one_place(b, l - k - 1);
}

proof fn lemma_player_texts()
    ensures
        places("AND g.white_id = ?"@) == 1,
        places("AND g.black_id = ?"@) == 1,
        places("AND (g.white_id = ? OR g.black_id = ?)"@) == 2,
{
    reveal_strlit("AND g.white_id = ?");
    lemma_one_place("AND g.white_id = ?"@, 17);
    reveal_strlit("AND g.black_id = ?");
    lemma_one_place("AND g.black_id = ?"@, 17);
    reveal_strlit("AND (g.white_id = ? OR g.black_id = ?)");
    lemma_two_places("AND (g.white_id = ? OR g.black_id = ?)"@, 18, 36);
}

proof fn lemma_fide_texts()
    ensures
        places("AND pw.fide_id = ?"@) == 1,
        places("AND pb.fide_id = ?"@) == 1,
        places("AND (pw.fide_id = ? OR pb.fide_id = ?)"@) == 2,
{
    reveal_strlit("AND pw.fide_id = ?");
    lemma_one_place("AND pw.fide_id = ?"@, 17);
    reveal_strlit("AND pb.fide_id = ?");
    lemma_one_place("AND pb.fide_id = ?"@, 17);
    reveal_strlit("AND (pw.fide_id = ? OR pb.fide_id = ?)");
    lemma_two_places("AND (pw.fide_id = ? OR pb.fide_id = ?)"@, 18, 36);
}

proof fn lemma_name_texts()
    ensures
        places("AND pw.name_normalized LIKE ?"@) == 1,
        places("AND pb.name_normalized LIKE ?"@) == 1,
        places("AND (pw.name_normalized LIKE ? OR pb.name_normalized LIKE ?)"@) == 2,
{
    reveal_strlit("AND pw.name_normalized LIKE ?");
    lemma_one_place("AND pw.name_normalized LIKE ?"@, 28);
    reveal_strlit("AND pb.name_normalized LIKE ?");
    lemma_one_place("AND pb.name_normalized LIKE ?"@, 28);
    reveal_strlit("AND (pw.name_normalized LIKE ? OR pb.name_normalized LIKE ?)");
    lemma_two_places("AND (pw.name_normalized LIKE ? OR pb.name_normalized LIKE ?)"@, 29, 58);
}

proof fn lemma_date_texts()
    ensures
        places("AND g.date >= ?"@) == 1,
        places("AND g.date <= ?"@) == 1,
        places("AND g.visibility = ?"@) == 1,
{
    reveal_strlit("AND g.date >= ?");
    lemma_one_place("AND g.date >= ?"@, 14);
    reveal_strlit("AND g.date <= ?");
    lemma_one_place("AND g.date <= ?"@, 14);
    reveal_strlit("AND g.visibility = ?");
    lemma_one_place("AND g.visibility = ?"@, 19);
}

proof fn lemma_collection_text()
    ensures
        places("AND EXISTS (SELECT 1 FROM game_collections gc WHERE gc.game_id = g.id AND gc.collection_id = ?)"@) == 1,
{
    reveal_strlit("AND EXISTS (SELECT 1 FROM game_collections gc WHERE gc.game_id = g.id AND gc.collection_id = ?)");
    lemma_one_place("AND EXISTS (SELECT 1 FROM game_collections gc WHERE gc.game_id = g.id AND gc.collection_id = ?)"@, 93);
}

/// Every place in a condition has its value.
pub open spec fn is_filled(c: CondView) -> bool {
    places(c.sql) == c.values.len()
}

proof fn lemma_conditions_are_filled(f: MovesFilter)
    ensures
        forall|i: int| 0 <= i < conditions(f).len() ==> is_filled(#[trigger] conditions(f)[i]),
{
    lemma_player_texts();
    lemma_fide_texts();
    lemma_name_texts();
    lemma_date_texts();
    lemma_collection_text();
    reveal_strlit("");
    lemma_no_places(""@);
}

proof fn lemma_all_filled(cs: Seq<CondView>)
    requires
        forall|i: int| 0 <= i < cs.len() ==> is_filled(#[trigger] cs[i]),
    ensures
        places(cond_text(cs)) == cond_values(cs).len(),
    decreases cs.len(),
{
    if cs.len() > 0 {
        let d = cs.drop_last();
        assert forall|i: int| 0 <= i < d.len() implies is_filled(#[trigger] d[i]) by {
            assert(d[i] == cs[i]);
        }
        lemma_all_filled(d);
        assert(is_filled(cs[cs.len() - 1]));
        reveal_strlit("\n");
        lemma_no_places("\n"@);
        lemma_places_add(cond_text(d), cs.last().sql);
        lemma_places_add(cond_text(d) + cs.last().sql, "\n"@);
    }
}

/// Whatever is searched for, the conditions have as many places as there are values for
/// them.
pub proof fn law_every_place_has_its_value(f: MovesFilter)
    ensures
        places(cond_text(conditions(f))) == cond_values(conditions(f)).len(),
{
    lemma_conditions_are_filled(f);
    lemma_all_filled(conditions(f));
}

// ── Openings ─────────────────────────────────────────────────────────────────

/// The columns and results of a player's games with one colour: whose number is asked for,
/// which result is a win, and which one a loss.
pub fn opening_columns(as_white: bool) -> (r: (String, String, String))
    ensures
        r.0@ == (if as_white {
            "white_id"@
        } else {
            "black_id"@
        }),
        r.1@ == (if as_white {
            "1-0"@
        } else {
            "0-1"@
        }),
        r.2@ == (if as_white {
            "0-1"@
        } else {
            "1-0"@
        }),
{
    if as_white {
        ("white_id".to_owned(), "1-0".to_owned(), "0-1".to_owned())
    } else {
        ("black_id".to_owned(), "0-1".to_owned(), "1-0".to_owned())
    }
}

/// A move of an opening as it is shown: White's with its number.
pub open spec fn shown_move(mv: Seq<char>, i: int) -> Seq<char> {
    if i % 2 == 0 {
        text::dec((i / 2 + 1) as nat) + "."@ + mv
    } else {
        mv
    }
}

/// An opening as it is shown: `e4 e5 Nf3` becomes `1.e4 e5 2.Nf3`.
pub open spec fn shown_opening(raw: Seq<char>) -> Seq<char> {
    text::join(text::words(raw).map(|i: int, mv: Seq<char>| shown_move(mv, i)), " "@)
}

/// Writes an opening with the numbers of its moves.
pub fn format_opening_line(raw: &str) -> (r: String)
    ensures
        r@ == shown_opening(raw@),
{
    let words: Vec<String> = split_words(&chars_of(raw));
    let ghost all = text::words(raw@);
    let ghost want = all.map(|i: int, mv: Seq<char>| shown_move(mv, i));
    let mut out: Vec<String> = Vec::new();
    let mut i: usize = 0;
    proof {
        assert(text::texts(words@) == all);
        assert(words@.len() == all.len());
    }
    while i < words.len()
        invariant
            i <= words.len(),
            words@.len() == all.len(),
            all == text::texts(words@),
            want == all.map(|i: int, mv: Seq<char>| shown_move(mv, i)),
            out@.len() == i,
            forall|k: int| 0 <= k < i ==> (#[trigger] out@[k])@ == want[k],
        decreases words.len() - i,
    {
        assert(all[i as int] == words@[i as int]@);
        if i % 2 == 0 {
            let mut m: String = "".to_owned();
            append_num(&mut m, (i / 2) as u64 + 1);
            m.append(".");
            m.append(words[i].as_str());
            proof {
                reveal_strlit("");
                let d = text::dec((i / 2 + 1) as nat);
                assert(""@ + d =~= d);
            }
            assert(m@ == want[i as int]);
            out.push(m);
        } else {
            out.push(words[i].clone());
        }
        i += 1;
    }
    assert(text::texts(out@) =~= want);
    joined(&out, " ")
}

// ── Laws of searches ─────────────────────────────────────────────────────────

/// A player is looked for on the side that the colour names, or on both; by number before
/// FIDE number, and by that before name.
pub proof fn law_colours_name_the_side(f: MovesFilter)
    ensures
        f.player_id is Some && f.color@ == "white"@ ==> player_condition(f).sql
            == "AND g.white_id = ?"@,
        f.player_id is Some && f.color@ == "black"@ ==> player_condition(f).sql
            == "AND g.black_id = ?"@,
        f.player_id is Some && f.color@ != "white"@ && f.color@ != "black"@ ==> player_condition(
            f,
        ).sql == "AND (g.white_id = ? OR g.black_id = ?)"@,
        f.player_id is Some ==> player_condition(f).values[0] == SqlValueView::Id(f.player_id->0),
        f.player_id is None && f.fide_id is Some && f.color@ == "white"@ ==> player_condition(f).sql
            == "AND pw.fide_id = ?"@,
        f.player_id is None && f.fide_id is Some && f.color@ == "black"@ ==> player_condition(f).sql
            == "AND pb.fide_id = ?"@,
        f.player_id is None && f.fide_id is Some ==> player_condition(f).values[0]
            == SqlValueView::Id(f.fide_id->0),
        f.player_id is None && f.fide_id is None && f.name_pattern is Some ==> player_condition(
            f,
        ).values[0] == SqlValueView::Text(f.name_pattern->0@),
        f.player_id is None && f.fide_id is None && f.name_pattern is None ==> player_condition(
            f,
        ).values.len() == 0,
{
    reveal_strlit("white");
    reveal_strlit("black");
    assert("white"@[0] == 'w' && "black"@[0] == 'b');
}

/// The conditions on the two sides, the dates and the rest stand each with its own value; both
/// ends of the dates belong to them.
pub proof fn law_conditions_have_their_values(f: MovesFilter)
    ensures
        conditions(f).len() == 7,
        f.white_fide_id is Some ==> conditions(f)[1].sql == "AND pw.fide_id = ?"@ && conditions(
            f,
        )[1].values == seq![SqlValueView::Id(f.white_fide_id->0)],
        f.black_fide_id is Some ==> conditions(f)[2].sql == "AND pb.fide_id = ?"@ && conditions(
            f,
        )[2].values == seq![SqlValueView::Id(f.black_fide_id->0)],
        f.white_fide_id is None && f.white_pattern is Some ==> conditions(f)[1].values == seq![
            SqlValueView::Text(f.white_pattern->0@),
        ],
        f.black_fide_id is None && f.black_pattern is Some ==> conditions(f)[2].values == seq![
            SqlValueView::Text(f.black_pattern->0@),
        ],
        f.from is Some ==> conditions(f)[3].sql == "AND g.date >= ?"@ && conditions(f)[3].values
            == seq![SqlValueView::Text(f.from->0@)],
        f.to is Some ==> conditions(f)[4].sql == "AND g.date <= ?"@ && conditions(f)[4].values
            == seq![SqlValueView::Text(f.to->0@)],
        f.visibility is Some ==> conditions(f)[5].values == seq![
            SqlValueView::Text(f.visibility->0@),
        ],
        f.collection_id is Some ==> conditions(f)[6].values == seq![
            SqlValueView::Collection(f.collection_id->0),
        ],
        f.from is None ==> conditions(f)[3].values.len() == 0,
        f.to is None ==> conditions(f)[4].values.len() == 0,
{
}

/// Texts and values of conditions stand in one order.
pub proof fn law_values_follow_their_conditions(a: Seq<CondView>, b: Seq<CondView>)
    ensures
        cond_text(a + b) == cond_text(a) + cond_text(b),
        cond_values(a + b) == cond_values(a) + cond_values(b),
    decreases b.len(),
{
    if b.len() == 0 {
        assert(a + b =~= a);
        assert(cond_text(a) + cond_text(b) =~= cond_text(a));
        assert(cond_values(a) + cond_values(b) =~= cond_values(a));
    } else {
        assert((a + b).drop_last() =~= a + b.drop_last());
        law_values_follow_their_conditions(a, b.drop_last());
        assert(cond_text(a + b) =~= cond_text(a) + cond_text(b));
        assert(cond_values(a + b) =~= cond_values(a) + cond_values(b));
    }
}

/// The moves of White have their numbers, from 1 on, and those of Black have none.
pub proof fn law_openings_are_numbered(mv: Seq<char>, n: nat)
    ensures
        shown_move(mv, 2 * n as int) == text::dec(n + 1) + "."@ + mv,
        shown_move(mv, 2 * n as int + 1) == mv,
{
}

/// An opening is shown move for move.
pub proof fn law_openings_are_shown(ms: Seq<Seq<char>>)
    requires
        forall|i: int| 0 <= i < ms.len() ==> text::is_word(#[trigger] ms[i]),
    ensures
        shown_opening(text::join(ms, " "@)) == text::join(
            Seq::new(ms.len(), |i: int| shown_move(ms[i], i)),
            " "@,
        ),
{
    text::law_joined_words_come_apart(ms);
    assert(ms.map(|i: int, mv: Seq<char>| shown_move(mv, i)) =~= Seq::new(
        ms.len(),
        |i: int| shown_move(ms[i], i),
    ));
}

/// A value is told as what it is.
pub proof fn law_values_are_told(h: i64, i: u32, c: i32, t: String)
    ensures
        SqlValue::Hash(h)@ == SqlValueView::Hash(h),
        SqlValue::Id(i)@ == SqlValueView::Id(i),
        SqlValue::Collection(c)@ == SqlValueView::Collection(c),
        SqlValue::Text(t)@ == SqlValueView::Text(t@),
{
}

} // verus!
