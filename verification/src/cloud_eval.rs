//! Evaluations from the cloud: what the services' answers come to, what is kept of them,
//! and the watches that wait for a position to be analysed deeper.
use crate::chess;
use crate::chess::{find_san, play};
use crate::reporter;
use crate::sorting;
use crate::sorting::{codes_of, sort_places};
use crate::text;
use crate::text::{
    chars_of, find_char, is_among, parse_i32, same, slice, split_char, split_words, string_of,
    trim_chars, trim_end_char,
};
use std::collections::hash_map::DefaultHasher;
use std::collections::HashMap;
use std::hash::Hasher;
use vstd::prelude::*;
use vstd::std_specs::hash::DefaultHasherAdditionalSpecFns;
use vstd::string::*;

verus! {

broadcast use vstd::std_specs::hash::group_hash_axioms;

/// The chess database in the cloud.
pub const BASE: &'static str = "https://www.chessdb.cn/cdb.php";

/// The cloud evaluations of Lichess.
pub const LICHESS_URL: &'static str = "https://lichess.org/api/cloud-eval";

/// So many of the best moves get a continuation.
pub const PV_LINES: usize = 5;

/// A continuation is shown no further than this.
pub const PV_MAX_PLIES: usize = 12;

/// How long an evaluation is good, in seconds.
pub const CACHE_TTL_SECS: u64 = 86400;

/// So many positions are kept.
pub const CACHE_CAP: usize = 8192;

/// The least time between two requests to Lichess, in milliseconds.
pub const LICHESS_MIN_GAP_MS: u64 = 200;

/// The least time between two requests to the chess database, in milliseconds.
pub const CHESSDB_MIN_GAP_MS: u64 = 80;

/// How often watched positions are asked for, in seconds.
pub const WATCH_POLL_SECS: u64 = 60;

// ── Moves and scores ─────────────────────────────────────────────────────────

/// A move of a position with its evaluation, for the side to move.
#[derive(Clone, Debug)]
pub struct CloudMove {
    pub san: String,
    pub uci: String,
    pub score_cp: i32,
    /// In how many moves the side to move mates, or is mated if negative.
    pub mate: Option<i32>,
    /// The practical chances in percent, as the service writes them.
    pub winrate: Option<String>,
    pub rank: i32,
    pub note: String,
}

/// A continuation of a move.
#[derive(Debug)]
pub struct MoveLine {
    pub uci: String,
    pub pv_san: Vec<String>,
}

/// The evaluation of a position.
#[derive(Clone, Debug)]
pub struct CloudEval {
    /// `"ok"`, `"unknown"` or `"offline"`.
    pub status: String,
    pub moves: Vec<CloudMove>,
}

/// At least 1.
pub open spec fn at_least_one(n: int) -> int {
    if n < 1 {
        1
    } else {
        n
    }
}

/// What a note says of a mate: `(W-N)` that the side to move mates in N, `(L-N)` that it
/// is mated.
pub open spec fn mate_in(note: Seq<char>) -> Option<i32> {
    let pieces = text::split_on(note, '(');
    if pieces.len() < 2 {
        None
    } else {
        let inner = text::trim_end_matches(pieces[1], ')');
        let dash = text::index_of(inner, '-') as int;
        if dash >= inner.len() {
            None
        } else {
            match text::parse_int(text::trim(inner.skip(dash + 1)), 0x8000_0000, 0x7fff_ffff) {
                None => None,
                Some(n) => {
                    let kind = text::trim(inner.take(dash));
                    if kind == "W"@ {
                        Some(at_least_one(n) as i32)
                    } else if kind == "L"@ {
                        Some((-at_least_one(n)) as i32)
                    } else {
                        None
                    }
                },
            }
        }
    }
}

/// Reads the distance to mate in a note. A mate in no moves counts as one in 1.
pub fn parse_mate(note: &str) -> (r: Option<i32>)
    ensures
        r == mate_in(note@),
{
    let pieces: Vec<String> = split_char(&chars_of(note), '(');
    let ghost ps = text::split_on(note@, '(');
    assert(text::texts(pieces@) == ps);
    assert(pieces@.len() == ps.len());
    if pieces.len() < 2 {
        return None;
    }
    assert(pieces@[1]@ == ps[1]);
    let inner: Vec<char> = trim_end_char(&chars_of(pieces[1].as_str()), ')');
    let dash: usize = find_char(&inner, '-');
    if dash >= inner.len() {
        return None;
    }
    let tail: Vec<char> = slice(&inner, dash + 1, inner.len());
    assert(tail@ =~= inner@.skip(dash + 1));
    let head: Vec<char> = slice(&inner, 0, dash);
    assert(head@ =~= inner@.take(dash as int));
    match parse_i32(&trim_chars(&tail)) {
        None => None,
        Some(n) => {
            let kind: String = string_of(&trim_chars(&head));
            let m: i32 = if n < 1 {
                1
            } else {
                n
            };
            if same(kind.as_str(), "W") {
                Some(m)
            } else if same(kind.as_str(), "L") {
                Some(-m)
            } else {
                None
            }
        },
    }
}

/// The position after a move, in SAN.
pub open spec fn child_of(parent: Seq<char>, san: Seq<char>) -> Option<Seq<char>> {
    match chess::san_in(parent, san) {
        None => None,
        Some(m) => match chess::played_in(parent, m) {
            None => None,
            Some(p) => Some(p.next.fen),
        },
    }
}

/// The FEN of the position after a move.
pub fn child_fen(parent: &str, san: &str) -> (r: Option<String>)
    ensures
        reporter::opt_text(r) == child_of(parent@, san@),
{
    match find_san(parent, san) {
        None => None,
        Some(m) => match play(parent, m.as_str()) {
            None => None,
            Some(p) => Some(p.next.fen),
        },
    }
}

/// A move of an answer of the chess database, as far as it is there.
#[derive(Debug)]
pub struct QueryMove {
    pub san: Option<String>,
    pub uci: Option<String>,
    pub score: Option<i64>,
    pub winrate: Option<String>,
    pub rank: Option<i64>,
    pub note: Option<String>,
}

pub open spec fn or_empty(s: Option<String>) -> Seq<char> {
    match s {
        Some(s) => s@,
        None => ""@,
    }
}

/// Whether a move has what it takes.
pub open spec fn is_complete(m: QueryMove) -> bool {
    m.san is Some && m.score is Some
}

pub open spec fn complete_moves() -> spec_fn(QueryMove) -> bool {
    |m: QueryMove| is_complete(m)
}

/// Whether a move with its evaluation is what an answer says of it.
pub open spec fn agrees(c: CloudMove, m: QueryMove) -> bool {
    &&& c.san@ == m.san->0@
    &&& c.uci@ == or_empty(m.uci)
    &&& c.score_cp == m.score->0 as i32
    &&& c.mate == mate_in(or_empty(m.note))
    &&& reporter::opt_text(c.winrate) == reporter::opt_text(m.winrate)
    &&& c.rank == (match m.rank {
        Some(r) => r as i32,
        None => 0,
    })
    &&& c.note@ == or_empty(m.note)
}

pub open spec fn all_agree(cs: Seq<CloudMove>, ms: Seq<QueryMove>) -> bool {
    cs.len() == ms.len() && forall|i: int| 0 <= i < cs.len() ==> agrees(#[trigger] cs[i], ms[i])
}

fn text_or_empty(s: &Option<String>) -> (r: String)
    ensures
        r@ == or_empty(*s),
{
    match s {
        Some(s) => s.clone(),
        None => "".to_owned(),
    }
}

/// The evaluation that an answer of the chess database gives. A position that it does not
/// know has none; moves that lack their SAN or their score are left out.
pub fn parse_queryall(status: Option<&str>, moves: &[QueryMove]) -> (e: CloudEval)
    ensures
        if status is Some && status->0@ == "ok"@ {
            e.status@ == "ok"@ && all_agree(e.moves@, moves@.filter(complete_moves()))
        } else {
            e.status@ == "unknown"@ && e.moves@.len() == 0
        },
{
    let known: bool = match status {
        Some(s) => same(s, "ok"),
        None => false,
    };
    let mut out: Vec<CloudMove> = Vec::new();
    if !known {
        return CloudEval { status: "unknown".to_owned(), moves: out };
    }
    let mut i: usize = 0;
    proof {
        reveal(Seq::filter);
        assert(moves@.take(0) =~= Seq::empty());
    }
    while i < moves.len()
        invariant
            i <= moves.len(),
            all_agree(out@, moves@.take(i as int).filter(complete_moves())),
        decreases moves.len() - i,
    {
        let m: &QueryMove = &moves[i];
        proof {
            reveal(Seq::filter);
            let t = moves@.take(i + 1);
            assert(t.drop_last() =~= moves@.take(i as int));
            assert(t.last() == *m);
        }
        match (&m.san, m.score) {
            (Some(san), Some(score)) => {
                let note: String = text_or_empty(&m.note);
                let mate: Option<i32> = parse_mate(note.as_str());
                out.push(
                    CloudMove {
                        san: san.clone(),
                        uci: text_or_empty(&m.uci),
                        score_cp: score as i32,
                        mate,
                        winrate: reporter::clone_opt(&m.winrate),
                        rank: match m.rank {
                            Some(r) => r as i32,
                            None => 0,
                        },
                        note,
                    },
                );
            },
            _ => {},
        }
        i += 1;
    }
    assert(moves@.take(i as int) =~= moves@);
    CloudEval { status: "ok".to_owned(), moves: out }
}

/// What is told where the service cannot be reached.
pub fn offline_eval() -> (e: CloudEval)
    ensures
        e.status@ == "offline"@,
        e.moves@.len() == 0,
{
    CloudEval { status: "offline".to_owned(), moves: Vec::new() }
}

/// A continuation to be asked for: of which move, and from which position.
#[derive(Debug)]
pub struct LineRequest {
    pub uci: String,
    pub fen: String,
}

/// The continuations of some moves that can be asked for.
pub open spec fn requests(fen: Seq<char>, moves: Seq<CloudMove>) -> Seq<(Seq<char>, Seq<char>)>
    decreases moves.len(),
{
    if moves.len() == 0 {
        Seq::empty()
    } else {
        let front = requests(fen, moves.drop_last());
        match child_of(fen, moves.last().san@) {
            Some(f) => front.push((moves.last().uci@, f)),
            None => front,
        }
    }
}

pub open spec fn request_views(v: Seq<LineRequest>) -> Seq<(Seq<char>, Seq<char>)> {
    v.map_values(|r: LineRequest| (r.uci@, r.fen@))
}

/// The best moves of a list.
pub open spec fn top_moves(moves: Seq<CloudMove>) -> Seq<CloudMove> {
    if moves.len() > PV_LINES {
        moves.take(PV_LINES as int)
    } else {
        moves
    }
}

/// The continuations to be asked for, of the best moves of a position that is known.
pub fn lines_to_fetch(fen: &str, eval: &CloudEval) -> (out: Vec<LineRequest>)
    ensures
        request_views(out@) == (if eval.status@ == "ok"@ {
            requests(fen@, top_moves(eval.moves@))
        } else {
            Seq::empty()
        }),
{
    let mut out: Vec<LineRequest> = Vec::new();
    assert(request_views(out@) =~= Seq::empty());
    if !same(eval.status.as_str(), "ok") {
        return out;
    }
    let top: usize = if eval.moves.len() > PV_LINES {
        PV_LINES
    } else {
        eval.moves.len()
    };
    let ghost best = top_moves(eval.moves@);
    let mut i: usize = 0;
    assert(best.take(0) =~= Seq::empty());
    while i < top
        invariant
            i <= top,
            top == best.len(),
            top <= eval.moves.len(),
            best == top_moves(eval.moves@),
            request_views(out@) == requests(fen@, best.take(i as int)),
        decreases top - i,
    {
        let ghost before = request_views(out@);
        proof {
            let t = best.take(i + 1);
            assert(t.drop_last() =~= best.take(i as int));
            assert(t.last() == eval.moves@[i as int]);
        }
        match child_fen(fen, eval.moves[i].san.as_str()) {
            Some(f) => {
                let r = LineRequest { uci: eval.moves[i].uci.clone(), fen: f };
                out.push(r);
                assert(request_views(out@) =~= before.push((r.uci@, r.fen@)));
            },
            None => {},
        }
        i += 1;
    }
    assert(best.take(i as int) =~= best);
    out
}

/// A continuation as it is shown: no longer than it should be.
pub fn cap_line(uci: String, mut pv_san: Vec<String>) -> (l: MoveLine)
    ensures
        l.uci == uci,
        l.pv_san@ == (if pv_san@.len() > PV_MAX_PLIES {
            pv_san@.take(PV_MAX_PLIES as int)
        } else {
            pv_san@
        }),
{
    if pv_san.len() > PV_MAX_PLIES {
        pv_san.truncate(PV_MAX_PLIES);
        MoveLine { uci, pv_san }
    } else {
        MoveLine { uci, pv_san }
    }
}

// ── Lichess ──────────────────────────────────────────────────────────────────

/// A line of a Lichess evaluation. Scores are White's.
#[derive(Clone, Debug)]
pub struct LichessLine {
    pub eval_cp: Option<i32>,
    pub mate: Option<i32>,
    pub pv_uci: Vec<String>,
}

/// A Lichess evaluation.
#[derive(Clone, Debug)]
pub struct LichessEval {
    /// `"ok"`, `"unknown"` or `"offline"`.
    pub status: String,
    pub depth: i32,
    pub knodes: i64,
    pub lines: Vec<LichessLine>,
}

/// A line of an answer of Lichess, as far as it is there.
#[derive(Debug)]
pub struct LichessPv {
    pub cp: Option<i64>,
    pub mate: Option<i64>,
    pub moves: Option<String>,
}

pub open spec fn low(n: Option<i64>) -> Option<i32> {
    match n {
        Some(n) => Some(n as i32),
        None => None,
    }
}

pub struct LichessLineView {
    pub eval_cp: Option<i32>,
    pub mate: Option<i32>,
    pub pv_uci: Seq<Seq<char>>,
}

/// A line of an answer, read.
pub open spec fn line_of(p: LichessPv) -> LichessLineView {
    LichessLineView {
        eval_cp: low(p.cp),
        mate: low(p.mate),
        pv_uci: text::words(or_empty(p.moves)),
    }
}

/// The lines that begin with moves of their own: of lines with the same first move the
/// first counts, and a line without moves does not.
pub open spec fn distinct_lines(ps: Seq<LichessPv>) -> Seq<LichessLineView>
    decreases ps.len(),
{
    if ps.len() == 0 {
        Seq::empty()
    } else {
        let front = distinct_lines(ps.drop_last());
        let l = line_of(ps.last());
        if l.pv_uci.len() > 0 && !first_moves(front).contains(l.pv_uci[0]) {
            front.push(l)
        } else {
            front
        }
    }
}

pub open spec fn first_moves(ls: Seq<LichessLineView>) -> Seq<Seq<char>> {
    ls.map_values(|l: LichessLineView| l.pv_uci[0])
}

pub open spec fn lichess_views(v: Seq<LichessLine>) -> Seq<LichessLineView> {
    v.map_values(
        |l: LichessLine|
            LichessLineView {
                eval_cp: l.eval_cp,
                mate: l.mate,
                pv_uci: text::texts(l.pv_uci@),
            },
    )
}

fn low_of(n: Option<i64>) -> (r: Option<i32>)
    ensures
        r == low(n),
{
    match n {
        Some(n) => Some(n as i32),
        None => None,
    }
}

/// The evaluation that an answer of Lichess gives.
pub fn parse_lichess(pvs: &[LichessPv], depth: Option<i64>, knodes: Option<i64>) -> (e: LichessEval)
    ensures
        e.status@ == "ok"@,
        e.depth == (match depth {
            Some(d) => d as i32,
            None => 0,
        }),
        e.knodes == (match knodes {
            Some(k) => k,
            None => 0,
        }),
        lichess_views(e.lines@) == distinct_lines(pvs@),
{
    let mut lines: Vec<LichessLine> = Vec::new();
    let mut seen: Vec<String> = Vec::new();
    let mut i: usize = 0;
    proof {
        assert(pvs@.take(0) =~= Seq::empty());
        assert(lichess_views(lines@) =~= Seq::empty());
        assert(text::texts(seen@) =~= first_moves(Seq::empty()));
    }
    while i < pvs.len()
        invariant
            i <= pvs.len(),
            lichess_views(lines@) == distinct_lines(pvs@.take(i as int)),
            text::texts(seen@) == first_moves(distinct_lines(pvs@.take(i as int))),
        decreases pvs.len() - i,
    {
        let p: &LichessPv = &pvs[i];
        let ghost before = distinct_lines(pvs@.take(i as int));
        proof {
            let t = pvs@.take(i + 1);
            assert(t.drop_last() =~= pvs@.take(i as int));
            assert(t.last() == *p);
        }
        let moves: String = text_or_empty(&p.moves);
        let words: Vec<String> = split_words(&chars_of(moves.as_str()));
        assert(text::texts(words@) == line_of(*p).pv_uci);
        assert(words@.len() == text::texts(words@).len());
        if words.len() > 0 {
            assert(words@[0]@ == line_of(*p).pv_uci[0]);
            if !is_among(&seen, words[0].as_str()) {
                let first: String = words[0].clone();
                let ghost had = text::texts(seen@);
                seen.push(first);
                let l = LichessLine { eval_cp: low_of(p.cp), mate: low_of(p.mate), pv_uci: words };
                lines.push(l);
                assert(lichess_views(lines@) =~= before.push(line_of(*p)));
                assert(text::texts(seen@) =~= had.push(first@));
                assert(first_moves(before.push(line_of(*p))) =~= first_moves(before).push(
                    first@,
                ));
            }
        }
        i += 1;
    }
    assert(pvs@.take(i as int) =~= pvs@);
    LichessEval {
        status: "ok".to_owned(),
        depth: match depth {
            Some(d) => d as i32,
            None => 0,
        },
        knodes: match knodes {
            Some(k) => k,
            None => 0,
        },
        lines,
    }
}

/// What an answer of Lichess means.
#[derive(Clone, Copy, PartialEq, Eq, Structural, Debug)]
pub enum Reply {
    /// There is an evaluation.
    Known,
    /// There is none: a real answer, which may be kept.
    Unknown,
    /// No real answer: it must not be kept, or the position would seem unknown for a day.
    Offline,
}

/// What an answer means, from its HTTP status, `None` where there was no answer, and
/// whether its body could be read.
pub fn lichess_reply(status: Option<u16>, readable: bool) -> (r: Reply)
    ensures
        r == (match status {
            Some(s) => if s == 404 {
                Reply::Unknown
            } else if 200 <= s < 300 && readable {
                Reply::Known
            } else {
                Reply::Offline
            },
            None => Reply::Offline,
        }),
{
    match status {
        Some(s) => if s == 404 {
            Reply::Unknown
        } else if 200 <= s && s < 300 && readable {
            Reply::Known
        } else {
            Reply::Offline
        },
        None => Reply::Offline,
    }
}

/// What an answer of the chess database means. A position that it does not know is a real
/// answer too: its body says so.
pub fn chessdb_reply(status: Option<u16>, readable: bool) -> (r: Reply)
    ensures
        r == (match status {
            Some(s) => if 200 <= s < 300 && readable {
                Reply::Known
            } else {
                Reply::Offline
            },
            None => Reply::Offline,
        }),
{
    match status {
        Some(s) => if 200 <= s && s < 300 && readable {
            Reply::Known
        } else {
            Reply::Offline
        },
        None => Reply::Offline,
    }
}

/// Whether an answer may be kept: only real ones may.
pub fn may_keep(r: Reply) -> (b: bool)
    ensures
        b == (r != Reply::Offline),
{
    match r {
        Reply::Offline => false,
        _ => true,
    }
}

/// The evaluation of a position without one: `"unknown"` or `"offline"`.
pub fn no_lichess_eval(status: &str) -> (e: LichessEval)
    ensures
        e.status@ == status@,
        e.depth == 0,
        e.knodes == 0,
        e.lines@.len() == 0,
{
    LichessEval { status: status.to_owned(), depth: 0, knodes: 0, lines: Vec::new() }
}

/// Each line begins with a move of its own.
pub proof fn law_lines_begin_differently(ps: Seq<LichessPv>)
    ensures
        first_moves(distinct_lines(ps)).no_duplicates(),
        forall|i: int|
            0 <= i < distinct_lines(ps).len() ==> (#[trigger] distinct_lines(ps)[i]).pv_uci.len()
                > 0,
    decreases ps.len(),
{
    if ps.len() > 0 {
        law_lines_begin_differently(ps.drop_last());
        let front = distinct_lines(ps.drop_last());
        let l = line_of(ps.last());
        if l.pv_uci.len() > 0 && !first_moves(front).contains(l.pv_uci[0]) {
            assert(first_moves(front.push(l)) =~= first_moves(front).push(l.pv_uci[0]));
        }
    }
}

// ── Keeping answers ──────────────────────────────────────────────────────────

/// Answers by position, each with the time when it came, in seconds.
pub struct EvalCache<V> {
    pub entries: HashMap<i64, (u64, V)>,
}

/// Whether an answer is still good.
pub open spec fn is_fresh(came: u64, now: u64) -> bool {
    now < came || now - came < CACHE_TTL_SECS
}

impl<V> EvalCache<V> {
    pub fn new() -> (c: Self)
        ensures
            c.entries@ == Map::<i64, (u64, V)>::empty(),
    {
        EvalCache { entries: HashMap::new() }
    }

    /// The answer for a position, if there is one that is still good, and a new one is not
    /// asked for.
    pub fn get_fresh(&self, zobrist: i64, now: u64, refresh: bool) -> (r: Option<&V>)
        ensures
            if !refresh && self.entries@.contains_key(zobrist) && is_fresh(
                self.entries@[zobrist].0,
                now,
            ) {
                r == Some(&self.entries@[zobrist].1)
            } else {
                r is None
            },
    {
        if refresh {
            return None;
        }
        match self.entries.get(&zobrist) {
            Some(e) => if now < e.0 || now - e.0 < CACHE_TTL_SECS {
                Some(&e.1)
            } else {
                None
            },
            None => None,
        }
    }

    /// Keeps an answer. Where there are too many, all others go.
    pub fn keep(&mut self, zobrist: i64, now: u64, v: V)
        ensures
            final(self).entries@ == (if old(self).entries@.len() >= CACHE_CAP {
                Map::empty()
            } else {
                old(self).entries@
            }).insert(zobrist, (now, v)),
    {
        if self.entries.len() >= CACHE_CAP {
            self.entries.clear();
        }
        self.entries.insert(zobrist, (now, v));
    }

    /// Forgets the answer for a position.
    pub fn forget(&mut self, zobrist: i64)
        ensures
            final(self).entries@ == old(self).entries@.remove(zobrist),
    {
        self.entries.remove(&zobrist);
    }
}

/// What was kept is given again for as long as it is good.
pub proof fn law_kept_answers_come_back<V>(
    entries: Map<i64, (u64, V)>,
    zobrist: i64,
    came: u64,
    now: u64,
    v: V,
)
    requires
        came <= now < came + CACHE_TTL_SECS,
    ensures
        entries.insert(zobrist, (came, v)).contains_key(zobrist),
        entries.insert(zobrist, (came, v))[zobrist].1 == v,
        is_fresh(entries.insert(zobrist, (came, v))[zobrist].0, now),
{
}

/// How long to wait before the next request to a service, in milliseconds, so that the gap
/// to the last one is kept.
pub fn throttle_wait(elapsed_ms: u64, min_gap_ms: u64) -> (w: u64)
    ensures
        w == (if elapsed_ms < min_gap_ms {
            min_gap_ms - elapsed_ms
        } else {
            0
        }),
{
    if elapsed_ms < min_gap_ms {
        min_gap_ms - elapsed_ms
    } else {
        0
    }
}

// ── Signatures ───────────────────────────────────────────────────────────────

/// What a signature takes of a move, as numbers: the move, its score, its mate. The last
/// one is never 0.
pub open spec fn move_key(m: CloudMove) -> Seq<nat> {
    sorting::codes(m.uci@) + seq![
        0nat,
        (m.score_cp + 0x8000_0001) as nat,
        (match m.mate {
            Some(n) => (n + 0x8000_0002) as nat,
            None => 1,
        }),
    ]
}

pub open spec fn move_keys(ms: Seq<CloudMove>) -> Seq<Seq<nat>> {
    ms.map_values(|m: CloudMove| move_key(m))
}

/// Whether a list holds the keys in their order.
pub open spec fn is_sorted_keys(sorted: Seq<Seq<nat>>, keys: Seq<Seq<nat>>) -> bool {
    keys.len() <= usize::MAX && exists|p: Seq<usize>|
        #[trigger] sorting::is_arrangement(p, keys.len() as int) && sorting::in_key_order(keys, p)
            && sorted == keys_at(keys, p)
}

pub open spec fn keys_at(keys: Seq<Seq<nat>>, p: Seq<usize>) -> Seq<Seq<nat>> {
    p.map_values(|i: usize| keys[i as int])
}

/// A key as it is fed to the hasher: its numbers, and an end mark that no number is.
pub open spec fn fed_key(k: Seq<nat>) -> Seq<Seq<u8>>
    decreases k.len(),
{
    if k.len() == 0 {
        seq![seq![0xffu8]]
    } else {
        fed_key(k.drop_last()).push(vstd::bytes::spec_u64_to_le_bytes(k.last() as u64))
    }
}

pub open spec fn fed_keys(ks: Seq<Seq<nat>>) -> Seq<Seq<u8>>
    decreases ks.len(),
{
    if ks.len() == 0 {
        Seq::empty()
    } else {
        fed_keys(ks.drop_last()) + fed_key(ks.last())
    }
}

/// Whether a number is the signature of a position's moves: the hash of their keys in
/// order.
pub open spec fn is_signature(sig: u64, ms: Seq<CloudMove>) -> bool {
    exists|sorted: Seq<Seq<nat>>|
        #[trigger] is_sorted_keys(sorted, move_keys(ms)) && sig == DefaultHasher::spec_finish(
            fed_keys(sorted),
        )
}

fn key_of_move(m: &CloudMove) -> (k: Vec<u64>)
    ensures
        sorting::numbers(k@) == move_key(*m),
{
    let mut k: Vec<u64> = codes_of(m.uci.as_str());
    let ghost had = sorting::numbers(k@);
    let score: u64 = (m.score_cp as i64 + 0x8000_0001) as u64;
    let mate: u64 = match m.mate {
        Some(n) => (n as i64 + 0x8000_0002) as u64,
        None => 1,
    };
    k.push(0);
    k.push(score);
    k.push(mate);
    assert(sorting::numbers(k@) =~= had + seq![0nat, score as nat, mate as nat]);
    k
}

fn feed_key(h: &mut DefaultHasher, k: &Vec<u64>)
    ensures
        final(h)@ == old(h)@ + fed_key(sorting::numbers(k@)),
{
    let ghost start = h@;
    let ghost ns = sorting::numbers(k@);
    let mut mark: Vec<u8> = Vec::new();
    mark.push(0xff);
    assert(mark@ =~= seq![0xffu8]);
    h.write(&mark);
    let mut i: usize = 0;
    assert(ns.take(0) =~= Seq::empty());
    assert(h@ =~= start + fed_key(ns.take(0)));
    while i < k.len()
        invariant
            i <= k.len(),
            ns == sorting::numbers(k@),
            h@ == start + fed_key(ns.take(i as int)),
        decreases k.len() - i,
    {
        let ghost before = h@;
        let bytes: Vec<u8> = vstd::bytes::u64_to_le_bytes(k[i]);
        h.write(&bytes);
        i += 1;
        proof {
            let t = ns.take(i as int);
            assert(t.drop_last() =~= ns.take(i - 1));
            assert(t.last() == k@[i - 1] as nat);
            assert(h@ =~= start + fed_key(t));
        }
    }
    assert(ns.take(i as int) =~= ns);
}

/// A signature of a position's moves. It does not depend on the order in which they come,
/// and changes when the service revises an evaluation.
pub fn eval_signature(eval: &CloudEval) -> (sig: u64)
    ensures
        is_signature(sig, eval.moves@),
{
    let ms: &Vec<CloudMove> = &eval.moves;
    let ghost want = move_keys(ms@);
    let mut keys: Vec<Vec<u64>> = Vec::new();
    let mut i: usize = 0;
    while i < ms.len()
        invariant
            i <= ms.len(),
            keys@.len() == i,
            want == move_keys(ms@),
            forall|k: int| 0 <= k < i ==> sorting::numbers((#[trigger] keys@[k])@) == want[k],
        decreases ms.len() - i,
    {
        keys.push(key_of_move(&ms[i]));
        i += 1;
    }
    assert(sorting::key_numbers(keys@) =~= want);
    let places: Vec<usize> = sort_places(&keys);
    let ghost sorted = keys_at(want, places@);
    let mut h: DefaultHasher = DefaultHasher::new();
    let mut j: usize = 0;
    assert(sorted.take(0) =~= Seq::empty());
    while j < places.len()
        invariant
            j <= places.len(),
            sorting::key_numbers(keys@) == want,
            keys@.len() == want.len(),
            sorting::is_arrangement(places@, want.len() as int),
            sorted == keys_at(want, places@),
            h@ == fed_keys(sorted.take(j as int)),
        decreases places.len() - j,
    {
        let at: usize = places[j];
        let ghost before = h@;
        feed_key(&mut h, &keys[at]);
        j += 1;
        proof {
            let t = sorted.take(j as int);
            assert(t.drop_last() =~= sorted.take(j - 1));
            assert(t.last() == want[at as int]);
            assert(sorting::key_numbers(keys@)[at as int] == sorting::numbers(keys@[at as int]@));
        }
    }
    assert(sorted.take(j as int) =~= sorted);
    assert(is_sorted_keys(sorted, want));
    h.finish()
}

proof fn lemma_same_padded(a: Seq<nat>, b: Seq<nat>)
    requires
        !sorting::precedes(a, b),
        !sorting::precedes(b, a),
        a.len() > 0 ==> a.last() > 0,
        b.len() > 0 ==> b.last() > 0,
    ensures
        a == b,
{
    lemma_parts_equal(a, b, if a.len() > b.len() {
        a.len() as int
    } else {
        b.len() as int
    });
    if a.len() > b.len() {
        assert(sorting::part(a, a.len() - 1) == sorting::part(b, a.len() - 1));
    } else if b.len() > a.len() {
        assert(sorting::part(a, b.len() - 1) == sorting::part(b, b.len() - 1));
    }
    assert forall|i: int| 0 <= i < a.len() implies a[i] == b[i] by {
        assert(sorting::part(a, i) == sorting::part(b, i));
    }
    assert(a =~= b);
}

proof fn lemma_parts_equal(a: Seq<nat>, b: Seq<nat>, n: int)
    requires
        !sorting::precedes(a, b),
        !sorting::precedes(b, a),
        0 <= n,
    ensures
        forall|i: int| 0 <= i < n ==> #[trigger] sorting::part(a, i) == sorting::part(b, i),
    decreases n,
{
    if n > 0 {
        lemma_parts_equal(a, b, n - 1);
        if sorting::part(a, n - 1) < sorting::part(b, n - 1) {
            assert(sorting::lower_at(a, b, n - 1));
        } else if sorting::part(b, n - 1) < sorting::part(a, n - 1) {
            assert forall|k: int| 0 <= k < n - 1 implies #[trigger] sorting::part(b, k)
                == sorting::part(a, k) by {
                assert(sorting::part(a, k) == sorting::part(b, k));
            }
            assert(sorting::lower_at(b, a, n - 1));
        }
    }
}

/// Keys in their order are determined by which keys there are.
proof fn lemma_sorted_keys_unique(x: Seq<Seq<nat>>, y: Seq<Seq<nat>>)
    requires
        forall|i: int, j: int|
            0 <= i < j < x.len() ==> !sorting::precedes(#[trigger] x[j], #[trigger] x[i]),
        forall|i: int, j: int|
            0 <= i < j < y.len() ==> !sorting::precedes(#[trigger] y[j], #[trigger] y[i]),
        forall|i: int| 0 <= i < x.len() ==> (#[trigger] x[i]).len() > 0 && x[i].last() > 0,
        forall|i: int| 0 <= i < y.len() ==> (#[trigger] y[i]).len() > 0 && y[i].last() > 0,
        x.to_multiset() == y.to_multiset(),
    ensures
        x == y,
    decreases x.len(),
{
    broadcast use vstd::seq_lib::group_to_multiset_ensures;

    assert(x.len() == x.to_multiset().len());
    assert(y.len() == y.to_multiset().len());
    if x.len() > 0 {
        let a = x.last();
        let b = y.last();
        assert(x.contains(a)) by {
            assert(x[x.len() - 1] == a);
        }
        assert(y.contains(b)) by {
            assert(y[y.len() - 1] == b);
        }
        assert(y.to_multiset().count(a) > 0);
        assert(y.contains(a));
        assert(x.to_multiset().count(b) > 0);
        assert(x.contains(b));
        let i = choose|i: int| 0 <= i < y.len() && y[i] == a;
        let j = choose|j: int| 0 <= j < x.len() && x[j] == b;
        sorting::law_order_is_strict(a, a, a);
        sorting::law_order_is_strict(b, b, b);
        assert(!sorting::precedes(b, a)) by {
            if i < y.len() - 1 {
                assert(!sorting::precedes(y[y.len() - 1], y[i]));
            }
        }
        assert(!sorting::precedes(a, b)) by {
            if j < x.len() - 1 {
                assert(!sorting::precedes(x[x.len() - 1], x[j]));
            }
        }
        lemma_same_padded(a, b);
        let x2 = x.drop_last();
        let y2 = y.drop_last();
        assert(x =~= x2.push(a));
        assert(y =~= y2.push(b));
        assert(x2.to_multiset() =~= x.to_multiset().remove(a));
        assert(y2.to_multiset() =~= y.to_multiset().remove(a));
        assert forall|i: int, j: int| 0 <= i < j < x2.len() implies !sorting::precedes(
            #[trigger] x2[j],
            #[trigger] x2[i],
        ) by {
            assert(x2[i] == x[i] && x2[j] == x[j]);
        }
        assert forall|i: int, j: int| 0 <= i < j < y2.len() implies !sorting::precedes(
            #[trigger] y2[j],
            #[trigger] y2[i],
        ) by {
            assert(y2[i] == y[i] && y2[j] == y[j]);
        }
        lemma_sorted_keys_unique(x2, y2);
    } else {
        assert(x =~= y);
    }
}

/// A rearranged list holds what the list holds.
proof fn lemma_arrangement_keeps(keys: Seq<Seq<nat>>, p: Seq<usize>)
    requires
        sorting::is_arrangement(p, keys.len() as int),
        keys.len() <= usize::MAX,
    ensures
        keys_at(keys, p).to_multiset() == keys.to_multiset(),
    decreases keys.len(),
{
    broadcast use vstd::seq_lib::group_to_multiset_ensures;

    let out = keys_at(keys, p);
    if keys.len() == 0 {
        assert(out =~= keys);
    } else {
        let n = keys.len() as int;
        assert(p.contains((n - 1) as usize));
        let at = choose|at: int| 0 <= at < p.len() && p[at] == (n - 1) as usize;
        let q = p.remove(at);
        let front = keys.drop_last();
        assert forall|i: int| 0 <= i < q.len() implies (#[trigger] q[i]) < n - 1 by {
            let k = if i < at {
                i
            } else {
                i + 1
            };
            assert(q[i] == p[k]);
            assert(p[k] < n);
            assert(p[k] != p[at]);
        }
        assert(q.no_duplicates()) by {
            assert forall|i: int, j: int| 0 <= i < q.len() && 0 <= j < q.len() && i != j implies q[i]
                != q[j] by {
                let k = if i < at {
                    i
                } else {
                    i + 1
                };
                let l = if j < at {
                    j
                } else {
                    j + 1
                };
                assert(q[i] == p[k] && q[j] == p[l]);
            }
        }
        assert forall|v: int| 0 <= v < n - 1 implies #[trigger] q.contains(v as usize) by {
            assert(p.contains(v as usize));
            let k = choose|k: int| 0 <= k < p.len() && p[k] == v as usize;
            if k < at {
                assert(q[k] == v as usize);
            } else {
                assert(q[k - 1] == v as usize);
            }
        }
        lemma_arrangement_keeps(front, q);
        let out2 = keys_at(front, q);
        assert(out.remove(at) =~= out2) by {
            assert forall|i: int| 0 <= i < out2.len() implies out.remove(at)[i] == out2[i] by {
                let k = if i < at {
                    i
                } else {
                    i + 1
                };
                assert(out.remove(at)[i] == out[k]);
                assert(q[i] == p[k]);
                assert(q[i] < n - 1);
            }
        }
        assert(out[at] == keys.last());
        assert(out.to_multiset() =~= out2.to_multiset().insert(keys.last())) by {
            assert(out =~= out2.insert(at, keys.last()));
            vstd::seq_lib::to_multiset_insert(out2, at, keys.last());
        }
        assert(keys =~= front.push(keys.last()));
    }
}

/// The order in which the moves come does not matter for the signature.
pub proof fn law_signature_ignores_order(
    a: Seq<CloudMove>,
    b: Seq<CloudMove>,
    sig_a: u64,
    sig_b: u64,
)
    requires
        move_keys(a).to_multiset() == move_keys(b).to_multiset(),
        is_signature(sig_a, a),
        is_signature(sig_b, b),
    ensures
        sig_a == sig_b,
{
    let x = choose|x: Seq<Seq<nat>>|
        #[trigger] is_sorted_keys(x, move_keys(a)) && sig_a == DefaultHasher::spec_finish(
            fed_keys(x),
        );
    let y = choose|y: Seq<Seq<nat>>|
        #[trigger] is_sorted_keys(y, move_keys(b)) && sig_b == DefaultHasher::spec_finish(
            fed_keys(y),
        );
    lemma_sorted_keys(x, a);
    lemma_sorted_keys(y, b);
    lemma_sorted_keys_unique(x, y);
}

proof fn lemma_sorted_keys(x: Seq<Seq<nat>>, ms: Seq<CloudMove>)
    requires
        is_sorted_keys(x, move_keys(ms)),
    ensures
        forall|i: int, j: int|
            0 <= i < j < x.len() ==> !sorting::precedes(#[trigger] x[j], #[trigger] x[i]),
        forall|i: int| 0 <= i < x.len() ==> (#[trigger] x[i]).len() > 0 && x[i].last() > 0,
        x.to_multiset() == move_keys(ms).to_multiset(),
{
    let keys = move_keys(ms);
    let p = choose|p: Seq<usize>|
        #[trigger] sorting::is_arrangement(p, keys.len() as int) && sorting::in_key_order(keys, p)
            && x == keys_at(keys, p);
    lemma_arrangement_keeps(keys, p);
    assert forall|i: int, j: int| 0 <= i < j < x.len() implies !sorting::precedes(
        #[trigger] x[j],
        #[trigger] x[i],
    ) by {
        assert(sorting::goes_first(keys, p[i] as int, p[j] as int));
    }
    assert forall|i: int| 0 <= i < x.len() implies (#[trigger] x[i]).len() > 0 && x[i].last()
        > 0 by {
        assert(p[i] < keys.len());
        let m = ms[p[i] as int];
        assert(x[i] == move_key(m));
    }
}

// ── Watches ──────────────────────────────────────────────────────────────────

/// A position that is watched until the service revises its evaluations.
#[derive(Debug)]
pub struct Watch {
    pub zobrist: i64,
    pub fen: String,
    pub label: String,
    /// `"watching"` or `"updated"`.
    pub status: String,
    /// From the start of the watch to the change, in seconds.
    pub elapsed_secs: Option<u64>,
    /// When the watch began, in seconds.
    pub started: u64,
    /// The signature at the beginning.
    pub baseline_sig: u64,
}

impl Clone for Watch {
    fn clone(&self) -> (r: Self)
        ensures
            r == *self,
    {
        Watch {
            zobrist: self.zobrist,
            fen: self.fen.clone(),
            label: self.label.clone(),
            status: self.status.clone(),
            elapsed_secs: self.elapsed_secs,
            started: self.started,
            baseline_sig: self.baseline_sig,
        }
    }
}

/// All watches, by position.
pub struct WatchBoard {
    pub watches: Vec<Watch>,
}

/// In the order of the positions, each once.
pub open spec fn watches_ok(ws: Seq<Watch>) -> bool {
    forall|i: int, j: int|
        0 <= i < j < ws.len() ==> (#[trigger] ws[i]).zobrist < (#[trigger] ws[j]).zobrist
}

/// The watches by position.
pub open spec fn watch_map(ws: Seq<Watch>) -> Map<i64, Watch>
    decreases ws.len(),
{
    if ws.len() == 0 {
        Map::empty()
    } else {
        watch_map(ws.drop_last()).insert(ws.last().zobrist, ws.last())
    }
}

proof fn lemma_watch_map(ws: Seq<Watch>)
    requires
        watches_ok(ws),
    ensures
        forall|z: i64| #[trigger]
            watch_map(ws).contains_key(z) <==> exists|i: int|
                0 <= i < ws.len() && (#[trigger] ws[i]).zobrist == z,
        forall|i: int|
            0 <= i < ws.len() ==> watch_map(ws).contains_key((#[trigger] ws[i]).zobrist)
                && watch_map(ws)[ws[i].zobrist] == ws[i],
    decreases ws.len(),
{
    if ws.len() > 0 {
        let d = ws.drop_last();
        assert(watches_ok(d));
        lemma_watch_map(d);
        assert forall|z: i64| #[trigger]
            watch_map(ws).contains_key(z) <==> exists|i: int|
                0 <= i < ws.len() && (#[trigger] ws[i]).zobrist == z by {
            if watch_map(ws).contains_key(z) {
                if z == ws.last().zobrist {
                    assert(ws[ws.len() - 1].zobrist == z);
                } else {
                    assert(watch_map(d).contains_key(z));
                    let i = choose|i: int| 0 <= i < d.len() && (#[trigger] d[i]).zobrist == z;
                    assert(ws[i].zobrist == z);
                }
            }
            if exists|i: int| 0 <= i < ws.len() && (#[trigger] ws[i]).zobrist == z {
                let i = choose|i: int| 0 <= i < ws.len() && (#[trigger] ws[i]).zobrist == z;
                if i < d.len() {
                    assert(d[i].zobrist == z);
                    assert(watch_map(d).contains_key(z));
                }
            }
        }
        assert forall|i: int| 0 <= i < ws.len() implies watch_map(ws).contains_key(
            (#[trigger] ws[i]).zobrist,
        ) && watch_map(ws)[ws[i].zobrist] == ws[i] by {
            if i < d.len() {
                assert(d[i] == ws[i]);
                assert(ws[i].zobrist < ws[ws.len() - 1].zobrist);
            }
        }
    }
}

proof fn lemma_watch_map_is(ws: Seq<Watch>, m: Map<i64, Watch>)
    requires
        watches_ok(ws),
        forall|z: i64| #[trigger]
            m.contains_key(z) <==> exists|i: int|
                0 <= i < ws.len() && (#[trigger] ws[i]).zobrist == z,
        forall|i: int| 0 <= i < ws.len() ==> m[(#[trigger] ws[i]).zobrist] == ws[i],
    ensures
        watch_map(ws) == m,
{
    lemma_watch_map(ws);
    assert forall|z: i64| watch_map(ws).contains_key(z) implies #[trigger] watch_map(ws)[z]
        == m[z] by {
        let i = choose|i: int| 0 <= i < ws.len() && (#[trigger] ws[i]).zobrist == z;
        assert(ws[i].zobrist == z);
    }
    assert(watch_map(ws) =~= m);
}

impl WatchBoard {
    pub open spec fn wf(&self) -> bool {
        watches_ok(self.watches@)
    }

    /// The watches by position.
    pub open spec fn by_position(&self) -> Map<i64, Watch> {
        watch_map(self.watches@)
    }

    pub fn new() -> (b: Self)
        ensures
            b.wf(),
            b.by_position() == Map::<i64, Watch>::empty(),
    {
        WatchBoard { watches: Vec::new() }
    }

    /// Where a position stands, or would.
    fn place(&self, zobrist: i64) -> (p: usize)
        requires
            self.wf(),
        ensures
            p <= self.watches@.len(),
            forall|k: int| 0 <= k < p ==> (#[trigger] self.watches@[k]).zobrist < zobrist,
            forall|k: int|
                p <= k < self.watches@.len() ==> (#[trigger] self.watches@[k]).zobrist >= zobrist,
    {
        let mut p: usize = 0;
        while p < self.watches.len() && self.watches[p].zobrist < zobrist
            invariant
                p <= self.watches@.len(),
                forall|k: int| 0 <= k < p ==> (#[trigger] self.watches@[k]).zobrist < zobrist,
            decreases self.watches.len() - p,
        {
            p += 1;
        }
        proof {
            if p < self.watches@.len() {
                assert forall|k: int| p <= k < self.watches@.len() implies (
                #[trigger] self.watches@[k]).zobrist >= zobrist by {
                    if k > p {
                        assert(self.watches@[p as int].zobrist < self.watches@[k].zobrist);
                    }
                }
            }
        }
        p
    }

    /// Begins to watch a position, or begins anew, with the evaluation that it has now.
    pub fn add_watch(
        &mut self,
        zobrist: i64,
        fen: &str,
        label: &str,
        now: u64,
        baseline: &CloudEval,
    ) -> (w: Watch)
        requires
            old(self).wf(),
        ensures
            final(self).wf(),
            w.zobrist == zobrist,
            w.fen@ == fen@,
            w.label@ == label@,
            w.status@ == "watching"@,
            w.elapsed_secs is None,
            w.started == now,
            is_signature(w.baseline_sig, baseline.moves@),
            final(self).by_position() == old(self).by_position().insert(zobrist, w),
    {
        let w = Watch {
            zobrist,
            fen: fen.to_owned(),
            label: label.to_owned(),
            status: "watching".to_owned(),
            elapsed_secs: None,
            started: now,
            baseline_sig: eval_signature(baseline),
        };
        self.put(w.clone());
        w
    }

    #[verifier::spinoff_prover]
    #[verifier::rlimit(60)]
    fn put(&mut self, w: Watch)
        requires
            old(self).wf(),
        ensures
            final(self).wf(),
            final(self).by_position() == old(self).by_position().insert(w.zobrist, w),
    {
        let ghost before = self.watches@;
        proof {
            lemma_watch_map(before);
        }
        let p: usize = self.place(w.zobrist);
        let ghost m = watch_map(before).insert(w.zobrist, w);
        if p < self.watches.len() && self.watches[p].zobrist == w.zobrist {
            self.watches.set(p, w);
            let ghost after = self.watches@;
            proof {
                assert(after =~= before.update(p as int, w));
                assert forall|i: int, j: int| 0 <= i < j < after.len() implies (
                #[trigger] after[i]).zobrist < (#[trigger] after[j]).zobrist by {
                    assert(before[i].zobrist < before[j].zobrist);
                }
                assert forall|z: i64| #[trigger]
                    m.contains_key(z) <==> exists|i: int|
                        0 <= i < after.len() && (#[trigger] after[i]).zobrist == z by {
                    if m.contains_key(z) {
                        if z == w.zobrist {
                            assert(after[p as int].zobrist == z);
                        } else {
                            let i = choose|i: int|
                                0 <= i < before.len() && (#[trigger] before[i]).zobrist == z;
                            assert(after[i].zobrist == z);
                        }
                    }
                    if exists|i: int| 0 <= i < after.len() && (#[trigger] after[i]).zobrist == z {
                        let i = choose|i: int|
                            0 <= i < after.len() && (#[trigger] after[i]).zobrist == z;
                        if i != p {
                            assert(before[i].zobrist == z);
                        }
                    }
                }
                assert forall|i: int| 0 <= i < after.len() implies m[(
                #[trigger] after[i]).zobrist] == after[i] by {
                    if i != p {
                        assert(after[i] == before[i]);
                        if i < p {
                            assert(before[i].zobrist < before[p as int].zobrist);
                        } else {
                            assert(before[p as int].zobrist < before[i].zobrist);
                        }
                    }
                }
                lemma_watch_map_is(after, m);
            }
        } else {
            self.watches.insert(p, w);
            let ghost after = self.watches@;
            proof {
                assert(after =~= before.insert(p as int, w));
                assert forall|i: int, j: int| 0 <= i < j < after.len() implies (
                #[trigger] after[i]).zobrist < (#[trigger] after[j]).zobrist by {
                    let i2 = if i < p {
                        i
                    } else {
                        i - 1
                    };
                    let j2 = if j < p {
                        j
                    } else {
                        j - 1
                    };
                    if i == p {
                        assert(after[j] == before[j2]);
                        assert(before[p as int].zobrist != w.zobrist);
                        if j2 > p {
                            assert(before[p as int].zobrist < before[j2].zobrist);
                        }
                    } else if j == p {
                        assert(after[i] == before[i2]);
                    } else {
                        assert(after[i] == before[i2] && after[j] == before[j2]);
                        assert(before[i2].zobrist < before[j2].zobrist);
                    }
                }
                assert forall|z: i64| #[trigger]
                    m.contains_key(z) <==> exists|i: int|
                        0 <= i < after.len() && (#[trigger] after[i]).zobrist == z by {
                    if m.contains_key(z) {
                        if z == w.zobrist {
                            assert(after[p as int].zobrist == z);
                        } else {
                            let i = choose|i: int|
                                0 <= i < before.len() && (#[trigger] before[i]).zobrist == z;
                            if i < p {
                                assert(after[i].zobrist == z);
                            } else {
                                assert(after[i + 1].zobrist == z);
                            }
                        }
                    }
                    if exists|i: int| 0 <= i < after.len() && (#[trigger] after[i]).zobrist == z {
                        let i = choose|i: int|
                            0 <= i < after.len() && (#[trigger] after[i]).zobrist == z;
                        if i < p {
                            assert(before[i].zobrist == z);
                        } else if i > p {
                            assert(before[i - 1].zobrist == z);
                        }
                    }
                }
                assert forall|i: int| 0 <= i < after.len() implies m[(
                #[trigger] after[i]).zobrist] == after[i] by {
                    if i < p {
                        assert(after[i] == before[i]);
                        assert(after[i].zobrist < after[p as int].zobrist);
                    } else if i > p {
                        assert(after[i] == before[i - 1]);
                        assert(after[p as int].zobrist < after[i].zobrist);
                    }
                }
                lemma_watch_map_is(after, m);
            }
        }
    }

    /// The positions that are still waited for.
    pub fn pending(&self) -> (out: Vec<(i64, String)>)
        ensures
            pending_views(out@) == waiting(self.watches@),
    {
        let mut out: Vec<(i64, String)> = Vec::new();
        let mut i: usize = 0;
        assert(self.watches@.take(0) =~= Seq::empty());
        assert(pending_views(out@) =~= Seq::empty());
        while i < self.watches.len()
            invariant
                i <= self.watches@.len(),
                pending_views(out@) == waiting(self.watches@.take(i as int)),
            decreases self.watches.len() - i,
        {
            let ghost before = pending_views(out@);
            proof {
                let t = self.watches@.take(i + 1);
                assert(t.drop_last() =~= self.watches@.take(i as int));
                assert(t.last() == self.watches@[i as int]);
            }
            if same(self.watches[i].status.as_str(), "watching") {
                out.push((self.watches[i].zobrist, self.watches[i].fen.clone()));
                assert(pending_views(out@) =~= before.push(
                    (self.watches@[i as int].zobrist, self.watches@[i as int].fen@),
                ));
            }
            i += 1;
        }
        assert(self.watches@.take(i as int) =~= self.watches@);
        out
    }

    /// Takes a new evaluation of a watched position. Only one with moves can change
    /// anything; where its signature differs from the first one, the watch is over.
    pub fn take_eval(&mut self, zobrist: i64, eval: &CloudEval, now: u64)
        requires
            old(self).wf(),
        ensures
            final(self).wf(),
            final(self).by_position() == after_eval(
                old(self).by_position(),
                zobrist,
                final(self).by_position(),
            ),
            old(self).by_position().contains_key(zobrist) ==> exists|sig: u64| #[trigger]
                is_signature(sig, eval.moves@) && is_updated(
                    old(self).by_position()[zobrist],
                    final(self).by_position()[zobrist],
                    eval.status@ == "ok"@ && eval.moves@.len() > 0,
                    sig,
                    now,
                ),
    {
        let ghost before = self.watches@;
        proof {
            lemma_watch_map(before);
        }
        let p: usize = self.place(zobrist);
        let here: bool = p < self.watches.len() && self.watches[p].zobrist == zobrist;
        proof {
            if here {
                assert(before[p as int].zobrist == zobrist);
            } else if watch_map(before).contains_key(zobrist) {
                let i = choose|i: int|
                    0 <= i < before.len() && (#[trigger] before[i]).zobrist == zobrist;
                if i > p {
                    assert(before[p as int].zobrist < before[i].zobrist);
                }
            }
        }
        let sig: u64 = eval_signature(eval);
        if !same(eval.status.as_str(), "ok") || eval.moves.len() == 0 || !here {
            return ;
        }
        if sig != self.watches[p].baseline_sig && !same(
            self.watches[p].status.as_str(),
            "updated",
        ) {
            let elapsed: u64 = if now > self.watches[p].started {
                now - self.watches[p].started
            } else {
                0
            };
            let mut w: Watch = self.watches[p].clone();
            w.status = "updated".to_owned();
            w.elapsed_secs = Some(elapsed);
            self.put(w);
        }
    }
}

/// How long a watch has been on.
pub open spec fn seconds_since(started: u64, now: u64) -> u64 {
    if now > started {
        (now - started) as u64
    } else {
        0
    }
}

/// What a new evaluation makes of a watch.
pub open spec fn is_updated(old: Watch, new: Watch, real_eval: bool, sig: u64, now: u64) -> bool {
    if real_eval && sig != old.baseline_sig && old.status@ != "updated"@ {
        &&& new.status@ == "updated"@
        &&& new.elapsed_secs == Some(seconds_since(old.started, now))
        &&& new.zobrist == old.zobrist
        &&& new.fen == old.fen
        &&& new.label == old.label
        &&& new.started == old.started
        &&& new.baseline_sig == old.baseline_sig
    } else {
        new == old
    }
}

/// A watch is not over where the service gives the evaluations of its beginning again, in
/// whatever order.
pub proof fn law_same_evaluations_change_nothing(
    old: Watch,
    new: Watch,
    first: Seq<CloudMove>,
    again: Seq<CloudMove>,
    sig: u64,
    now: u64,
)
    requires
        is_signature(old.baseline_sig, first),
        is_signature(sig, again),
        move_keys(first).to_multiset() == move_keys(again).to_multiset(),
        is_updated(old, new, true, sig, now),
    ensures
        new == old,
{
    law_signature_ignores_order(first, again, old.baseline_sig, sig);
}

/// All other watches stay as they are.
pub open spec fn after_eval(
    old: Map<i64, Watch>,
    zobrist: i64,
    new: Map<i64, Watch>,
) -> Map<i64, Watch> {
    if old.contains_key(zobrist) {
        old.insert(zobrist, new[zobrist])
    } else {
        old
    }
}

pub open spec fn pending_views(v: Seq<(i64, String)>) -> Seq<(i64, Seq<char>)> {
    v.map_values(|p: (i64, String)| (p.0, p.1@))
}

pub open spec fn waiting(ws: Seq<Watch>) -> Seq<(i64, Seq<char>)>
    decreases ws.len(),
{
    if ws.len() == 0 {
        Seq::empty()
    } else {
        let front = waiting(ws.drop_last());
        if ws.last().status@ == "watching"@ {
            front.push((ws.last().zobrist, ws.last().fen@))
        } else {
            front
        }
    }
}

/// All watches, in the order of their positions.
pub fn list_watches(board: &WatchBoard) -> (out: Vec<Watch>)
    requires
        board.wf(),
    ensures
        out@ == board.watches@,
        watches_ok(out@),
        watch_map(out@) == board.by_position(),
{
    let mut out: Vec<Watch> = Vec::new();
    let mut i: usize = 0;
    while i < board.watches.len()
        invariant
            i <= board.watches@.len(),
            out@ == board.watches@.take(i as int),
        decreases board.watches.len() - i,
    {
        out.push(board.watches[i].clone());
        i += 1;
        assert(out@ =~= board.watches@.take(i as int));
    }
    assert(out@ =~= board.watches@);
    out
}

/// Removes a watch, if there is one.
pub fn remove_watch(board: &mut WatchBoard, zobrist: i64)
    requires
        old(board).wf(),
    ensures
        final(board).wf(),
        final(board).by_position() == old(board).by_position().remove(zobrist),
{
    let ghost before = board.watches@;
    proof {
        lemma_watch_map(before);
    }
    let p: usize = board.place(zobrist);
    let ghost m = watch_map(before).remove(zobrist);
    if p < board.watches.len() && board.watches[p].zobrist == zobrist {
        board.watches.remove(p);
        let ghost after = board.watches@;
        proof {
            assert(after =~= before.remove(p as int));
            assert forall|i: int, j: int| 0 <= i < j < after.len() implies (
            #[trigger] after[i]).zobrist < (#[trigger] after[j]).zobrist by {
                let i2 = if i < p {
                    i
                } else {
                    i + 1
                };
                let j2 = if j < p {
                    j
                } else {
                    j + 1
                };
                assert(after[i] == before[i2] && after[j] == before[j2]);
                assert(before[i2].zobrist < before[j2].zobrist);
            }
            assert forall|z: i64| #[trigger]
                m.contains_key(z) <==> exists|i: int|
                    0 <= i < after.len() && (#[trigger] after[i]).zobrist == z by {
                if m.contains_key(z) {
                    let i = choose|i: int|
                        0 <= i < before.len() && (#[trigger] before[i]).zobrist == z;
                    assert(i != p);
                    if i < p {
                        assert(after[i].zobrist == z);
                    } else {
                        assert(after[i - 1].zobrist == z);
                    }
                }
                if exists|i: int| 0 <= i < after.len() && (#[trigger] after[i]).zobrist == z {
                    let i = choose|i: int|
                        0 <= i < after.len() && (#[trigger] after[i]).zobrist == z;
                    let i2 = if i < p {
                        i
                    } else {
                        i + 1
                    };
                    assert(after[i] == before[i2]);
                    assert(before[i2].zobrist == z);
                    if i2 < p {
                        assert(before[i2].zobrist < before[p as int].zobrist);
                    } else {
                        assert(before[p as int].zobrist < before[i2].zobrist);
                    }
                }
            }
            assert forall|i: int| 0 <= i < after.len() implies m[(#[trigger] after[i]).zobrist]
                == after[i] by {
                let i2 = if i < p {
                    i
                } else {
                    i + 1
                };
                assert(after[i] == before[i2]);
                if i2 < p {
                    assert(before[i2].zobrist < before[p as int].zobrist);
                } else {
                    assert(before[p as int].zobrist < before[i2].zobrist);
                }
            }
            lemma_watch_map_is(after, m);
        }
    } else {
        proof {
            if watch_map(before).contains_key(zobrist) {
                let i = choose|i: int|
                    0 <= i < before.len() && (#[trigger] before[i]).zobrist == zobrist;
                if i > p {
                    assert(before[p as int].zobrist < before[i].zobrist);
                }
            }
            assert(m =~= watch_map(before));
        }
    }
}

// ── Laws of evaluations ──────────────────────────────────────────────────────

/// Each line of an evaluation comes from a line of the answer, with its moves and with its
/// scores: a score that the answer gives is there, and one that it does not give is not.
pub proof fn law_lines_come_from_the_answer(ps: Seq<LichessPv>, k: int) -> (j: int)
    requires
        0 <= k < distinct_lines(ps).len(),
    ensures
        0 <= j < ps.len(),
        ps[j].moves is Some ==> distinct_lines(ps)[k].pv_uci == text::words(ps[j].moves->0@),
        distinct_lines(ps)[k].eval_cp is Some <==> ps[j].cp is Some,
        distinct_lines(ps)[k].mate is Some <==> ps[j].mate is Some,
        ps[j].cp is Some && i32::MIN <= ps[j].cp->0 <= i32::MAX ==> distinct_lines(ps)[k].eval_cp->0
            == ps[j].cp->0,
        ps[j].mate is Some && i32::MIN <= ps[j].mate->0 <= i32::MAX ==> distinct_lines(
            ps,
        )[k].mate->0 == ps[j].mate->0,
        ps[j].moves is Some,
    decreases ps.len(),
{
    let front = ps.drop_last();
    let d = distinct_lines(front);
    let l = line_of(ps.last());
    reveal_strlit("");
    text::lemma_words_step(Seq::empty());
    if k < d.len() {
        assert(distinct_lines(ps)[k] == d[k]);
        let j = law_lines_come_from_the_answer(front, k);
        assert(front[j] == ps[j]);
        j
    } else {
        assert(distinct_lines(ps)[k] == l);
        assert(""@ =~= Seq::empty());
        ps.len() - 1
    }
}

/// Every line of an answer that has moves is there, or another line that begins with the same
/// move is; the first of an answer is always there.
pub proof fn law_no_first_move_is_lost(ps: Seq<LichessPv>, j: int)
    requires
        0 <= j < ps.len(),
        ps[j].moves is Some,
        text::words(ps[j].moves->0@).len() > 0,
    ensures
        first_moves(distinct_lines(ps)).contains(text::words(ps[j].moves->0@)[0]),
        j == 0 ==> distinct_lines(ps)[0].pv_uci == text::words(ps[0].moves->0@),
    decreases ps.len(),
{
    let front = ps.drop_last();
    let d = distinct_lines(front);
    let l = line_of(ps.last());
    let m = text::words(ps[j].moves->0@)[0];
    let all = distinct_lines(ps);
    if j < front.len() {
        law_no_first_move_is_lost(front, j);
        assert(front[j] == ps[j]);
        let i = first_moves(d).index_of(m);
        assert(all[i] == d[i]);
        assert(first_moves(all)[i] == first_moves(d)[i]);
        assert(d.len() > 0);
    } else if first_moves(d).contains(m) {
        assert(all == d);
        if j == 0 {
            assert(d.len() == 0);
        }
    } else {
        assert(all == d.push(l));
        assert(first_moves(all)[d.len() as int] == m);
        if j == 0 {
            assert(d.len() == 0);
        }
    }
}

/// Lines with first moves of their own are all kept, in their order.
pub proof fn law_distinct_lines_are_all_kept(ps: Seq<LichessPv>, k: int)
    requires
        forall|i: int|
            0 <= i < ps.len() ==> (#[trigger] ps[i]).moves is Some && text::words(
                ps[i].moves->0@,
            ).len() > 0,
        forall|i: int, j: int|
            0 <= i < j < ps.len() ==> text::words((#[trigger] ps[i]).moves->0@)[0] != text::words(
                (#[trigger] ps[j]).moves->0@,
            )[0],
        0 <= k < ps.len(),
    ensures
        distinct_lines(ps).len() == ps.len(),
        distinct_lines(ps)[k].pv_uci == text::words(ps[k].moves->0@),
        distinct_lines(ps)[k].eval_cp is Some <==> ps[k].cp is Some,
        distinct_lines(ps)[k].mate is Some <==> ps[k].mate is Some,
        ps[k].cp is Some && i32::MIN <= ps[k].cp->0 <= i32::MAX ==> distinct_lines(ps)[k].eval_cp->0
            == ps[k].cp->0,
        ps[k].mate is Some && i32::MIN <= ps[k].mate->0 <= i32::MAX ==> distinct_lines(
            ps,
        )[k].mate->0 == ps[k].mate->0,
{
    lemma_all_kept(ps);
}

proof fn lemma_all_kept(ps: Seq<LichessPv>)
    requires
        forall|i: int|
            0 <= i < ps.len() ==> (#[trigger] ps[i]).moves is Some && text::words(
                ps[i].moves->0@,
            ).len() > 0,
        forall|i: int, j: int|
            0 <= i < j < ps.len() ==> text::words((#[trigger] ps[i]).moves->0@)[0] != text::words(
                (#[trigger] ps[j]).moves->0@,
            )[0],
    ensures
        distinct_lines(ps).len() == ps.len(),
        forall|i: int|
            0 <= i < ps.len() ==> #[trigger] distinct_lines(ps)[i] == line_of(ps[i]),
    decreases ps.len(),
{
    if ps.len() > 0 {
        let front = ps.drop_last();
        assert forall|i: int| 0 <= i < front.len() implies (#[trigger] front[i]).moves is Some
            && text::words(front[i].moves->0@).len() > 0 by {
            assert(front[i] == ps[i]);
        }
        assert forall|i: int, j: int| 0 <= i < j < front.len() implies text::words(
            (#[trigger] front[i]).moves->0@,
        )[0] != text::words((#[trigger] front[j]).moves->0@)[0] by {
            assert(front[i] == ps[i] && front[j] == ps[j]);
        }
        lemma_all_kept(front);
        let d = distinct_lines(front);
        let l = line_of(ps.last());
        assert(ps[ps.len() - 1].moves is Some);
        if first_moves(d).contains(l.pv_uci[0]) {
            let i = first_moves(d).index_of(l.pv_uci[0]);
            assert(d[i] == line_of(front[i]));
            assert(front[i] == ps[i]);
            assert(text::words(ps[i].moves->0@)[0] != text::words(ps[ps.len() - 1].moves->0@)[0]);
        }
        assert(distinct_lines(ps) == d.push(l));
    }
}

/// A mate in a note is read with its sign: won for the side to move, or lost.
pub proof fn law_mates_read_back(before: Seq<char>, n: nat)
    requires
        !before.contains('('),
        1 <= n <= 0x7fff_ffff,
    ensures
        mate_in(before + "(W-"@ + text::dec(n) + ")"@) == Some(n as i32),
        mate_in(before + "(L-"@ + text::dec(n) + ")"@) == Some((-(n as int)) as i32),
{
    lemma_mate(before, 'W', n);
    lemma_mate(before, 'L', n);
    reveal_strlit("(W-");
    reveal_strlit("(L-");
    reveal_strlit(")");
    assert(before + "(W-"@ + text::dec(n) + ")"@ =~= before + seq!['('] + (seq!['W', '-']
        + text::dec(n) + seq![')']));
    assert(before + "(L-"@ + text::dec(n) + ")"@ =~= before + seq!['('] + (seq!['L', '-']
        + text::dec(n) + seq![')']));
}

proof fn lemma_mate(before: Seq<char>, side: char, n: nat)
    requires
        !before.contains('('),
        1 <= n <= 0x7fff_ffff,
        side == 'W' || side == 'L',
    ensures
        mate_in(before + seq!['('] + (seq![side, '-'] + text::dec(n) + seq![')'])) == Some(
            if side == 'W' {
                n as i32
            } else {
                (-(n as int)) as i32
            },
        ),
{
    reveal_strlit("W");
    reveal_strlit("L");
    let d = text::dec(n);
    text::lemma_dec_digits(n);
    text::law_decimal_is_one_word(n);
    let inside = seq![side, '-'] + d;
    let piece = inside + seq![')'];
    let note = before + seq!['('] + piece;
    assert forall|i: int| 0 <= i < piece.len() implies #[trigger] piece[i] != '(' by {
        if 2 <= i < inside.len() {
            assert(text::is_digit(d[i - 2]));
        }
    }
    text::law_joined_pieces_come_apart(seq![before, piece], '(');
    assert(text::join(seq![before, piece], seq!['(']) =~= note) by {
        assert(seq![before, piece].drop_last() =~= seq![before]);
        assert(text::join(seq![before], seq!['(']) == before);
    }
    let pieces = text::split_on(note, '(');
    assert(pieces[1] == piece);
    assert(text::is_digit(d[d.len() - 1]));
    assert(inside.last() == d[d.len() - 1]);
    assert(piece.drop_last() =~= inside);
    assert(text::cut_end(inside, text::is_char(')')) == inside);
    assert(text::trim_end_matches(piece, ')') == inside);
    assert forall|i: int| 0 <= i < 1 implies text::not_char('-')(#[trigger] inside[i]) by {}
    text::lemma_lead_is(inside, text::not_char('-'), 1);
    assert(inside.skip(2) =~= d);
    assert(inside.take(1) =~= seq![side]);
    text::law_trim_leaves_the_middle(Seq::empty(), seq![side], Seq::empty());
    assert(Seq::<char>::empty() + seq![side] + Seq::<char>::empty() =~= seq![side]);
    text::law_signed_decimal_reads_back(n as int, 0x8000_0000, 0x7fff_ffff);
    assert(text::signed_dec(n as int) == d);
    assert("W"@ =~= seq!['W']);
    assert("L"@ =~= seq!['L']);
    assert("W"@[0] == 'W' && "L"@[0] == 'L');
}

/// A move of an answer keeps its notation, its score and its rank, as far as they fit.
pub proof fn law_moves_keep_what_the_answer_says(c: CloudMove, m: QueryMove)
    requires
        is_complete(m),
        agrees(c, m),
    ensures
        c.san@ == m.san->0@,
        m.uci is Some ==> c.uci@ == m.uci->0@,
        i32::MIN <= m.score->0 <= i32::MAX ==> c.score_cp == m.score->0,
        m.rank is Some && i32::MIN <= m.rank->0 <= i32::MAX ==> c.rank == m.rank->0,
        m.rank is None ==> c.rank == 0,
        m.note is Some ==> c.note@ == m.note->0@,
        m.winrate is Some ==> c.winrate is Some && c.winrate->0@ == m.winrate->0@,
        m.winrate is None ==> c.winrate is None,
{
}

/// Moves without a name or a score are left out, and no others.
pub proof fn law_incomplete_moves_are_left_out(ms: Seq<QueryMove>, m: QueryMove)
    ensures
        ms.filter(complete_moves()).contains(m) <==> ms.contains(m) && m.san is Some && m.score
            is Some,
{
    broadcast use vstd::seq_lib::group_filter_ensures;

    let kept = ms.filter(complete_moves());
    if ms.contains(m) && is_complete(m) {
        let i = ms.index_of(m);
        assert(complete_moves()(ms[i]));
        assert(kept.contains(ms[i]));
    }
    if kept.contains(m) {
        ms.lemma_filter_contains_rev(complete_moves(), m);
        let i = kept.index_of(m);
        assert(complete_moves()(kept[i]));
    }
}

/// What is asked for is one of the first moves, and leads to the position behind it.
pub proof fn law_requests_are_for_moves(fen: Seq<char>, ms: Seq<CloudMove>, i: int) -> (j: int)
    requires
        0 <= i < requests(fen, ms).len(),
    ensures
        0 <= j < ms.len(),
        requests(fen, ms)[i].0 == ms[j].uci@,
        child_of(fen, ms[j].san@) == Some(requests(fen, ms)[i].1),
    decreases ms.len(),
{
    let front = requests(fen, ms.drop_last());
    if i < front.len() {
        let j = law_requests_are_for_moves(fen, ms.drop_last(), i);
        assert(ms.drop_last()[j] == ms[j]);
        assert(requests(fen, ms)[i] == front[i]);
        j
    } else {
        ms.len() - 1
    }
}

/// An answer is good for a day, and one from the future is good.
pub proof fn law_answers_last_a_day(came: u64, now: u64)
    ensures
        is_fresh(came, came),
        now < came ==> is_fresh(came, now),
        now >= came + 86400 ==> !is_fresh(came, now),
        came <= now < came + 86400 ==> is_fresh(came, now),
{
}

/// The positions that wait for an evaluation are those that are watched.
pub proof fn law_watched_positions_wait(ws: Seq<Watch>, z: i64, fen: Seq<char>)
    ensures
        waiting(ws).contains((z, fen)) <==> exists|i: int|
            0 <= i < ws.len() && (#[trigger] ws[i]).zobrist == z && ws[i].fen@ == fen
                && ws[i].status@ == "watching"@,
    decreases ws.len(),
{
    if ws.len() > 0 {
        let front = ws.drop_last();
        law_watched_positions_wait(front, z, fen);
        let f = waiting(front);
        let all = waiting(ws);
        let last = ws.last();
        if all.contains((z, fen)) {
            let i = all.index_of((z, fen));
            if i < f.len() {
                assert(f[i] == (z, fen));
                assert(f.contains((z, fen)));
                let k = choose|k: int|
                    0 <= k < front.len() && (#[trigger] front[k]).zobrist == z && front[k].fen@ == fen
                        && front[k].status@ == "watching"@;
                assert(ws[k] == front[k]);
            } else {
                assert(ws[ws.len() - 1].zobrist == z);
            }
        }
        if exists|i: int|
            0 <= i < ws.len() && (#[trigger] ws[i]).zobrist == z && ws[i].fen@ == fen
                && ws[i].status@ == "watching"@ {
            let k = choose|i: int|
                0 <= i < ws.len() && (#[trigger] ws[i]).zobrist == z && ws[i].fen@ == fen
                    && ws[i].status@ == "watching"@;
            if k < front.len() {
                assert(front[k] == ws[k]);
                let i = f.index_of((z, fen));
                assert(all[i] == f[i]);
            } else {
                assert(all[f.len() as int] == (z, fen));
            }
        }
    }
}

/// A watch is over with the first real evaluation that is not the one it began with, and it
/// says how long that took.
pub proof fn law_watches_end_with_news(old: Watch, new: Watch, sig: u64, now: u64)
    requires
        is_updated(old, new, true, sig, now),
        old.status@ != "updated"@,
    ensures
        sig != old.baseline_sig ==> new.status@ == "updated"@ && new.elapsed_secs == Some(
            if now > old.started {
                (now - old.started) as u64
            } else {
                0
            },
        ) && new.zobrist == old.zobrist && new.fen == old.fen && new.label == old.label,
        sig == old.baseline_sig ==> new == old,
{
}

/// What is told of a line is what it holds.
pub proof fn law_lines_hold_what_is_told(v: Seq<LichessLine>, k: int)
    requires
        0 <= k < v.len(),
    ensures
        lichess_views(v).len() == v.len(),
        lichess_views(v)[k].eval_cp == v[k].eval_cp,
        lichess_views(v)[k].mate == v[k].mate,
        lichess_views(v)[k].pv_uci == text::texts(v[k].pv_uci@),
{
}

/// The continuations that are asked for are those of the first moves, no more than so many,
/// in their order.
pub proof fn law_first_moves_are_asked_for(moves: Seq<CloudMove>, k: int)
    ensures
        moves.len() <= PV_LINES ==> top_moves(moves) == moves,
        moves.len() > PV_LINES ==> top_moves(moves).len() == PV_LINES,
        0 <= k < top_moves(moves).len() ==> top_moves(moves)[k] == moves[k],
{
}

/// Every move with a legal continuation is asked for.
pub proof fn law_no_continuation_is_left_out(fen: Seq<char>, ms: Seq<CloudMove>, j: int)
    requires
        0 <= j < ms.len(),
        child_of(fen, ms[j].san@) is Some,
    ensures
        requests(fen, ms).contains((ms[j].uci@, child_of(fen, ms[j].san@)->0)),
    decreases ms.len(),
{
    let front = requests(fen, ms.drop_last());
    let all = requests(fen, ms);
    let e = (ms[j].uci@, child_of(fen, ms[j].san@)->0);
    if j < ms.len() - 1 {
        assert(ms.drop_last()[j] == ms[j]);
        law_no_continuation_is_left_out(fen, ms.drop_last(), j);
        let i = front.index_of(e);
        assert(all[i] == e);
    } else {
        assert(all[front.len() as int] == e);
    }
}

proof fn lemma_one_character(c: char, d: char)
    requires
        c as u32 == d as u32,
    ensures
        c == d,
{
}

/// A move counts in a signature with its notation, its score and its mate: where what counts
/// is the same, they are.
pub proof fn law_signatures_take_in_every_score(a: CloudMove, b: CloudMove)
    requires
        move_key(a) == move_key(b),
    ensures
        a.uci@ == b.uci@,
        a.score_cp == b.score_cp,
        a.mate == b.mate,
{
    let x = move_key(a);
    let y = move_key(b);
    let n = a.uci@.len() as int;
    assert(x.len() == n + 3 && y.len() == b.uci@.len() + 3);
    assert(x[n + 1] == y[n + 1] && x[n + 2] == y[n + 2]);
    assert forall|i: int| 0 <= i < n implies #[trigger] a.uci@[i] == b.uci@[i] by {
        assert(sorting::codes(a.uci@)[i] == x[i]);
        assert(sorting::codes(b.uci@)[i] == y[i]);
        lemma_one_character(a.uci@[i], b.uci@[i]);
    }
    assert(a.uci@ =~= b.uci@);
}

/// A watch is found under its position, and no position that nobody watches has one.
pub proof fn law_watches_are_found_by_position(ws: Seq<Watch>, k: int, z: i64)
    requires
        watches_ok(ws),
        0 <= k < ws.len(),
    ensures
        watch_map(ws).contains_key(ws[k].zobrist),
        watch_map(ws)[ws[k].zobrist] == ws[k],
        (forall|i: int| 0 <= i < ws.len() ==> (#[trigger] ws[i]).zobrist != z)
            ==> !watch_map(ws).contains_key(z),
{
    lemma_watch_map(ws);
}

} // verus!
