//! Preparing for a round of a tournament: who the opponent is, or is likely to be.
use crate::reporter;
use crate::reporter::clone_opt;
use crate::shortlist;
use crate::shortlist::{find_entry, ShortlistEntry};
use crate::text;
use crate::text::{append_num, chars_of, has, to_lower};
use vstd::prelude::*;
use vstd::string::*;

verus! {

// ── What is shown ────────────────────────────────────────────────────────────

/// A tournament.
#[derive(Debug)]
pub struct TournamentMeta {
    pub id: String,
    pub name: String,
    pub kind: TournamentKind,
}

#[derive(Clone, Copy, PartialEq, Eq, Structural, Debug)]
pub enum TournamentKind {
    Individual,
    Team,
}

/// The opponent of a round.
#[derive(Debug)]
pub struct IndividualPrepResult {
    pub round: u32,
    pub datetime: Option<String>,
    pub opponent_name: Option<String>,
    pub opponent_rating: Option<i32>,
    pub opponent_fide_id: Option<u64>,
    pub opponent_snr: Option<u32>,
    pub my_color: Option<String>,
}

/// A round of a team tournament.
#[derive(Debug)]
pub struct TeamScheduleRoundDto {
    pub round: u32,
    pub date: Option<String>,
    pub time: Option<String>,
    pub is_played: bool,
}

/// A participant of an individual tournament.
#[derive(Debug)]
pub struct ParticipantDto {
    pub snr: u32,
    pub name: String,
    pub rating: Option<i32>,
}

/// A team.
#[derive(Debug)]
pub struct TeamDto {
    pub name: String,
    pub rtg_avg: Option<u32>,
}

/// Who a player may meet in a team match. The likelihood is `weight` of `total`.
#[derive(Debug)]
pub struct OpponentWeight {
    pub snr: u32,
    pub name: String,
    pub rating: Option<i32>,
    pub weight: u128,
}

/// A team match, from the side of one of its players.
#[derive(Debug)]
pub struct TeamPrepResult {
    pub round: u32,
    pub datetime: Option<String>,
    pub my_team: String,
    pub opponent_team: String,
    pub my_team_rank: Option<u32>,
    pub opp_team_rank: Option<u32>,
    pub my_elo_avg: Option<u32>,
    pub opp_elo_avg: Option<u32>,
    pub color: Option<String>,
    pub opponents: Vec<OpponentWeight>,
    /// What the weights of the opponents add up to.
    pub total_weight: u128,
}

// ── What is known ────────────────────────────────────────────────────────────

/// A pairing of an individual tournament.
#[derive(Debug)]
pub struct Pairing {
    pub round: u32,
    pub opponent_name: String,
    pub opponent_rating: Option<i32>,
    pub opponent_snr: u32,
    pub my_color: String,
    /// The result, once the game is over.
    pub result: Option<String>,
}

/// A board of a team match.
#[derive(Debug)]
pub struct BoardPairing {
    pub board: u32,
    pub home_snr: u32,
    pub home_name: String,
    pub home_rating: Option<i32>,
    pub away_snr: u32,
    pub away_name: String,
    pub away_rating: Option<i32>,
}

/// A team match.
#[derive(Debug)]
pub struct Matchup {
    pub home_team_name: String,
    pub away_team_name: String,
    pub boards: Vec<BoardPairing>,
}

/// A round of a team tournament, with its matches.
#[derive(Debug)]
pub struct TeamRoundInfo {
    pub date: Option<String>,
    pub time: Option<String>,
    pub matchups: Vec<Matchup>,
}

/// A team in the standings; a rank of 0 is none.
#[derive(Debug)]
pub struct TeamStanding {
    pub name: String,
    pub rank: u32,
    pub rtg_avg: Option<u32>,
}

// ── Names, colours, dates ────────────────────────────────────────────────────

/// Whether one of two texts is in the other.
pub open spec fn overlap(a: Seq<char>, b: Seq<char>) -> bool {
    text::contains(a, b) || text::contains(b, a)
}

/// Whether two names mean the same team: one is in the other, whatever the case.
pub open spec fn same_team(stored: Seq<char>, search: Seq<char>) -> bool {
    overlap(text::lowercase(stored), text::lowercase(search))
}

/// Whether one of two names in small letters is in the other.
pub fn names_overlap(a: &str, b: &str) -> (r: bool)
    ensures
        r == overlap(a@, b@),
{
    let x: Vec<char> = chars_of(a);
    let y: Vec<char> = chars_of(b);
    has(&x, &y) || has(&y, &x)
}

/// Whether two names mean the same team.
pub fn team_name_matches(stored: &str, search: &str) -> (b: bool)
    ensures
        b == same_team(stored@, search@),
        text::is_ascii_text(stored@) && text::is_ascii_text(search@) ==> b == overlap(
            text::ascii_lowercase(stored@),
            text::ascii_lowercase(search@),
        ),
{
    let a: String = to_lower(stored);
    let b: String = to_lower(search);
    names_overlap(a.as_str(), b.as_str())
}

/// Whether a player has White on a board.
pub open spec fn has_white(is_home: bool, board: u32, home_black_board1: bool) -> bool {
    let home_has_black = if home_black_board1 {
        board % 2 == 1
    } else {
        board % 2 == 0
    };
    is_home != home_has_black
}

/// The colour of a player on a board.
pub fn team_color(is_home: bool, board: u32, home_black_board1: bool) -> (c: String)
    ensures
        c@ == (if has_white(is_home, board, home_black_board1) {
            "White"@
        } else {
            "Black"@
        }),
{
    let home_has_black: bool = if home_black_board1 {
        board % 2 == 1
    } else {
        board % 2 == 0
    };
    if is_home != home_has_black {
        "White".to_owned()
    } else {
        "Black".to_owned()
    }
}

/// A date and a time in one text.
pub open spec fn datetime_of(date: Option<Seq<char>>, time: Option<Seq<char>>) -> Option<Seq<char>> {
    match (date, time) {
        (Some(d), Some(t)) => Some(d + " "@ + t),
        (Some(d), None) => Some(d),
        (None, _) => None,
    }
}

/// A date and a time in one text; without a date there is none.
pub fn join_datetime(date: Option<String>, time: Option<String>) -> (r: Option<String>)
    ensures
        reporter::opt_text(r) == datetime_of(reporter::opt_text(date), reporter::opt_text(time)),
{
    match (date, time) {
        (Some(d), Some(t)) => {
            let mut s: String = d;
            s.append(" ");
            s.append(t.as_str());
            Some(s)
        },
        (Some(d), None) => Some(d),
        (None, _) => None,
    }
}

// ── Individual tournaments ───────────────────────────────────────────────────

/// The highest round, or 1.
pub open spec fn last_round(pairings: Seq<Pairing>) -> u32
    decreases pairings.len(),
{
    if pairings.len() == 0 {
        1
    } else if pairings.len() == 1 {
        pairings[0].round
    } else {
        let rest = last_round(pairings.drop_last());
        if pairings.last().round > rest {
            pairings.last().round
        } else {
            rest
        }
    }
}

/// The round of the first game that is not over, else the highest round.
pub open spec fn next_round(pairings: Seq<Pairing>) -> u32 {
    if exists|i: int| is_first_open(pairings, i) {
        pairings[choose|i: int| is_first_open(pairings, i)].round
    } else {
        last_round(pairings)
    }
}

pub open spec fn is_first_open(pairings: Seq<Pairing>, i: int) -> bool {
    &&& 0 <= i < pairings.len()
    &&& pairings[i].result is None
    &&& forall|k: int| 0 <= k < i ==> (#[trigger] pairings[k]).result is Some
}

/// The round to prepare for.
pub fn target_round(round: Option<u32>, pairings: &[Pairing]) -> (r: u32)
    ensures
        r == (match round {
            Some(n) => n,
            None => next_round(pairings@),
        }),
{
    if let Some(n) = round {
        return n;
    }
    let mut i: usize = 0;
    while i < pairings.len()
        invariant
            i <= pairings.len(),
            round is None,
            forall|k: int| 0 <= k < i ==> (#[trigger] pairings@[k]).result is Some,
        decreases pairings.len() - i,
    {
        if pairings[i].result.is_none() {
            proof {
                assert(is_first_open(pairings@, i as int));
                let c = choose|c: int| is_first_open(pairings@, c);
                assert(c == i);
            }
            return pairings[i].round;
        }
        i += 1;
    }
    assert forall|j: int| !is_first_open(pairings@, j) by {}
    if pairings.len() == 0 {
        return 1;
    }
    let mut max: u32 = pairings[0].round;
    let mut k: usize = 1;
    assert(pairings@.take(1).len() == 1);
    while k < pairings.len()
        invariant
            1 <= k <= pairings.len(),
            max == last_round(pairings@.take(k as int)),
        decreases pairings.len() - k,
    {
        if pairings[k].round > max {
            max = pairings[k].round;
        }
        proof {
            let t = pairings@.take(k + 1);
            assert(t.drop_last() =~= pairings@.take(k as int));
            assert(t.last() == pairings@[k as int]);
        }
        k += 1;
    }
    assert(pairings@.take(k as int) =~= pairings@);
    max
}

/// The pairing of a round.
pub open spec fn is_pairing_of(pairings: Seq<Pairing>, round: u32, i: int) -> bool {
    &&& 0 <= i < pairings.len()
    &&& pairings[i].round == round
    &&& forall|k: int| 0 <= k < i ==> (#[trigger] pairings[k]).round != round
}

/// The first pairing of a round.
pub fn pairing_of(pairings: &[Pairing], round: u32) -> (r: Option<usize>)
    ensures
        match r {
            Some(i) => is_pairing_of(pairings@, round, i as int),
            None => forall|k: int| 0 <= k < pairings@.len() ==> (#[trigger] pairings@[k]).round
                != round,
        },
{
    let mut i: usize = 0;
    while i < pairings.len()
        invariant
            i <= pairings.len(),
            forall|k: int| 0 <= k < i ==> (#[trigger] pairings@[k]).round != round,
        decreases pairings.len() - i,
    {
        if pairings[i].round == round {
            return Some(i);
        }
        i += 1;
    }
    None
}

/// The player's number in an individual tournament of the shortlist.
pub fn individual_entry(entries: &[ShortlistEntry], id: &str) -> (r: Result<u32, String>)
    ensures
        if !shortlist::lists(entries@, id@) {
            r matches Err(e) && e@ == shortlist::not_listed(id@)
        } else {
            exists|i: int|
                is_entry_of(entries@, id@, i) && match #[trigger] entries@[i] {
                    ShortlistEntry::Individual { my_snr, .. } => r == Ok::<u32, String>(my_snr),
                    ShortlistEntry::Team { .. } => r matches Err(e) && e@
                        == "Not an individual tournament"@,
                }
        },
{
    match find_entry(entries, id) {
        None => Err(missing_text(id)),
        Some(i) => {
            assert(is_entry_of(entries@, id@, i as int));
            match &entries[i] {
                ShortlistEntry::Individual { my_snr, .. } => Ok(*my_snr),
                ShortlistEntry::Team { .. } => Err("Not an individual tournament".to_owned()),
            }
        },
    }
}

/// The first entry of a tournament in the shortlist.
pub open spec fn is_entry_of(entries: Seq<ShortlistEntry>, id: Seq<char>, i: int) -> bool {
    &&& 0 <= i < entries.len()
    &&& shortlist::entry_id(entries[i]) == id
    &&& forall|k: int| 0 <= k < i ==> shortlist::entry_id(#[trigger] entries[k]) != id
}

fn missing_text(id: &str) -> (s: String)
    ensures
        s@ == shortlist::not_listed(id@),
{
    let mut s: String = "Tournament ".to_owned();
    s.append(id);
    s.append(" not found in shortlist");
    s
}

/// Puts together what is known of the opponent of a round.
pub fn individual_prep(
    round: u32,
    pairings: &[Pairing],
    date: Option<String>,
    time: Option<String>,
    opponent_fide_id: Option<u64>,
) -> (r: IndividualPrepResult)
    ensures
        r.round == round,
        reporter::opt_text(r.datetime) == datetime_of(
            reporter::opt_text(date),
            reporter::opt_text(time),
        ),
        if exists|i: int| is_pairing_of(pairings@, round, i) {
            let p = pairings@[choose|i: int| is_pairing_of(pairings@, round, i)];
            &&& reporter::opt_text(r.opponent_name) == Some(p.opponent_name@)
            &&& r.opponent_rating == p.opponent_rating
            &&& r.opponent_snr == Some(p.opponent_snr)
            &&& reporter::opt_text(r.my_color) == Some(p.my_color@)
            &&& r.opponent_fide_id == opponent_fide_id
        } else {
            &&& r.opponent_name is None
            &&& r.opponent_rating is None
            &&& r.opponent_snr is None
            &&& r.my_color is None
            &&& r.opponent_fide_id is None
        },
{
    let datetime: Option<String> = join_datetime(date, time);
    match pairing_of(pairings, round) {
        Some(i) => {
            proof {
                let c = choose|c: int| is_pairing_of(pairings@, round, c);
                assert(is_pairing_of(pairings@, round, i as int));
                assert(c == i);
            }
            let p: &Pairing = &pairings[i];
            IndividualPrepResult {
                round,
                datetime,
                opponent_name: Some(p.opponent_name.clone()),
                opponent_rating: p.opponent_rating,
                opponent_fide_id,
                opponent_snr: Some(p.opponent_snr),
                my_color: Some(p.my_color.clone()),
            }
        },
        None => {
            assert forall|j: int| !is_pairing_of(pairings@, round, j) by {}
            IndividualPrepResult {
                round,
                datetime,
                opponent_name: None,
                opponent_rating: None,
                opponent_fide_id: None,
                opponent_snr: None,
                my_color: None,
            }
        },
    }
}

// ── Likely opponents ─────────────────────────────────────────────────────────

/// A game that a player of the other team played on a board near one's own.
#[derive(Debug)]
pub struct Appearance {
    pub snr: u32,
    pub name: String,
    pub rating: Option<i32>,
    pub weight: u128,
}

pub struct AppearanceView {
    pub snr: u32,
    pub name: Seq<char>,
    pub rating: Option<i32>,
    pub weight: nat,
}

impl View for Appearance {
    type V = AppearanceView;

    open spec fn view(&self) -> AppearanceView {
        AppearanceView {
            snr: self.snr,
            name: self.name@,
            rating: self.rating,
            weight: self.weight as nat,
        }
    }
}

impl View for OpponentWeight {
    type V = AppearanceView;

    open spec fn view(&self) -> AppearanceView {
        AppearanceView {
            snr: self.snr,
            name: self.name@,
            rating: self.rating,
            weight: self.weight as nat,
        }
    }
}

/// What a game on a board says of another board: most on the same one, something on the
/// next ones, nothing further off. The number after the largest is 0.
pub open spec fn board_weight(board: u32, mine: u32) -> nat {
    let apart = if board >= mine {
        board - mine
    } else {
        mine - board
    };
    if apart == 0 {
        2
    } else if apart == 1 || apart == u32::MAX {
        1
    } else {
        0
    }
}

/// The game of the other team's player on a board.
pub open spec fn appearance(b: BoardPairing, home: bool, mine: u32) -> AppearanceView {
    if home {
        AppearanceView {
            snr: b.home_snr,
            name: b.home_name@,
            rating: b.home_rating,
            weight: board_weight(b.board, mine),
        }
    } else {
        AppearanceView {
            snr: b.away_snr,
            name: b.away_name@,
            rating: b.away_rating,
            weight: board_weight(b.board, mine),
        }
    }
}

/// The games on the boards of a match that count.
pub open spec fn board_appearances(
    boards: Seq<BoardPairing>,
    home: bool,
    mine: u32,
) -> Seq<AppearanceView>
    decreases boards.len(),
{
    if boards.len() == 0 {
        Seq::empty()
    } else {
        let front = board_appearances(boards.drop_last(), home, mine);
        if board_weight(boards.last().board, mine) > 0 {
            front.push(appearance(boards.last(), home, mine))
        } else {
            front
        }
    }
}

/// The games of a team in some matches that count. A team that could be either side
/// counts as the home team.
pub open spec fn match_appearances(ms: Seq<Matchup>, team: Seq<char>, mine: u32) -> Seq<
    AppearanceView,
>
    decreases ms.len(),
{
    if ms.len() == 0 {
        Seq::empty()
    } else {
        let front = match_appearances(ms.drop_last(), team, mine);
        let m = ms.last();
        let home = same_team(m.home_team_name@, team);
        if home || same_team(m.away_team_name@, team) {
            front + board_appearances(m.boards@, home, mine)
        } else {
            front
        }
    }
}

/// The games of a team in some rounds that count.
pub open spec fn appearances(history: Seq<TeamRoundInfo>, team: Seq<char>, mine: u32) -> Seq<
    AppearanceView,
>
    decreases history.len(),
{
    if history.len() == 0 {
        Seq::empty()
    } else {
        appearances(history.drop_last(), team, mine) + match_appearances(
            history.last().matchups@,
            team,
            mine,
        )
    }
}

/// Games added to a tally: a player who is in it already gets the weight, a new one is put
/// at the end.
pub open spec fn tallied(t: Seq<AppearanceView>, a: AppearanceView) -> Seq<AppearanceView>
    decreases t.len(),
{
    if t.len() == 0 {
        seq![a]
    } else if t[0].snr == a.snr {
        seq![AppearanceView { weight: t[0].weight + a.weight, ..t[0] }] + t.skip(1)
    } else {
        seq![t[0]] + tallied(t.skip(1), a)
    }
}

/// Each player with all their weight, under the name and rating of their first game.
pub open spec fn tally(games: Seq<AppearanceView>) -> Seq<AppearanceView>
    decreases games.len(),
{
    if games.len() == 0 {
        Seq::empty()
    } else {
        tallied(tally(games.drop_last()), games.last())
    }
}

/// A list in falling order of weight, with one more in its place: behind those with the
/// same weight.
pub open spec fn ranked_in(t: Seq<AppearanceView>, a: AppearanceView) -> Seq<AppearanceView>
    decreases t.len(),
{
    if t.len() == 0 {
        seq![a]
    } else if t.last().weight >= a.weight {
        t.push(a)
    } else {
        ranked_in(t.drop_last(), a).push(t.last())
    }
}

/// A list in falling order of weight.
pub open spec fn ranked(t: Seq<AppearanceView>) -> Seq<AppearanceView>
    decreases t.len(),
{
    if t.len() == 0 {
        Seq::empty()
    } else {
        ranked_in(ranked(t.drop_last()), t.last())
    }
}

pub open spec fn weight_sum(t: Seq<AppearanceView>) -> nat
    decreases t.len(),
{
    if t.len() == 0 {
        0
    } else {
        weight_sum(t.drop_last()) + t.last().weight
    }
}

pub open spec fn app_views(v: Seq<Appearance>) -> Seq<AppearanceView> {
    v.map_values(|a: Appearance| a@)
}

pub open spec fn weight_views(v: Seq<OpponentWeight>) -> Seq<AppearanceView> {
    v.map_values(|a: OpponentWeight| a@)
}

fn push_boards(out: &mut Vec<Appearance>, boards: &Vec<BoardPairing>, home: bool, mine: u32)
    requires
        forall|i: int| 0 <= i < old(out)@.len() ==> (#[trigger] old(out)@[i]).weight <= 2,
    ensures
        app_views(final(out)@) == app_views(old(out)@) + board_appearances(boards@, home, mine),
        forall|i: int| 0 <= i < final(out)@.len() ==> (#[trigger] final(out)@[i]).weight <= 2,
{
    let ghost start = app_views(out@);
    let mut i: usize = 0;
    assert(boards@.take(0) =~= Seq::empty());
    assert(start + Seq::<AppearanceView>::empty() =~= start);
    while i < boards.len()
        invariant
            i <= boards.len(),
            app_views(out@) == start + board_appearances(boards@.take(i as int), home, mine),
            forall|k: int| 0 <= k < out@.len() ==> (#[trigger] out@[k]).weight <= 2,
        decreases boards.len() - i,
    {
        let b: &BoardPairing = &boards[i];
        proof {
            let t = boards@.take(i + 1);
            assert(t.drop_last() =~= boards@.take(i as int));
            assert(t.last() == *b);
        }
        let apart: u32 = if b.board >= mine {
            b.board - mine
        } else {
            mine - b.board
        };
        let weight: u128 = if apart == 0 {
            2
        } else if apart == 1 || apart == u32::MAX {
            1
        } else {
            0
        };
        if weight > 0 {
            let ghost before = app_views(out@);
            let a: Appearance = if home {
                Appearance {
                    snr: b.home_snr,
                    name: b.home_name.clone(),
                    rating: b.home_rating,
                    weight,
                }
            } else {
                Appearance {
                    snr: b.away_snr,
                    name: b.away_name.clone(),
                    rating: b.away_rating,
                    weight,
                }
            };
            out.push(a);
            assert(app_views(out@) =~= before.push(a@));
            assert(app_views(out@) =~= start + board_appearances(
                boards@.take(i + 1),
                home,
                mine,
            ));
        }
        i += 1;
    }
    assert(boards@.take(i as int) =~= boards@);
}

fn push_matches(out: &mut Vec<Appearance>, ms: &Vec<Matchup>, team: &str, mine: u32)
    requires
        forall|i: int| 0 <= i < old(out)@.len() ==> (#[trigger] old(out)@[i]).weight <= 2,
    ensures
        app_views(final(out)@) == app_views(old(out)@) + match_appearances(ms@, team@, mine),
        forall|i: int| 0 <= i < final(out)@.len() ==> (#[trigger] final(out)@[i]).weight <= 2,
{
    let ghost start = app_views(out@);
    let mut i: usize = 0;
    assert(ms@.take(0) =~= Seq::empty());
    assert(start + Seq::<AppearanceView>::empty() =~= start);
    while i < ms.len()
        invariant
            i <= ms.len(),
            app_views(out@) == start + match_appearances(ms@.take(i as int), team@, mine),
            forall|k: int| 0 <= k < out@.len() ==> (#[trigger] out@[k]).weight <= 2,
        decreases ms.len() - i,
    {
        let m: &Matchup = &ms[i];
        proof {
            let t = ms@.take(i + 1);
            assert(t.drop_last() =~= ms@.take(i as int));
            assert(t.last() == *m);
        }
        let home: bool = team_name_matches(m.home_team_name.as_str(), team);
        let away: bool = team_name_matches(m.away_team_name.as_str(), team);
        if home || away {
            let ghost before = app_views(out@);
            push_boards(out, &m.boards, home, mine);
            assert(app_views(out@) =~= start + match_appearances(ms@.take(i + 1), team@, mine));
        }
        i += 1;
    }
    assert(ms@.take(i as int) =~= ms@);
}

proof fn lemma_tallied_at(t: Seq<AppearanceView>, a: AppearanceView, k: int)
    requires
        0 <= k <= t.len(),
        forall|j: int| 0 <= j < k ==> (#[trigger] t[j]).snr != a.snr,
        k < t.len() ==> t[k].snr == a.snr,
    ensures
        tallied(t, a) == (if k < t.len() {
            t.update(k, AppearanceView { weight: t[k].weight + a.weight, ..t[k] })
        } else {
            t.push(a)
        }),
    decreases t.len(),
{
    if t.len() == 0 {
        assert(tallied(t, a) =~= t.push(a));
    } else if k == 0 {
        assert(tallied(t, a) =~= t.update(
            0,
            AppearanceView { weight: t[0].weight + a.weight, ..t[0] },
        ));
    } else {
        assert(t[0].snr != a.snr);
        let r = t.skip(1);
        assert forall|j: int| 0 <= j < k - 1 implies (#[trigger] r[j]).snr != a.snr by {
            assert(r[j] == t[j + 1]);
        }
        lemma_tallied_at(r, a, k - 1);
        if k < t.len() {
            assert(tallied(t, a) =~= t.update(
                k,
                AppearanceView { weight: t[k].weight + a.weight, ..t[k] },
            ));
        } else {
            assert(tallied(t, a) =~= t.push(a));
        }
    }
}

proof fn lemma_sum_update(t: Seq<AppearanceView>, k: int, w: nat)
    requires
        0 <= k < t.len(),
    ensures
        weight_sum(t.update(k, AppearanceView { weight: t[k].weight + w, ..t[k] })) == weight_sum(t)
            + w,
    decreases t.len(),
{
    let u = t.update(k, AppearanceView { weight: t[k].weight + w, ..t[k] });
    if k == t.len() - 1 {
        assert(u.drop_last() =~= t.drop_last());
    } else {
        lemma_sum_update(t.drop_last(), k, w);
        assert(u.drop_last() =~= t.drop_last().update(
            k,
            AppearanceView { weight: t[k].weight + w, ..t[k] },
        ));
        assert(u.last() == t.last());
    }
}

proof fn lemma_sum_covers(t: Seq<AppearanceView>, k: int)
    requires
        0 <= k < t.len(),
    ensures
        t[k].weight <= weight_sum(t),
    decreases t.len(),
{
    if k < t.len() - 1 {
        lemma_sum_covers(t.drop_last(), k);
    }
}

fn tally_games(games: &Vec<Appearance>) -> (out: Vec<OpponentWeight>)
    requires
        forall|i: int| 0 <= i < games@.len() ==> (#[trigger] games@[i]).weight <= 2,
    ensures
        weight_views(out@) == tally(app_views(games@)),
        weight_sum(weight_views(out@)) <= 2 * games@.len(),
{
    let mut out: Vec<OpponentWeight> = Vec::new();
    let ghost all = app_views(games@);
    let mut i: usize = 0;
    assert(all.take(0) =~= Seq::empty());
    assert(weight_views(out@) =~= Seq::empty());
    while i < games.len()
        invariant
            i <= games.len(),
            all == app_views(games@),
            forall|k: int| 0 <= k < games@.len() ==> (#[trigger] games@[k]).weight <= 2,
            weight_views(out@) == tally(all.take(i as int)),
            weight_sum(weight_views(out@)) <= 2 * i,
        decreases games.len() - i,
    {
        let g: &Appearance = &games[i];
        assert(g.weight <= 2);
        proof {
            let t = all.take(i + 1);
            assert(t.drop_last() =~= all.take(i as int));
            assert(t.last() == g@);
        }
        let ghost before = weight_views(out@);
        let mut k: usize = 0;
        while k < out.len() && out[k].snr != g.snr
            invariant
                k <= out.len(),
                before == weight_views(out@),
                forall|j: int| 0 <= j < k ==> (#[trigger] before[j]).snr != g.snr,
            decreases out.len() - k,
        {
            assert(before[k as int] == out@[k as int]@);
            k += 1;
        }
        proof {
            assert(before.len() == out@.len());
            if k < out.len() {
                assert(before[k as int] == out@[k as int]@);
                lemma_sum_covers(before, k as int);
            }
            lemma_tallied_at(before, g@, k as int);
        }
        if k < out.len() {
            let weight: u128 = out[k].weight + g.weight;
            proof {
                lemma_sum_update(before, k as int, g.weight as nat);
            }
            let w = OpponentWeight {
                snr: out[k].snr,
                name: out[k].name.clone(),
                rating: out[k].rating,
                weight,
            };
            out.set(k, w);
            assert(weight_views(out@) =~= before.update(k as int, w@));
        } else {
            let w = OpponentWeight {
                snr: g.snr,
                name: g.name.clone(),
                rating: g.rating,
                weight: g.weight,
            };
            out.push(w);
            assert(weight_views(out@) =~= before.push(g@));
            assert(before.push(g@).drop_last() =~= before);
        }
        i += 1;
    }
    assert(all.take(i as int) =~= all);
    out
}

proof fn lemma_ranked_at(t: Seq<AppearanceView>, a: AppearanceView, k: int)
    requires
        0 <= k <= t.len(),
        forall|j: int| k <= j < t.len() ==> (#[trigger] t[j]).weight < a.weight,
        k > 0 ==> t[k - 1].weight >= a.weight,
    ensures
        ranked_in(t, a) == t.insert(k, a),
    decreases t.len(),
{
    if t.len() == 0 {
        assert(ranked_in(t, a) =~= t.insert(k, a));
    } else if k == t.len() {
        assert(t.last() == t[k - 1]);
        assert(ranked_in(t, a) =~= t.insert(k, a));
    } else {
        assert(t[t.len() - 1].weight < a.weight);
        let d = t.drop_last();
        assert forall|j: int| k <= j < d.len() implies (#[trigger] d[j]).weight < a.weight by {
            assert(d[j] == t[j]);
        }
        lemma_ranked_at(d, a, k);
        assert(ranked_in(t, a) =~= t.insert(k, a));
    }
}

fn rank_weights(tallies: Vec<OpponentWeight>) -> (out: Vec<OpponentWeight>)
    ensures
        weight_views(out@) == ranked(weight_views(tallies@)),
{
    let ghost all = weight_views(tallies@);
    let mut out: Vec<OpponentWeight> = Vec::new();
    let mut i: usize = 0;
    assert(all.take(0) =~= Seq::empty());
    assert(weight_views(out@) =~= Seq::empty());
    while i < tallies.len()
        invariant
            i <= tallies.len(),
            all == weight_views(tallies@),
            weight_views(out@) == ranked(all.take(i as int)),
        decreases tallies.len() - i,
    {
        let t: &OpponentWeight = &tallies[i];
        let ghost before = weight_views(out@);
        let mut k: usize = out.len();
        while k > 0 && out[k - 1].weight < t.weight
            invariant
                k <= out.len(),
                before == weight_views(out@),
                forall|j: int| k <= j < before.len() ==> (#[trigger] before[j]).weight < t.weight,
            decreases k,
        {
            assert(before[k - 1] == out@[k - 1]@);
            k -= 1;
        }
        proof {
            assert(before.len() == out@.len());
            if k > 0 {
                assert(before[k - 1] == out@[k - 1]@);
            }
            lemma_ranked_at(before, t@, k as int);
            let s = all.take(i + 1);
            assert(s.drop_last() =~= all.take(i as int));
            assert(s.last() == t@);
        }
        let w = OpponentWeight {
            snr: t.snr,
            name: t.name.clone(),
            rating: t.rating,
            weight: t.weight,
        };
        out.insert(k, w);
        assert(weight_views(out@) =~= before.insert(k as int, t@));
        i += 1;
    }
    assert(all.take(i as int) =~= all);
    out
}

/// Who is likely to sit on the other side of a board, from the games of the other team so
/// far, the likeliest first; and the total of the weights.
pub fn compute_opponent_likelihood(
    history: &[TeamRoundInfo],
    opp_team_name: &str,
    my_board: u32,
) -> (r: (Vec<OpponentWeight>, u128))
    ensures
        weight_views(r.0@) == ranked(
            tally(appearances(history@, opp_team_name@, my_board)),
        ),
        r.1 == weight_sum(tally(appearances(history@, opp_team_name@, my_board))),
{
    let mut games: Vec<Appearance> = Vec::new();
    let mut i: usize = 0;
    assert(history@.take(0) =~= Seq::empty());
    assert(app_views(games@) =~= Seq::empty());
    while i < history.len()
        invariant
            i <= history.len(),
            app_views(games@) == appearances(history@.take(i as int), opp_team_name@, my_board),
            forall|k: int| 0 <= k < games@.len() ==> (#[trigger] games@[k]).weight <= 2,
        decreases history.len() - i,
    {
        push_matches(&mut games, &history[i].matchups, opp_team_name, my_board);
        proof {
            let t = history@.take(i + 1);
            assert(t.drop_last() =~= history@.take(i as int));
            assert(t.last() == history@[i as int]);
        }
        i += 1;
    }
    assert(history@.take(i as int) =~= history@);
    let tallies: Vec<OpponentWeight> = tally_games(&games);
    let ghost all = weight_views(tallies@);
    assert(2 * games@.len() <= u128::MAX) by {
        assert(games.len() <= usize::MAX);
    }
    let mut total: u128 = 0;
    let mut k: usize = 0;
    assert(all.take(0) =~= Seq::empty());
    while k < tallies.len()
        invariant
            k <= tallies.len(),
            all == weight_views(tallies@),
            weight_sum(all) <= u128::MAX,
            total == weight_sum(all.take(k as int)),
        decreases tallies.len() - k,
    {
        proof {
            let t = all.take(k + 1);
            assert(t.drop_last() =~= all.take(k as int));
            assert(t.last() == tallies@[k as int]@);
            lemma_sum_prefix(all, k + 1);
        }
        total = total + tallies[k].weight;
        k += 1;
    }
    assert(all.take(k as int) =~= all);
    (rank_weights(tallies), total)
}

proof fn lemma_sum_prefix(t: Seq<AppearanceView>, k: int)
    requires
        0 <= k <= t.len(),
    ensures
        weight_sum(t.take(k)) <= weight_sum(t),
    decreases t.len(),
{
    if k < t.len() {
        lemma_sum_prefix(t.drop_last(), k);
        assert(t.drop_last().take(k) =~= t.take(k));
    } else {
        assert(t.take(k) =~= t);
    }
}

// ── Team tournaments ─────────────────────────────────────────────────────────

/// The player's team in a team tournament of the shortlist, and whether home teams have
/// Black on the first board.
pub fn team_entry(entries: &[ShortlistEntry], id: &str) -> (r: Result<(String, bool), String>)
    ensures
        if !shortlist::lists(entries@, id@) {
            r matches Err(e) && e@ == shortlist::not_listed(id@)
        } else {
            exists|i: int|
                is_entry_of(entries@, id@, i) && match #[trigger] entries@[i] {
                    ShortlistEntry::Team { my_team_name, home_black_board1, .. } => r matches Ok(
                        (t, b),
                    ) && t@ == my_team_name@ && b == home_black_board1,
                    ShortlistEntry::Individual { .. } => r matches Err(e) && e@
                        == "Not a team tournament"@,
                }
        },
{
    match find_entry(entries, id) {
        None => Err(missing_text(id)),
        Some(i) => {
            assert(is_entry_of(entries@, id@, i as int));
            match &entries[i] {
                ShortlistEntry::Team { my_team_name, home_black_board1, .. } => Ok(
                    (my_team_name.clone(), *home_black_board1),
                ),
                ShortlistEntry::Individual { .. } => Err("Not a team tournament".to_owned()),
            }
        },
    }
}

/// Whether a match is one of a team's.
pub open spec fn involves(m: Matchup, team: Seq<char>) -> bool {
    same_team(m.home_team_name@, team) || same_team(m.away_team_name@, team)
}

/// The first match of a team.
pub open spec fn is_match_of(ms: Seq<Matchup>, team: Seq<char>, i: int) -> bool {
    &&& 0 <= i < ms.len()
    &&& involves(ms[i], team)
    &&& forall|k: int| 0 <= k < i ==> !involves(#[trigger] ms[k], team)
}

fn find_match(ms: &Vec<Matchup>, team: &str) -> (r: Option<usize>)
    ensures
        match r {
            Some(i) => is_match_of(ms@, team@, i as int),
            None => forall|k: int| 0 <= k < ms@.len() ==> !involves(#[trigger] ms@[k], team@),
        },
{
    let mut i: usize = 0;
    while i < ms.len()
        invariant
            i <= ms.len(),
            forall|k: int| 0 <= k < i ==> !involves(#[trigger] ms@[k], team@),
        decreases ms.len() - i,
    {
        if team_name_matches(ms[i].home_team_name.as_str(), team) || team_name_matches(
            ms[i].away_team_name.as_str(),
            team,
        ) {
            return Some(i);
        }
        i += 1;
    }
    None
}

/// The first standing of a team.
pub open spec fn standing_of(s: Seq<TeamStanding>, team: Seq<char>) -> Option<TeamStanding>
    decreases s.len(),
{
    if s.len() == 0 {
        None
    } else if same_team(s[0].name@, team) {
        Some(s[0])
    } else {
        standing_of(s.skip(1), team)
    }
}

/// A rank that is one.
pub open spec fn rank_of(s: Option<TeamStanding>) -> Option<u32> {
    match s {
        Some(s) => if s.rank > 0 {
            Some(s.rank)
        } else {
            None
        },
        None => None,
    }
}

pub open spec fn average_of(s: Option<TeamStanding>) -> Option<u32> {
    match s {
        Some(s) => s.rtg_avg,
        None => None,
    }
}

fn find_standing(s: &[TeamStanding], team: &str) -> (r: (Option<u32>, Option<u32>))
    ensures
        r.0 == rank_of(standing_of(s@, team@)),
        r.1 == average_of(standing_of(s@, team@)),
{
    let mut i: usize = 0;
    assert(s@.skip(0) =~= s@);
    while i < s.len()
        invariant
            i <= s.len(),
            standing_of(s@, team@) == standing_of(s@.skip(i as int), team@),
        decreases s.len() - i,
    {
        assert(s@.skip(i as int)[0] == s@[i as int]);
        assert(s@.skip(i as int).skip(1) =~= s@.skip(i + 1));
        if team_name_matches(s[i].name.as_str(), team) {
            let rank: Option<u32> = if s[i].rank > 0 {
                Some(s[i].rank)
            } else {
                None
            };
            return (rank, s[i].rtg_avg);
        }
        i += 1;
    }
    assert(s@.skip(i as int) =~= Seq::empty());
    (None, None)
}

/// The rounds before one that have been played.
pub open spec fn played_before(round: u32) -> spec_fn(TeamScheduleRoundDto) -> bool {
    |r: TeamScheduleRoundDto| r.is_played && r.round < round
}

/// The rounds before one that have been played, in their order.
pub fn played_rounds(schedule: &[TeamScheduleRoundDto], round: u32) -> (out: Vec<u32>)
    ensures
        out@ == schedule@.filter(played_before(round)).map_values(
            |r: TeamScheduleRoundDto| r.round,
        ),
{
    let ghost p = played_before(round);
    let ghost f = |r: TeamScheduleRoundDto| r.round;
    let mut out: Vec<u32> = Vec::new();
    let mut i: usize = 0;
    proof {
        reveal(Seq::filter);
        assert(schedule@.take(0) =~= Seq::empty());
        assert(out@ =~= Seq::<TeamScheduleRoundDto>::empty().map_values(f));
    }
    while i < schedule.len()
        invariant
            i <= schedule.len(),
            p == played_before(round),
            f == (|r: TeamScheduleRoundDto| r.round),
            out@ == schedule@.take(i as int).filter(p).map_values(f),
        decreases schedule.len() - i,
    {
        let ghost before = schedule@.take(i as int).filter(p);
        proof {
            reveal(Seq::filter);
            let t = schedule@.take(i + 1);
            assert(t.drop_last() =~= schedule@.take(i as int));
            assert(t.last() == schedule@[i as int]);
        }
        if schedule[i].is_played && schedule[i].round < round {
            out.push(schedule[i].round);
            assert(out@ =~= before.push(schedule@[i as int]).map_values(f));
        }
        i += 1;
    }
    assert(schedule@.take(i as int) =~= schedule@);
    out
}

/// The team that a team meets in a match.
pub open spec fn other_team(m: Matchup, team: Seq<char>) -> Seq<char> {
    if same_team(m.home_team_name@, team) {
        m.away_team_name@
    } else {
        m.home_team_name@
    }
}

/// Puts together what is known of a team match: the teams and their standing, the colour
/// on one's board, and the likely opponents from the rounds so far.
pub fn team_prep(
    round: u32,
    info: &TeamRoundInfo,
    standings: &[TeamStanding],
    my_team_name: &str,
    home_black_board1: bool,
    my_board: u32,
    history: &[TeamRoundInfo],
) -> (r: Result<TeamPrepResult, String>)
    ensures
        if exists|i: int| is_match_of(info.matchups@, my_team_name@, i) {
            let m = info.matchups@[choose|i: int| is_match_of(info.matchups@, my_team_name@, i)];
            let opp = other_team(m, my_team_name@);
            let games = tally(appearances(history@, opp, my_board));
            &&& r matches Ok(p)
            &&& p.round == round
            &&& reporter::opt_text(p.datetime) == datetime_of(
                reporter::opt_text(info.date),
                reporter::opt_text(info.time),
            )
            &&& p.my_team@ == my_team_name@
            &&& p.opponent_team@ == opp
            &&& p.my_team_rank == rank_of(standing_of(standings@, my_team_name@))
            &&& p.opp_team_rank == rank_of(standing_of(standings@, opp))
            &&& p.my_elo_avg == average_of(standing_of(standings@, my_team_name@))
            &&& p.opp_elo_avg == average_of(standing_of(standings@, opp))
            &&& reporter::opt_text(p.color) == Some(
                if has_white(
                    same_team(m.home_team_name@, my_team_name@),
                    my_board,
                    home_black_board1,
                ) {
                    "White"@
                } else {
                    "Black"@
                },
            )
            &&& weight_views(p.opponents@) == ranked(games)
            &&& p.total_weight == weight_sum(games)
        } else {
            r matches Err(e) && e@ == "Could not find team '"@ + my_team_name@ + "' in round "@
                + text::dec(round as nat) + " pairings"@
        },
{
    let i: usize = match find_match(&info.matchups, my_team_name) {
        Some(i) => i,
        None => {
            assert forall|j: int| !is_match_of(info.matchups@, my_team_name@, j) by {}
            let mut e: String = "Could not find team '".to_owned();
            e.append(my_team_name);
            e.append("' in round ");
            append_num(&mut e, round as u64);
            e.append(" pairings");
            return Err(e);
        },
    };
    proof {
        assert(is_match_of(info.matchups@, my_team_name@, i as int));
        let c = choose|c: int| is_match_of(info.matchups@, my_team_name@, c);
        assert(c == i);
    }
    let m: &Matchup = &info.matchups[i];
    let i_am_home: bool = team_name_matches(m.home_team_name.as_str(), my_team_name);
    let opponent_team: String = if i_am_home {
        m.away_team_name.clone()
    } else {
        m.home_team_name.clone()
    };
    let (my_team_rank, my_elo_avg) = find_standing(standings, my_team_name);
    let (opp_team_rank, opp_elo_avg) = find_standing(standings, opponent_team.as_str());
    let datetime: Option<String> = join_datetime(clone_opt(&info.date), clone_opt(&info.time));
    let color: Option<String> = Some(team_color(i_am_home, my_board, home_black_board1));
    let (opponents, total_weight) = compute_opponent_likelihood(
        history,
        opponent_team.as_str(),
        my_board,
    );
    Ok(
        TeamPrepResult {
            round,
            datetime,
            my_team: my_team_name.to_owned(),
            opponent_team,
            my_team_rank,
            opp_team_rank,
            my_elo_avg,
            opp_elo_avg,
            color,
            opponents,
            total_weight,
        },
    )
}

// ── Laws ─────────────────────────────────────────────────────────────────────

/// In falling order of weight.
pub open spec fn falls(t: Seq<AppearanceView>) -> bool {
    forall|i: int, j: int|
        0 <= i < j < t.len() ==> (#[trigger] t[i]).weight >= (#[trigger] t[j]).weight
}

proof fn lemma_ranked_in(t: Seq<AppearanceView>, a: AppearanceView)
    requires
        falls(t),
    ensures
        falls(ranked_in(t, a)),
        ranked_in(t, a).to_multiset() == t.to_multiset().insert(a),
        forall|i: int|
            0 <= i < ranked_in(t, a).len() ==> (#[trigger] ranked_in(t, a)[i]).weight <= (if t.len()
                > 0 && t[0].weight > a.weight {
                t[0].weight
            } else {
                a.weight
            }),
        forall|i: int|
            0 <= i < ranked_in(t, a).len() ==> (#[trigger] ranked_in(t, a)[i]).weight >= (if t.len()
                > 0 && t.last().weight < a.weight {
                t.last().weight
            } else {
                a.weight
            }),
    decreases t.len(),
{
    broadcast use vstd::seq_lib::group_to_multiset_ensures;

    if t.len() == 0 {
        assert(seq![a] =~= t.push(a));
    } else if t.last().weight >= a.weight {
        assert(falls(t.push(a)));
    } else {
        let d = t.drop_last();
        lemma_ranked_in(d, a);
        let r = ranked_in(d, a);
        assert(t =~= d.push(t.last()));
        if d.len() > 0 {
            assert(d.last().weight >= t.last().weight);
            assert(d[0] == t[0]);
        }
        assert(falls(r.push(t.last())));
    }
}

/// The likely opponents come in falling order of likelihood, and nobody is added or left
/// out by the ranking.
pub proof fn law_likeliest_first(t: Seq<AppearanceView>)
    ensures
        falls(ranked(t)),
        ranked(t).to_multiset() == t.to_multiset(),
    decreases t.len(),
{
    broadcast use vstd::seq_lib::group_to_multiset_ensures;

    if t.len() > 0 {
        let d = t.drop_last();
        law_likeliest_first(d);
        lemma_ranked_in(ranked(d), t.last());
        assert(t =~= d.push(t.last()));
    }
}

/// Each player is in the tally once.
pub proof fn law_everybody_is_tallied_once(games: Seq<AppearanceView>)
    ensures
        forall|i: int, j: int|
            0 <= i < j < tally(games).len() ==> (#[trigger] tally(games)[i]).snr
                != (#[trigger] tally(games)[j]).snr,
        weight_sum(tally(games)) == weight_sum(games),
    decreases games.len(),
{
    if games.len() > 0 {
        let front = tally(games.drop_last());
        law_everybody_is_tallied_once(games.drop_last());
        let a = games.last();
        let k = first_of(front, a.snr);
        lemma_first_of(front, a.snr);
        lemma_tallied_at(front, a, k);
        if k < front.len() {
            lemma_sum_update(front, k, a.weight);
        } else {
            assert(front.push(a).drop_last() =~= front);
        }
    }
}

spec fn first_of(t: Seq<AppearanceView>, snr: u32) -> int
    decreases t.len(),
{
    if t.len() == 0 || t[0].snr == snr {
        0
    } else {
        first_of(t.skip(1), snr) + 1
    }
}

proof fn lemma_first_of(t: Seq<AppearanceView>, snr: u32)
    ensures
        0 <= first_of(t, snr) <= t.len(),
        forall|j: int| 0 <= j < first_of(t, snr) ==> (#[trigger] t[j]).snr != snr,
        first_of(t, snr) < t.len() ==> t[first_of(t, snr)].snr == snr,
    decreases t.len(),
{
    if t.len() > 0 && t[0].snr != snr {
        lemma_first_of(t.skip(1), snr);
        assert forall|j: int| 0 <= j < first_of(t, snr) implies (#[trigger] t[j]).snr != snr by {
            if j > 0 {
                assert(t.skip(1)[j - 1] == t[j]);
            }
        }
    }
}

/// The two players of a board have different colours, and neighbouring boards of a team
/// do too.
pub proof fn law_colours_alternate(board: u32, home_black_board1: bool)
    requires
        board < u32::MAX,
    ensures
        has_white(true, board, home_black_board1) != has_white(false, board, home_black_board1),
        has_white(true, board, home_black_board1) != has_white(
            true,
            (board + 1) as u32,
            home_black_board1,
        ),
{
}

// ── Laws of preparation ──────────────────────────────────────────────────────

/// Whether somebody played for a team on a board of a match: at home where the team is at
/// home, away otherwise, with number, name and rating all of that side.
pub open spec fn played_on(m: Matchup, team: Seq<char>, b: BoardPairing, a: AppearanceView) -> bool {
    if same_team(m.home_team_name@, team) {
        a.snr == b.home_snr && a.name == b.home_name@ && a.rating == b.home_rating
    } else {
        same_team(m.away_team_name@, team) && a.snr == b.away_snr && a.name == b.away_name@
            && a.rating == b.away_rating
    }
}

proof fn lemma_board_of(boards: Seq<BoardPairing>, home: bool, mine: u32, k: int) -> (b: int)
    requires
        0 <= k < board_appearances(boards, home, mine).len(),
    ensures
        0 <= b < boards.len(),
        ({
            let a = board_appearances(boards, home, mine)[k];
            &&& home ==> a.snr == boards[b].home_snr && a.name == boards[b].home_name@ && a.rating
                == boards[b].home_rating
            &&& !home ==> a.snr == boards[b].away_snr && a.name == boards[b].away_name@ && a.rating
                == boards[b].away_rating
            &&& a.weight == board_weight(boards[b].board, mine)
            &&& a.weight > 0
        }),
    decreases boards.len(),
{
    let front = boards.drop_last();
    if k < board_appearances(front, home, mine).len() {
        let b = lemma_board_of(front, home, mine, k);
        assert(front[b] == boards[b]);
        b
    } else {
        boards.len() - 1
    }
}

proof fn lemma_match_of(ms: Seq<Matchup>, team: Seq<char>, mine: u32, k: int) -> (r: (int, int))
    requires
        0 <= k < match_appearances(ms, team, mine).len(),
    ensures
        0 <= r.0 < ms.len(),
        0 <= r.1 < ms[r.0].boards@.len(),
        played_on(ms[r.0], team, ms[r.0].boards@[r.1], match_appearances(ms, team, mine)[k]),
        match_appearances(ms, team, mine)[k].weight == board_weight(
            ms[r.0].boards@[r.1].board,
            mine,
        ),
        match_appearances(ms, team, mine)[k].weight > 0,
    decreases ms.len(),
{
    let front = match_appearances(ms.drop_last(), team, mine);
    if k < front.len() {
        let r = lemma_match_of(ms.drop_last(), team, mine, k);
        assert(ms.drop_last()[r.0] == ms[r.0]);
        assert(match_appearances(ms, team, mine)[k] == front[k]);
        r
    } else {
        let m = ms.last();
        let home = same_team(m.home_team_name@, team);
        let b = lemma_board_of(m.boards@, home, mine, k - front.len());
        (ms.len() - 1, b)
    }
}

proof fn lemma_game_of(history: Seq<TeamRoundInfo>, team: Seq<char>, mine: u32, k: int) -> (r: (
    int,
    int,
    int,
))
    requires
        0 <= k < appearances(history, team, mine).len(),
    ensures
        0 <= r.0 < history.len(),
        0 <= r.1 < history[r.0].matchups@.len(),
        0 <= r.2 < history[r.0].matchups@[r.1].boards@.len(),
        played_on(
            history[r.0].matchups@[r.1],
            team,
            history[r.0].matchups@[r.1].boards@[r.2],
            appearances(history, team, mine)[k],
        ),
        appearances(history, team, mine)[k].weight == board_weight(
            history[r.0].matchups@[r.1].boards@[r.2].board,
            mine,
        ),
        appearances(history, team, mine)[k].weight > 0,
    decreases history.len(),
{
    let front = appearances(history.drop_last(), team, mine);
    if k < front.len() {
        let r = lemma_game_of(history.drop_last(), team, mine, k);
        assert(history.drop_last()[r.0] == history[r.0]);
        assert(appearances(history, team, mine)[k] == front[k]);
        r
    } else {
        let r = lemma_match_of(history.last().matchups@, team, mine, k - front.len());
        (history.len() - 1, r.0, r.1)
    }
}

proof fn lemma_tallied_from(games: Seq<AppearanceView>, k: int) -> (j: int)
    requires
        0 <= k < tally(games).len(),
    ensures
        0 <= j < games.len(),
        tally(games)[k].snr == games[j].snr,
        tally(games)[k].name == games[j].name,
        tally(games)[k].rating == games[j].rating,
    decreases games.len(),
{
    let d = games.drop_last();
    let front = tally(d);
    let a = games.last();
    let p = first_of(front, a.snr);
    lemma_first_of(front, a.snr);
    lemma_tallied_at(front, a, p);
    if k < front.len() {
        let j = lemma_tallied_from(d, k);
        assert(d[j] == games[j]);
        j
    } else {
        games.len() - 1
    }
}

/// Everybody who is listed as an opponent sat for the other team at a board of one of its
/// matches, on this board or next to it, with that number, that name and that rating.
pub proof fn law_opponents_have_played(
    history: Seq<TeamRoundInfo>,
    team: Seq<char>,
    mine: u32,
    k: int,
) -> (r: (int, int, int))
    requires
        0 <= k < ranked(tally(appearances(history, team, mine))).len(),
    ensures
        0 <= r.0 < history.len(),
        0 <= r.1 < history[r.0].matchups@.len(),
        0 <= r.2 < history[r.0].matchups@[r.1].boards@.len(),
        played_on(
            history[r.0].matchups@[r.1],
            team,
            history[r.0].matchups@[r.1].boards@[r.2],
            ranked(tally(appearances(history, team, mine)))[k],
        ),
        board_weight(history[r.0].matchups@[r.1].boards@[r.2].board, mine) > 0,
{
    broadcast use vstd::seq_lib::group_to_multiset_ensures;

    let games = appearances(history, team, mine);
    let t = tally(games);
    let l = ranked(t);
    law_likeliest_first(t);
    assert(l.contains(l[k]));
    assert(t.to_multiset().count(l[k]) > 0);
    assert(t.contains(l[k]));
    let i = t.index_of(l[k]);
    let j = lemma_tallied_from(games, i);
    lemma_game_of(history, team, mine, j)
}

proof fn lemma_tally_lists(games: Seq<AppearanceView>, j: int) -> (k: int)
    requires
        0 <= j < games.len(),
    ensures
        0 <= k < tally(games).len(),
        tally(games)[k].snr == games[j].snr,
    decreases games.len(),
{
    let d = games.drop_last();
    let front = tally(d);
    let a = games.last();
    let p = first_of(front, a.snr);
    lemma_first_of(front, a.snr);
    lemma_tallied_at(front, a, p);
    if j < d.len() {
        let k = lemma_tally_lists(d, j);
        k
    } else {
        p
    }
}

proof fn lemma_boards_listed(boards: Seq<BoardPairing>, home: bool, mine: u32, b: int) -> (k: int)
    requires
        0 <= b < boards.len(),
        board_weight(boards[b].board, mine) > 0,
    ensures
        0 <= k < board_appearances(boards, home, mine).len(),
        board_appearances(boards, home, mine)[k].snr == if home {
            boards[b].home_snr
        } else {
            boards[b].away_snr
        },
    decreases boards.len(),
{
    let front = boards.drop_last();
    if b < front.len() {
        assert(front[b] == boards[b]);
        lemma_boards_listed(front, home, mine, b)
    } else {
        board_appearances(front, home, mine).len() as int
    }
}

proof fn lemma_matches_listed(ms: Seq<Matchup>, team: Seq<char>, mine: u32, m: int, b: int) -> (k:
    int)
    requires
        0 <= m < ms.len(),
        0 <= b < ms[m].boards@.len(),
        involves(ms[m], team),
        board_weight(ms[m].boards@[b].board, mine) > 0,
    ensures
        0 <= k < match_appearances(ms, team, mine).len(),
        match_appearances(ms, team, mine)[k].snr == if same_team(ms[m].home_team_name@, team) {
            ms[m].boards@[b].home_snr
        } else {
            ms[m].boards@[b].away_snr
        },
    decreases ms.len(),
{
    let front = ms.drop_last();
    if m < front.len() {
        assert(front[m] == ms[m]);
        lemma_matches_listed(front, team, mine, m, b)
    } else {
        let home = same_team(ms[m].home_team_name@, team);
        let k = lemma_boards_listed(ms[m].boards@, home, mine, b);
        k + match_appearances(front, team, mine).len()
    }
}

proof fn lemma_rounds_listed(
    history: Seq<TeamRoundInfo>,
    team: Seq<char>,
    mine: u32,
    r: int,
    m: int,
    b: int,
) -> (k: int)
    requires
        0 <= r < history.len(),
        0 <= m < history[r].matchups@.len(),
        0 <= b < history[r].matchups@[m].boards@.len(),
        involves(history[r].matchups@[m], team),
        board_weight(history[r].matchups@[m].boards@[b].board, mine) > 0,
    ensures
        0 <= k < appearances(history, team, mine).len(),
        appearances(history, team, mine)[k].snr == if same_team(
            history[r].matchups@[m].home_team_name@,
            team,
        ) {
            history[r].matchups@[m].boards@[b].home_snr
        } else {
            history[r].matchups@[m].boards@[b].away_snr
        },
    decreases history.len(),
{
    let front = history.drop_last();
    if r < front.len() {
        assert(front[r] == history[r]);
        lemma_rounds_listed(front, team, mine, r, m, b)
    } else {
        let k = lemma_matches_listed(history[r].matchups@, team, mine, m, b);
        k + appearances(front, team, mine).len()
    }
}

/// Everybody who sat for the other team on this board or next to it is listed.
pub proof fn law_no_opponent_is_left_out(
    history: Seq<TeamRoundInfo>,
    team: Seq<char>,
    mine: u32,
    r: int,
    m: int,
    b: int,
) -> (k: int)
    requires
        0 <= r < history.len(),
        0 <= m < history[r].matchups@.len(),
        0 <= b < history[r].matchups@[m].boards@.len(),
        involves(history[r].matchups@[m], team),
        board_weight(history[r].matchups@[m].boards@[b].board, mine) > 0,
    ensures
        0 <= k < ranked(tally(appearances(history, team, mine))).len(),
        ranked(tally(appearances(history, team, mine)))[k].snr == if same_team(
            history[r].matchups@[m].home_team_name@,
            team,
        ) {
            history[r].matchups@[m].boards@[b].home_snr
        } else {
            history[r].matchups@[m].boards@[b].away_snr
        },
{
    broadcast use vstd::seq_lib::group_to_multiset_ensures;

    let j = lemma_rounds_listed(history, team, mine, r, m, b);
    let games = appearances(history, team, mine);
    let i = lemma_tally_lists(games, j);
    let t = tally(games);
    law_likeliest_first(t);
    assert(t.contains(t[i]));
    assert(ranked(t).to_multiset().count(t[i]) > 0);
    assert(ranked(t).contains(t[i]));
    ranked(t).index_of(t[i])
}

/// A game on the same board counts twice, one on a board next to it once, and others not at
/// all; which of the two boards is which does not matter.
pub proof fn law_near_boards_count(board: u32, mine: u32)
    ensures
        board == mine ==> board_weight(board, mine) == 2,
        board == mine + 1 || mine == board + 1 ==> board_weight(board, mine) == 1,
        board > mine + 1 && board - mine < u32::MAX ==> board_weight(board, mine) == 0,
        mine > board + 1 && mine - board < u32::MAX ==> board_weight(board, mine) == 0,
        board_weight(board, mine) == board_weight(mine, board),
{
}

/// Who has Black at home on the first board has it on all odd boards, and the visitors on all
/// even ones.
pub proof fn law_first_board_sets_the_colours(board: u32)
    ensures
        board % 2 == 1 ==> !has_white(true, board, true) && has_white(false, board, true),
        board % 2 == 0 ==> has_white(true, board, true) && !has_white(false, board, true),
        board % 2 == 1 ==> has_white(true, board, false) && !has_white(false, board, false),
        board % 2 == 0 ==> !has_white(true, board, false) && has_white(false, board, false),
{
}

/// A team is known by any part of its name, whichever of the two is the longer one.
pub proof fn law_teams_are_known_by_parts(a: Seq<char>, part: Seq<char>, b: Seq<char>)
    ensures
        overlap(a + part + b, part),
        overlap(part, a + part + b),
        overlap(part, part),
        same_team(a, b) == same_team(b, a),
{
    text::law_parts_are_found(a, part, b);
    let none = Seq::<char>::empty();
    text::law_parts_are_found(none, part, none);
    assert(none + part + none =~= part);
}

/// The last round is one of the rounds, and none is later.
pub proof fn law_last_round_is_the_highest(pairings: Seq<Pairing>)
    ensures
        pairings.len() == 0 ==> last_round(pairings) == 1,
        forall|i: int|
            0 <= i < pairings.len() ==> (#[trigger] pairings[i]).round <= last_round(pairings),
        pairings.len() > 0 ==> exists|i: int|
            0 <= i < pairings.len() && (#[trigger] pairings[i]).round == last_round(pairings),
    decreases pairings.len(),
{
    if pairings.len() == 1 {
        assert(pairings[0].round == last_round(pairings));
    } else if pairings.len() > 1 {
        let front = pairings.drop_last();
        law_last_round_is_the_highest(front);
        let k = choose|i: int|
            0 <= i < front.len() && (#[trigger] front[i]).round == last_round(front);
        assert(pairings[k] == front[k]);
        assert(pairings[pairings.len() - 1] == pairings.last());
        assert forall|i: int| 0 <= i < pairings.len() implies (#[trigger] pairings[i]).round
            <= last_round(pairings) by {
            if i < front.len() {
                assert(front[i] == pairings[i]);
            }
        }
    }
}

/// The next round is that of the first game without a result.
pub proof fn law_next_round_is_open(pairings: Seq<Pairing>, k: int)
    requires
        0 <= k < pairings.len(),
        pairings[k].result is None,
        forall|i: int| 0 <= i < k ==> (#[trigger] pairings[i]).result is Some,
    ensures
        next_round(pairings) == pairings[k].round,
{
    assert(is_first_open(pairings, k));
    let c = choose|c: int| is_first_open(pairings, c);
    assert(c == k);
}

/// With all games over, the next round is the last one.
pub proof fn law_no_open_round(pairings: Seq<Pairing>)
    requires
        forall|i: int| 0 <= i < pairings.len() ==> (#[trigger] pairings[i]).result is Some,
    ensures
        next_round(pairings) == last_round(pairings),
{
}

/// The opponents of a team are the other side of its match.
pub proof fn law_teams_meet_each_other(m: Matchup, team: Seq<char>)
    ensures
        same_team(m.home_team_name@, team) ==> other_team(m, team) == m.away_team_name@,
        !same_team(m.home_team_name@, team) ==> other_team(m, team) == m.home_team_name@,
{
}

/// A team's standing is its first; a rank of 0 is none.
pub proof fn law_standings_are_found(s: Seq<TeamStanding>, team: Seq<char>, k: int)
    requires
        0 <= k < s.len(),
        same_team(s[k].name@, team),
        forall|i: int| 0 <= i < k ==> !same_team((#[trigger] s[i]).name@, team),
    ensures
        standing_of(s, team) == Some(s[k]),
        average_of(standing_of(s, team)) == s[k].rtg_avg,
        s[k].rank > 0 ==> rank_of(standing_of(s, team)) == Some(s[k].rank),
        s[k].rank == 0 ==> rank_of(standing_of(s, team)) is None,
    decreases s.len(),
{
    if k > 0 {
        assert(!same_team(s[0].name@, team));
        let rest = s.skip(1);
        assert forall|i: int| 0 <= i < k - 1 implies !same_team((#[trigger] rest[i]).name@, team) by {
            assert(rest[i] == s[i + 1]);
        }
        law_standings_are_found(rest, team, k - 1);
    }
}

/// A date and a time stand in one text with a blank between them; a time without a date is
/// none.
pub proof fn law_dates_and_times(date: Seq<char>, time: Seq<char>)
    ensures
        datetime_of(Some(date), Some(time)) == Some(date + " "@ + time),
        datetime_of(Some(date), None) == Some(date),
        datetime_of(None, Some(time)) is None,
        datetime_of(None, None) is None,
{
}

/// What is told of an opponent is what the entry holds.
pub proof fn law_entries_hold_what_is_told(v: Seq<OpponentWeight>, k: int)
    requires
        0 <= k < v.len(),
    ensures
        weight_views(v).len() == v.len(),
        weight_views(v)[k].snr == v[k].snr,
        weight_views(v)[k].name == v[k].name@,
        weight_views(v)[k].rating == v[k].rating,
        weight_views(v)[k].weight == v[k].weight,
{
}

/// The pairing of a round, and the match of a team, is the first of its kind.
pub proof fn law_first_of_their_kind(
    pairings: Seq<Pairing>,
    round: u32,
    ms: Seq<Matchup>,
    team: Seq<char>,
    i: int,
    j: int,
)
    ensures
        is_pairing_of(pairings, round, i) && is_pairing_of(pairings, round, j) ==> i == j
            && pairings[i].round == round,
        is_match_of(ms, team, i) && is_match_of(ms, team, j) ==> i == j && (same_team(
            ms[i].home_team_name@,
            team,
        ) || same_team(ms[i].away_team_name@, team)),
{
}

/// The rounds that are looked back on have been played, and come before the one ahead.
pub proof fn law_rounds_that_are_looked_back_on(r: TeamScheduleRoundDto, round: u32)
    ensures
        played_before(round)(r) <==> r.is_played && r.round < round,
{
}

/// Opponents with the same weight keep their order, and a heavier one goes before lighter
/// ones.
pub proof fn law_ties_keep_their_order(t: Seq<AppearanceView>, a: AppearanceView)
    ensures
        t.len() > 0 && t.last().weight >= a.weight ==> ranked_in(t, a) == t.push(a),
        t.len() > 0 && t.last().weight < a.weight ==> ranked_in(t, a).last() == t.last(),
        ranked_in(Seq::empty(), a) == seq![a],
{
}

/// A player who is in the tally already keeps number, name and rating, and only gains weight;
/// the others stay as they are.
pub proof fn law_tallies_only_gain_weight(t: Seq<AppearanceView>, a: AppearanceView, k: int)
    requires
        0 <= k < t.len(),
    ensures
        tallied(t, a).len() >= t.len(),
        tallied(t, a)[k].snr == t[k].snr,
        tallied(t, a)[k].name == t[k].name,
        tallied(t, a)[k].rating == t[k].rating,
        t[k].snr != a.snr ==> tallied(t, a)[k] == t[k],
        t[k].snr == a.snr && (forall|j: int| 0 <= j < k ==> (#[trigger] t[j]).snr != a.snr)
            ==> tallied(t, a)[k].weight == t[k].weight + a.weight,
        (forall|j: int| 0 <= j < t.len() ==> (#[trigger] t[j]).snr != a.snr) ==> tallied(t, a)
            == t.push(a),
{
    let p = first_of(t, a.snr);
    lemma_first_of(t, a.snr);
    lemma_tallied_at(t, a, p);
}

} // verus!
