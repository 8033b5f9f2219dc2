//! Games, players, sources and the database as they are shown on the terminal.
use crate::names;
use crate::names::normalize_name;
use crate::progress;
use crate::progress::thousands;
use crate::text;
use crate::text::{append_num, debug_text, same, signed_decimal};
use vstd::prelude::*;
use vstd::string::*;

verus! {

/// A text, or another in its place.
pub open spec fn or_else(s: Option<String>, other: Seq<char>) -> Seq<char> {
    match s {
        Some(s) => s@,
        None => other,
    }
}

fn append_or(out: &mut String, s: &Option<String>, other: &str)
    ensures
        final(out)@ == old(out)@ + or_else(*s, other@),
{
    match s {
        Some(s) => out.append(s.as_str()),
        None => out.append(other),
    }
}

fn append_signed(out: &mut String, n: i64)
    ensures
        final(out)@ == old(out)@ + text::signed_dec(n as int),
{
    let d: String = signed_decimal(n);
    out.append(d.as_str());
}

// ── Games ────────────────────────────────────────────────────────────────────

/// A game as it is listed.
#[derive(Debug)]
pub struct GameSummary {
    pub id: u32,
    pub white: String,
    pub black: String,
    pub white_elo: Option<i16>,
    pub black_elo: Option<i16>,
    pub event: Option<String>,
    pub date: Option<String>,
    pub result: Option<String>,
    pub eco: Option<String>,
    pub move_count: Option<i16>,
    pub opening_line: Option<String>,
    pub pgn: Option<String>,
}

pub open spec fn elo_text(e: Option<i16>) -> Seq<char> {
    match e {
        Some(e) => text::signed_dec(e as int),
        None => "-"@,
    }
}

fn append_elo(out: &mut String, e: Option<i16>)
    ensures
        final(out)@ == old(out)@ + elo_text(e),
{
    match e {
        Some(e) => append_signed(out, e as i64),
        None => out.append("-"),
    }
}

/// A game in a list.
pub open spec fn game_row(g: GameSummary) -> Seq<char> {
    "["@ + text::dec(g.id as nat) + "] "@ + g.white@ + " ("@ + elo_text(g.white_elo) + ") vs "@
        + g.black@ + " ("@ + elo_text(g.black_elo) + ")  "@ + or_else(g.result, "-"@) + "  "@
        + or_else(g.date, "-"@) + "  "@ + or_else(g.event, "-"@) + "  "@ + or_else(g.eco, "-"@)
        + "  "@ + text::signed_dec(
        match g.move_count {
            Some(n) => n as int,
            None => 0,
        },
    ) + " moves"@
}

impl GameSummary {
    /// The game's row in a list.
    pub fn row(&self) -> (r: String)
        ensures
            r@ == game_row(*self),
    {
        let mut r: String = "[".to_owned();
        append_num(&mut r, self.id as u64);
        r.append("] ");
        r.append(self.white.as_str());
        r.append(" (");
        append_elo(&mut r, self.white_elo);
        r.append(") vs ");
        r.append(self.black.as_str());
        r.append(" (");
        append_elo(&mut r, self.black_elo);
        r.append(")  ");
        append_or(&mut r, &self.result, "-");
        r.append("  ");
        append_or(&mut r, &self.date, "-");
        r.append("  ");
        append_or(&mut r, &self.event, "-");
        r.append("  ");
        append_or(&mut r, &self.eco, "-");
        r.append("  ");
        let n: i64 = match self.move_count {
            Some(n) => n as i64,
            None => 0,
        };
        append_signed(&mut r, n);
        r.append(" moves");
        r
    }
}

/// A game that is about to be deleted; what is not known is written in another way.
pub fn delete_row(
    id: u32,
    white: &str,
    black: &str,
    date: &Option<String>,
    event: &Option<String>,
    unknown: &str,
) -> (r: String)
    ensures
        r@ == "["@ + text::dec(id as nat) + "] "@ + white@ + " vs "@ + black@ + "  "@ + or_else(
            *date,
            unknown@,
        ) + "  "@ + or_else(*event, unknown@),
{
    let mut r: String = "[".to_owned();
    append_num(&mut r, id as u64);
    r.append("] ");
    r.append(white);
    r.append(" vs ");
    r.append(black);
    r.append("  ");
    append_or(&mut r, date, unknown);
    r.append("  ");
    append_or(&mut r, event, unknown);
    r
}

/// What a list of games shows of one of them.
pub open spec fn listed(g: GameSummary, as_pgn: bool, show_moves: bool) -> Seq<Seq<char>> {
    if as_pgn {
        match g.pgn {
            Some(p) => seq![p@ + "\n"@],
            None => Seq::empty(),
        }
    } else {
        seq![game_row(g)] + (if show_moves && g.opening_line is Some {
            seq!["  "@ + g.opening_line->0@]
        } else {
            Seq::empty()
        })
    }
}

pub open spec fn all_listed(gs: Seq<GameSummary>, as_pgn: bool, show_moves: bool) -> Seq<Seq<char>>
    decreases gs.len(),
{
    if gs.len() == 0 {
        Seq::empty()
    } else {
        all_listed(gs.drop_last(), as_pgn, show_moves) + listed(gs.last(), as_pgn, show_moves)
    }
}

/// The lines of a list of games: the games, and how many there are, unless it is for
/// another program.
pub fn list_games(games: &[GameSummary], as_pgn: bool, show_moves: bool, limit: u32) -> (out: Vec<
    String,
>)
    ensures
        text::texts(out@) == all_listed(games@, as_pgn, show_moves) + (if as_pgn {
            Seq::empty()
        } else {
            seq![
                "\n"@ + text::dec(games@.len()) + " game(s) found (limit "@ + text::dec(
                    limit as nat,
                ) + ")"@,
            ]
        }),
{
    let mut out: Vec<String> = Vec::new();
    let mut i: usize = 0;
    proof {
        assert(games@.take(0) =~= Seq::empty());
        assert(text::texts(out@) =~= Seq::empty());
    }
    while i < games.len()
        invariant
            i <= games.len(),
            text::texts(out@) == all_listed(games@.take(i as int), as_pgn, show_moves),
        decreases games.len() - i,
    {
        let g: &GameSummary = &games[i];
        let ghost before = text::texts(out@);
        proof {
            let t = games@.take(i + 1);
            assert(t.drop_last() =~= games@.take(i as int));
            assert(t.last() == *g);
        }
        if as_pgn {
            match &g.pgn {
                Some(p) => {
                    let mut line: String = p.clone();
                    line.append("\n");
                    out.push(line);
                    assert(text::texts(out@) =~= before + seq![line@]);
                },
                None => {
                    assert(before + Seq::<Seq<char>>::empty() =~= before);
                },
            }
        } else {
            let row: String = g.row();
            out.push(row);
            assert(text::texts(out@) =~= before + seq![row@]);
            let ghost mid = text::texts(out@);
            match &g.opening_line {
                Some(l) => {
                    if show_moves {
                        let mut line: String = "  ".to_owned();
                        line.append(l.as_str());
                        out.push(line);
                        assert(text::texts(out@) =~= before + (seq![row@] + seq![line@]));
                    } else {
                        assert(seq![row@] + Seq::<Seq<char>>::empty() =~= seq![row@]);
                    }
                },
                None => {
                    assert(seq![row@] + Seq::<Seq<char>>::empty() =~= seq![row@]);
                },
            }
        }
        i += 1;
    }
    assert(games@.take(i as int) =~= games@);
    let ghost before = text::texts(out@);
    if !as_pgn {
        let mut line: String = "\n".to_owned();
        append_num(&mut line, games.len() as u64);
        line.append(" game(s) found (limit ");
        append_num(&mut line, limit as u64);
        line.append(")");
        out.push(line);
        assert(text::texts(out@) =~= before + seq![line@]);
    } else {
        assert(before + Seq::<Seq<char>>::empty() =~= before);
    }
    out
}

// ── Players ──────────────────────────────────────────────────────────────────

/// A player as it is listed.
#[derive(Debug)]
pub struct PlayerInfo {
    pub id: u32,
    pub name: String,
    pub fide_id: Option<u32>,
    pub game_count: i64,
}

pub open spec fn fide_text(f: Option<u32>) -> Seq<char> {
    match f {
        Some(f) => text::dec(f as nat),
        None => "-"@,
    }
}

/// A player in a list.
pub open spec fn player_row(p: PlayerInfo) -> Seq<char> {
    "["@ + text::dec(p.id as nat) + "] "@ + p.name@ + "  FIDE: "@ + fide_text(p.fide_id)
        + "  games: "@ + text::signed_dec(p.game_count as int)
}

impl PlayerInfo {
    /// The player's row in a list.
    pub fn row(&self) -> (r: String)
        ensures
            r@ == player_row(*self),
    {
        let mut r: String = "[".to_owned();
        append_num(&mut r, self.id as u64);
        r.append("] ");
        r.append(self.name.as_str());
        r.append("  FIDE: ");
        match self.fide_id {
            Some(f) => append_num(&mut r, f as u64),
            None => r.append("-"),
        }
        r.append("  games: ");
        append_signed(&mut r, self.game_count);
        r
    }
}

/// Whether a player is exactly of a name.
pub open spec fn is_named(p: PlayerInfo, name: Seq<char>) -> bool {
    names::normalized(p.name@) == names::normalized(name)
}

pub open spec fn named(name: Seq<char>) -> spec_fn(PlayerInfo) -> bool {
    |p: PlayerInfo| is_named(p, name)
}

/// The places of the players that are exactly of a name.
pub fn exact_matches(players: &[PlayerInfo], name: &str) -> (out: Vec<usize>)
    ensures
        forall|i: int| 0 <= i < out.len() ==> (#[trigger] out@[i]) < players.len(),
        out@.map_values(|i: usize| players@[i as int]) == players@.filter(named(name@)),
{
    let want: String = normalize_name(name);
    let mut out: Vec<usize> = Vec::new();
    let mut i: usize = 0;
    proof {
        reveal(Seq::filter);
        assert(players@.take(0) =~= Seq::empty());
        assert(out@.map_values(|i: usize| players@[i as int]) =~= Seq::empty());
    }
    while i < players.len()
        invariant
            i <= players.len(),
            want@ == names::normalized(name@),
            forall|k: int| 0 <= k < out.len() ==> (#[trigger] out@[k]) < i,
            out@.map_values(|i: usize| players@[i as int]) == players@.take(i as int).filter(
                named(name@),
            ),
        decreases players.len() - i,
    {
        let ghost before = out@.map_values(|i: usize| players@[i as int]);
        proof {
            reveal(Seq::filter);
            let t = players@.take(i + 1);
            assert(t.drop_last() =~= players@.take(i as int));
            assert(t.last() == players@[i as int]);
        }
        let have: String = normalize_name(players[i].name.as_str());
        if same(have.as_str(), want.as_str()) {
            out.push(i);
            assert(out@.map_values(|i: usize| players@[i as int]) =~= before.push(
                players@[i as int],
            ));
        }
        i += 1;
    }
    assert(players@.take(i as int) =~= players@);
    out
}

/// Finds the one player that is exactly of a name.
pub fn resolve_exact_player(players: &[PlayerInfo], name: &str) -> (r: Result<usize, String>)
    ensures
        match r {
            Ok(i) => i < players.len() && players@.filter(named(name@)) == seq![players@[i as int]],
            Err(m) => players@.filter(named(name@)).len() != 1 && m@ == (if players@.filter(
                named(name@),
            ).len() == 0 {
                "no player exactly named "@ + text::debug_form(name@)
            } else {
                text::dec(players@.filter(named(name@)).len()) + " players exactly named "@
                    + text::debug_form(name@) + " — merge by id instead"@
            }),
        },
{
    let found: Vec<usize> = exact_matches(players, name);
    let ghost all = players@.filter(named(name@));
    assert(all.len() == found@.len());
    let shown: String = debug_text(name);
    let r: Result<usize, String> = only_match(&found, shown.as_str());
    proof {
        if found.len() == 1 {
            assert(all[0] == players@[found@[0] as int]);
            assert(all =~= seq![players@[found@[0] as int]]);
        }
    }
    r
}

/// The only place of a player that is exactly of a name, which is shown so.
pub fn only_match(found: &[usize], shown: &str) -> (r: Result<usize, String>)
    ensures
        match r {
            Ok(i) => found@ == seq![i],
            Err(m) => found@.len() != 1 && m@ == (if found@.len() == 0 {
                "no player exactly named "@ + shown@
            } else {
                text::dec(found@.len()) + " players exactly named "@ + shown@
                    + " — merge by id instead"@
            }),
        },
{
    if found.len() == 1 {
        let i: usize = found[0];
        assert(found@ =~= seq![i]);
        return Ok(i);
    }
    if found.len() == 0 {
        let mut m: String = "no player exactly named ".to_owned();
        m.append(shown);
        return Err(m);
    }
    let mut m: String = text::decimal(found.len() as u64);
    m.append(" players exactly named ");
    m.append(shown);
    m.append(" — merge by id instead");
    Err(m)
}

pub open spec fn player_rows(ps: Seq<PlayerInfo>) -> Seq<Seq<char>> {
    ps.map_values(|p: PlayerInfo| player_row(p))
}

/// The players that a search shows: all that were found, or those exactly of a name.
pub open spec fn shown_players(ps: Seq<PlayerInfo>, name: Seq<char>, exact: bool) -> Seq<PlayerInfo> {
    if exact && name.len() > 0 {
        ps.filter(named(name))
    } else {
        ps
    }
}

/// The lines of a search for players: the players, or the number of the only one.
pub fn list_players(players: &[PlayerInfo], name: &str, exact: bool, id_only: bool) -> (r: Result<
    Vec<String>,
    String,
>)
    ensures
        lists_players(r, shown_players(players@, name@, exact), id_only),
{
    let places: Vec<usize> = if exact && !name.is_empty() {
        exact_matches(players, name)
    } else {
        all_places(players)
    };
    list_places(players, &places, id_only)
}

/// Whether these are the lines for the players that are shown.
pub open spec fn lists_players(
    r: Result<Vec<String>, String>,
    shown: Seq<PlayerInfo>,
    id_only: bool,
) -> bool {
    match r {
        Ok(lines) => if id_only {
            shown.len() == 1 && text::texts(lines@) == seq![text::dec(shown[0].id as nat)]
        } else if shown.len() == 0 {
            text::texts(lines@) == seq!["No players found."@]
        } else {
            text::texts(lines@) == player_rows(shown)
        },
        Err(m) => id_only && shown.len() != 1 && m@ == (if shown.len() == 0 {
            "no player matched"@
        } else {
            text::dec(shown.len()) + " players matched — narrow the search for --id-only"@
        }),
    }
}

/// The lines for the players at some places.
pub fn list_places(players: &[PlayerInfo], places: &[usize], id_only: bool) -> (r: Result<
    Vec<String>,
    String,
>)
    requires
        forall|i: int| 0 <= i < places@.len() ==> (#[trigger] places@[i]) < players@.len(),
    ensures
        lists_players(r, places@.map_values(|i: usize| players@[i as int]), id_only),
{
    let ghost shown = places@.map_values(|i: usize| players@[i as int]);
    let mut lines: Vec<String> = Vec::new();
    if id_only {
        if places.len() == 1 {
            assert(shown[0] == players@[places@[0] as int]);
            lines.push(text::decimal(players[places[0]].id as u64));
            assert(text::texts(lines@) =~= seq![text::dec(shown[0].id as nat)]);
            return Ok(lines);
        }
        if places.len() == 0 {
            return Err("no player matched".to_owned());
        }
        let mut m: String = text::decimal(places.len() as u64);
        m.append(" players matched — narrow the search for --id-only");
        return Err(m);
    }
    if places.len() == 0 {
        lines.push("No players found.".to_owned());
        assert(text::texts(lines@) =~= seq!["No players found."@]);
        return Ok(lines);
    }
    let ghost want = player_rows(shown);
    let mut i: usize = 0;
    while i < places.len()
        invariant
            i <= places.len(),
            forall|k: int| 0 <= k < places.len() ==> (#[trigger] places@[k]) < players.len(),
            places@.map_values(|i: usize| players@[i as int]) == shown,
            want == player_rows(shown),
            lines@.len() == i,
            forall|k: int| 0 <= k < i ==> (#[trigger] lines@[k])@ == want[k],
        decreases places.len() - i,
    {
        let ghost seen = places@.map_values(|i: usize| players@[i as int]);
        assert(seen[i as int] == players@[places@[i as int] as int]);
        lines.push(players[places[i]].row());
        i += 1;
    }
    assert(text::texts(lines@) =~= want);
    Ok(lines)
}

fn all_places(players: &[PlayerInfo]) -> (out: Vec<usize>)
    ensures
        forall|i: int| 0 <= i < out.len() ==> (#[trigger] out@[i]) < players.len(),
        out@.map_values(|i: usize| players@[i as int]) == players@,
{
    let mut out: Vec<usize> = Vec::new();
    let mut i: usize = 0;
    while i < players.len()
        invariant
            i <= players.len(),
            out@.len() == i,
            forall|k: int| 0 <= k < i ==> (#[trigger] out@[k]) == k,
        decreases players.len() - i,
    {
        out.push(i);
        i += 1;
    }
    assert(out@.map_values(|i: usize| players@[i as int]) =~= players@);
    out
}

// ── The database ─────────────────────────────────────────────────────────────

/// What a server says of its database.
#[derive(Debug)]
pub struct StatusInfo {
    pub version: String,
    pub games: i64,
    pub players: i64,
    pub positions: i64,
    pub issues: i64,
    pub local_imports: Option<i64>,
    pub deleted_games: Option<i64>,
    pub last_twic_issue: Option<i64>,
    pub last_twic_published: Option<String>,
}

pub open spec fn or_zero(n: Option<i64>) -> i64 {
    match n {
        Some(n) => n,
        None => 0,
    }
}

/// The lines that say how a database is.
pub open spec fn status_texts(s: StatusInfo) -> Seq<Seq<char>> {
    seq![
        "=== Chess DB Status (server v"@ + s.version@ + ") ==="@,
        "Games:           "@ + progress::grouped(s.games as int),
        "Players:         "@ + progress::grouped(s.players as int),
        "Positions:       "@ + progress::grouped(s.positions as int),
        "TWIC issues:     "@ + progress::grouped(s.issues as int),
        "Local imports:   "@ + progress::grouped(or_zero(s.local_imports) as int),
    ] + (match s.last_twic_issue {
        Some(n) => seq![
            "Latest TWIC:     #"@ + text::signed_dec(n as int) + (match s.last_twic_published {
                Some(d) => " ("@ + d@ + ")"@,
                None => ""@,
            }),
        ],
        None => Seq::empty(),
    }) + (if or_zero(s.deleted_games) > 0 {
        seq!["Soft-deleted:    "@ + progress::grouped(or_zero(s.deleted_games) as int)]
    } else {
        Seq::empty()
    })
}

fn push_line(out: &mut Vec<String>, label: &str, rest: &str)
    ensures
        text::texts(final(out)@) == text::texts(old(out)@).push(label@ + rest@),
{
    let ghost before = out@;
    let mut m: String = label.to_owned();
    m.append(rest);
    out.push(m);
    assert(text::texts(out@) =~= text::texts(before).push(label@ + rest@));
}

fn push_count(out: &mut Vec<String>, label: &str, n: i64)
    ensures
        text::texts(final(out)@) == text::texts(old(out)@).push(
            label@ + progress::grouped(n as int),
        ),
{
    let d: String = thousands(n);
    push_line(out, label, d.as_str());
}

fn count_or_zero(n: Option<i64>) -> (r: i64)
    ensures
        r == or_zero(n),
{
    match n {
        Some(n) => n,
        None => 0,
    }
}

/// Says how a database is.
pub fn status_lines(s: &StatusInfo) -> (out: Vec<String>)
    ensures
        text::texts(out@) == status_texts(*s),
{
    let mut out: Vec<String> = Vec::new();
    assert(text::texts(out@) =~= Seq::empty());
    let mut head: String = s.version.clone();
    head.append(") ===");
    push_line(&mut out, "=== Chess DB Status (server v", head.as_str());
    assert("=== Chess DB Status (server v"@ + (s.version@ + ") ==="@)
        =~= "=== Chess DB Status (server v"@ + s.version@ + ") ==="@);
    push_count(&mut out, "Games:           ", s.games);
    push_count(&mut out, "Players:         ", s.players);
    push_count(&mut out, "Positions:       ", s.positions);
    push_count(&mut out, "TWIC issues:     ", s.issues);
    push_count(&mut out, "Local imports:   ", count_or_zero(s.local_imports));
    match s.last_twic_issue {
        Some(n) => {
            let mut m: String = signed_decimal(n);
            match &s.last_twic_published {
                Some(d) => {
                    m.append(" (");
                    m.append(d.as_str());
                    m.append(")");
                    assert("Latest TWIC:     #"@ + m@ =~= "Latest TWIC:     #"@ + text::signed_dec(
                        n as int,
                    ) + (" ("@ + d@ + ")"@));
                },
                None => {
                    proof {
                        reveal_strlit("");
                    }
                    assert("Latest TWIC:     #"@ + m@ =~= "Latest TWIC:     #"@ + text::signed_dec(
                        n as int,
                    ) + ""@);
                },
            }
            push_line(&mut out, "Latest TWIC:     #", m.as_str());
        },
        None => {},
    }
    let deleted: i64 = count_or_zero(s.deleted_games);
    if deleted > 0 {
        push_count(&mut out, "Soft-deleted:    ", deleted);
    }
    assert(text::texts(out@) =~= status_texts(*s));
    out
}

/// How much a database holds.
#[derive(Debug)]
pub struct DatabaseCounts {
    pub listed: i64,
    pub downloaded: i64,
    pub imported: i64,
    pub games: i64,
    pub players: i64,
    pub positions: i64,
}

/// What is said of a database that is read directly; its size is given as it is written.
pub open spec fn database_texts(size: Option<Seq<char>>, c: DatabaseCounts) -> Seq<Seq<char>> {
    seq![
        "=== Chess DB Status ==="@,
        "Database size:     "@ + match size {
            Some(t) => t,
            None => "unknown"@,
        },
        "Issues tracked:    "@ + text::signed_dec(c.listed as int),
        "  Downloaded:      "@ + text::signed_dec(c.downloaded as int),
        "  Imported:        "@ + text::signed_dec(c.imported as int),
        "Games:             "@ + text::signed_dec(c.games as int),
        "Players:           "@ + text::signed_dec(c.players as int),
        "Positions indexed: "@ + text::signed_dec(c.positions as int),
    ]
}

fn push_number(out: &mut Vec<String>, label: &str, n: i64)
    ensures
        text::texts(final(out)@) == text::texts(old(out)@).push(
            label@ + text::signed_dec(n as int),
        ),
{
    let d: String = signed_decimal(n);
    push_line(out, label, d.as_str());
}

/// Says how a database is that is read directly.
pub fn database_status(size: Option<&str>, c: &DatabaseCounts) -> (out: Vec<String>)
    ensures
        text::texts(out@) == database_texts(
            match size {
                Some(t) => Some(t@),
                None => None,
            },
            *c,
        ),
{
    let mut out: Vec<String> = Vec::new();
    assert(text::texts(out@) =~= Seq::empty());
    push_line(&mut out, "=== Chess DB Status ===", "");
    proof {
        reveal_strlit("");
        assert("=== Chess DB Status ==="@ + ""@ =~= "=== Chess DB Status ==="@);
    }
    match size {
        Some(t) => push_line(&mut out, "Database size:     ", t),
        None => push_line(&mut out, "Database size:     ", "unknown"),
    }
    push_number(&mut out, "Issues tracked:    ", c.listed);
    push_number(&mut out, "  Downloaded:      ", c.downloaded);
    push_number(&mut out, "  Imported:        ", c.imported);
    push_number(&mut out, "Games:             ", c.games);
    push_number(&mut out, "Players:           ", c.players);
    push_number(&mut out, "Positions indexed: ", c.positions);
    assert(text::texts(out@) =~= database_texts(
        match size {
            Some(t) => Some(t@),
            None => None,
        },
        *c,
    ));
    out
}

// ── Sources ──────────────────────────────────────────────────────────────────

/// A text, filled up with spaces to a width.
pub open spec fn padded(s: Seq<char>, width: int) -> Seq<char> {
    if s.len() >= width {
        s
    } else {
        s + Seq::new((width - s.len()) as nat, |i: int| ' ')
    }
}

fn append_padded(out: &mut String, s: &str, width: usize)
    ensures
        final(out)@ == old(out)@ + padded(s@, width as int),
{
    let ghost before = out@;
    out.append(s);
    let mut n: usize = text::chars_of(s).len();
    let ghost mid = out@;
    let ghost k: int = 0;
    while n < width
        invariant
            k >= 0,
            n >= s@.len(),
            n == s@.len() + k,
            n <= width || k == 0,
            out@ == mid + Seq::new(k as nat, |i: int| ' '),
        decreases width - n,
    {
        out.append(" ");
        n += 1;
        proof {
            reveal_strlit(" ");
            assert(mid + Seq::new(k as nat, |i: int| ' ') + " "@ =~= mid + Seq::new(
                (k + 1) as nat,
                |i: int| ' ',
            ));
            k = k + 1;
        }
    }
    assert(out@ =~= before + padded(s@, width as int));
}

/// A source of games as it is listed.
#[derive(Debug)]
pub struct SourceStatus {
    pub key: String,
    pub name: String,
    pub kind: String,
    pub enabled: bool,
    pub items: i64,
    pub last_status: Option<String>,
}

pub open spec fn on_off(b: bool) -> Seq<char> {
    if b {
        "on"@
    } else {
        "off"@
    }
}

/// The columns that every list of sources has.
pub open spec fn source_columns(s: SourceStatus) -> Seq<char> {
    padded(s.key@, 10) + " "@ + padded(s.name@, 22) + " "@ + padded(s.kind@, 5) + " "@ + padded(
        on_off(s.enabled),
        8,
    ) + " items="@ + padded(text::signed_dec(s.items as int), 7) + " "@
}

/// Which games of a source are kept.
pub open spec fn window_text(from: Option<String>, to: Option<String>) -> Seq<char> {
    if from is None && to is None {
        "all dates"@
    } else {
        or_else(from, "…"@) + ".."@ + or_else(to, "now"@)
    }
}

fn append_columns(out: &mut String, s: &SourceStatus)
    ensures
        final(out)@ == old(out)@ + source_columns(*s),
{
    let ghost before = out@;
    append_padded(out, s.key.as_str(), 10);
    out.append(" ");
    append_padded(out, s.name.as_str(), 22);
    out.append(" ");
    append_padded(out, s.kind.as_str(), 5);
    out.append(" ");
    append_padded(
        out,
        if s.enabled {
            "on"
        } else {
            "off"
        },
        8,
    );
    out.append(" items=");
    let n: String = signed_decimal(s.items);
    append_padded(out, n.as_str(), 7);
    out.append(" ");
    assert(out@ =~= before + source_columns(*s));
}

/// A source in a list; with its window where that is known.
pub fn source_line(s: &SourceStatus, window: Option<(Option<String>, Option<String>)>) -> (r: String)
    ensures
        r@ == source_columns(*s) + (match window {
            Some(w) => "window="@ + padded(window_text(w.0, w.1), 22) + " "@,
            None => ""@,
        }) + or_else(s.last_status, ""@),
{
    let mut r: String = String::new();
    append_columns(&mut r, s);
    assert(r@ =~= source_columns(*s));
    match window {
        Some((from, to)) => {
            let mut w: String = "all dates".to_owned();
            if from.is_some() || to.is_some() {
                w = String::new();
                append_or(&mut w, &from, "…");
                assert(w@ =~= or_else(from, "…"@));
                w.append("..");
                append_or(&mut w, &to, "now");
            }
            r.append("window=");
            append_padded(&mut r, w.as_str(), 22);
            r.append(" ");
            assert(r@ =~= source_columns(*s) + ("window="@ + padded(window_text(from, to), 22)
                + " "@));
        },
        None => {
            proof {
                reveal_strlit("");
            }
            assert(r@ =~= source_columns(*s) + ""@);
        },
    }
    append_or(&mut r, &s.last_status, "");
    r
}

// ── Laws of lists ────────────────────────────────────────────────────────────

/// What is shown of a game stands in its row: number, both players with their own ratings,
/// and what is known of the game, each in its place.
pub proof fn law_rows_show_the_game(g: GameSummary, n: i16)
    requires
        g.white_elo is Some && g.black_elo is Some && g.result is Some && g.date is Some && g.event
            is Some && g.eco is Some && g.move_count is Some,
    ensures
        game_row(g) == "["@ + text::dec(g.id as nat) + "] "@ + g.white@ + " ("@ + text::signed_dec(
            g.white_elo->0 as int,
        ) + ") vs "@ + g.black@ + " ("@ + text::signed_dec(g.black_elo->0 as int) + ")  "@
            + g.result->0@ + "  "@ + g.date->0@ + "  "@ + g.event->0@ + "  "@ + g.eco->0@ + "  "@
            + text::signed_dec(g.move_count->0 as int) + " moves"@,
        elo_text(Some(n)) == text::signed_dec(n as int),
        elo_text(None) == "-"@,
{
}

/// Games are listed one behind the other, in their order.
pub proof fn law_games_are_listed_in_order(
    a: Seq<GameSummary>,
    b: Seq<GameSummary>,
    as_pgn: bool,
    show_moves: bool,
)
    ensures
        all_listed(a + b, as_pgn, show_moves) == all_listed(a, as_pgn, show_moves) + all_listed(
            b,
            as_pgn,
            show_moves,
        ),
    decreases b.len(),
{
    if b.len() == 0 {
        assert(a + b =~= a);
        assert(all_listed(a, as_pgn, show_moves) + all_listed(b, as_pgn, show_moves)
            =~= all_listed(a, as_pgn, show_moves));
    } else {
        assert((a + b).drop_last() =~= a + b.drop_last());
        law_games_are_listed_in_order(a, b.drop_last(), as_pgn, show_moves);
        assert(all_listed(a + b, as_pgn, show_moves) =~= all_listed(a, as_pgn, show_moves)
            + all_listed(b, as_pgn, show_moves));
    }
}

/// A game that is listed as PGN is its text, and one without a text is left out.
pub proof fn law_pgn_lists_are_texts(g: GameSummary, show_moves: bool)
    ensures
        g.pgn is Some ==> listed(g, true, show_moves) == seq![g.pgn->0@ + "\n"@],
        g.pgn is None ==> listed(g, true, show_moves).len() == 0,
        listed(g, false, show_moves).len() >= 1,
        listed(g, false, show_moves)[0] == game_row(g),
{
}

/// A player's row shows number, name, FIDE ID and the count of games.
pub proof fn law_rows_show_the_player(p: PlayerInfo)
    ensures
        p.fide_id is Some ==> player_row(p) == "["@ + text::dec(p.id as nat) + "] "@ + p.name@
            + "  FIDE: "@ + text::dec(p.fide_id->0 as nat) + "  games: "@ + text::signed_dec(
            p.game_count as int,
        ),
        p.fide_id is None ==> player_row(p) == "["@ + text::dec(p.id as nat) + "] "@ + p.name@
            + "  FIDE: "@ + "-"@ + "  games: "@ + text::signed_dec(p.game_count as int),
{
}

/// An exact search shows those of the name, and only them; any other shows all.
pub proof fn law_exact_searches(ps: Seq<PlayerInfo>, name: Seq<char>, p: PlayerInfo)
    ensures
        shown_players(ps, name, false) == ps,
        name.len() == 0 ==> shown_players(ps, name, true) == ps,
        name.len() > 0 ==> (shown_players(ps, name, true).contains(p) <==> ps.contains(p)
            && names::normalized(p.name@) == names::normalized(name)),
{
    broadcast use vstd::seq_lib::group_filter_ensures;

    let kept = ps.filter(named(name));
    if ps.contains(p) && is_named(p, name) {
        let i = ps.index_of(p);
        assert(named(name)(ps[i]));
        assert(kept.contains(ps[i]));
    }
    if kept.contains(p) {
        ps.lemma_filter_contains_rev(named(name), p);
        let i = kept.index_of(p);
        assert(named(name)(kept[i]));
    }
}

/// A padded text begins with itself, is as wide as asked for unless it is wider, and has
/// blanks behind it.
pub proof fn law_padding(s: Seq<char>, width: int, k: int)
    requires
        0 <= width,
    ensures
        s.len() >= width ==> padded(s, width) == s,
        s.len() < width ==> padded(s, width).len() == width,
        0 <= k < s.len() ==> padded(s, width)[k] == s[k],
        s.len() <= k < width ==> padded(s, width)[k] == ' ',
{
}

/// A status says each count under its own heading.
pub proof fn law_status_has_its_counts(s: StatusInfo)
    ensures
        status_texts(s).len() >= 6,
        status_texts(s)[1] == "Games:           "@ + progress::grouped(s.games as int),
        status_texts(s)[2] == "Players:         "@ + progress::grouped(s.players as int),
        status_texts(s)[3] == "Positions:       "@ + progress::grouped(s.positions as int),
        status_texts(s)[4] == "TWIC issues:     "@ + progress::grouped(s.issues as int),
        s.local_imports is Some ==> status_texts(s)[5] == "Local imports:   "@ + progress::grouped(
            s.local_imports->0 as int,
        ),
        s.last_twic_issue is None && s.deleted_games is None ==> status_texts(s).len() == 6,
        s.last_twic_issue is Some && s.deleted_games is None ==> status_texts(s).len() == 7,
{
}

/// The counts of a database that is read directly, each under its own heading.
pub proof fn law_database_has_its_counts(size: Option<Seq<char>>, c: DatabaseCounts)
    ensures
        database_texts(size, c).len() == 8,
        size is Some ==> database_texts(size, c)[1] == "Database size:     "@ + size->0,
        size is None ==> database_texts(size, c)[1] == "Database size:     "@ + "unknown"@,
        database_texts(size, c)[2] == "Issues tracked:    "@ + text::signed_dec(c.listed as int),
        database_texts(size, c)[3] == "  Downloaded:      "@ + text::signed_dec(
            c.downloaded as int,
        ),
        database_texts(size, c)[4] == "  Imported:        "@ + text::signed_dec(c.imported as int),
        database_texts(size, c)[5] == "Games:             "@ + text::signed_dec(c.games as int),
        database_texts(size, c)[6] == "Players:           "@ + text::signed_dec(c.players as int),
        database_texts(size, c)[7] == "Positions indexed: "@ + text::signed_dec(c.positions as int),
{
}

/// A window without ends takes all dates; with ends it is shown from one to the other.
pub proof fn law_windows_are_shown(from: String, to: String)
    ensures
        window_text(None, None) == "all dates"@,
        window_text(Some(from), Some(to)) == from@ + ".."@ + to@,
        window_text(Some(from), None) == from@ + ".."@ + "now"@,
        window_text(None, Some(to)) == "…"@ + ".."@ + to@,
        on_off(true) == "on"@,
        on_off(false) == "off"@,
{
}

/// A list of players has a line for each; a number alone is told only of a single player.
pub proof fn law_lists_have_a_line_for_each(
    r: Result<Vec<String>, String>,
    shown: Seq<PlayerInfo>,
    id_only: bool,
    k: int,
)
    requires
        lists_players(r, shown, id_only),
    ensures
        r is Err <==> id_only && shown.len() != 1,
        id_only && shown.len() == 1 ==> r is Ok && text::texts(r->Ok_0@) == seq![
            text::dec(shown[0].id as nat),
        ],
        !id_only && shown.len() == 0 ==> r is Ok && text::texts(r->Ok_0@) == seq![
            "No players found."@,
        ],
        !id_only && 0 <= k < shown.len() ==> r is Ok && text::texts(r->Ok_0@).len() == shown.len()
            && text::texts(r->Ok_0@)[k] == player_row(shown[k]),
{
}

/// The columns of a source: key, name, kind, state and count.
pub proof fn law_columns_of_sources(s: SourceStatus)
    ensures
        s.enabled ==> source_columns(s) == padded(s.key@, 10) + " "@ + padded(s.name@, 22) + " "@
            + padded(s.kind@, 5) + " "@ + padded("on"@, 8) + " items="@ + padded(
            text::signed_dec(s.items as int),
            7,
        ) + " "@,
        !s.enabled ==> source_columns(s) == padded(s.key@, 10) + " "@ + padded(s.name@, 22) + " "@
            + padded(s.kind@, 5) + " "@ + padded("off"@, 8) + " items="@ + padded(
            text::signed_dec(s.items as int),
            7,
        ) + " "@,
{
}

} // verus!
