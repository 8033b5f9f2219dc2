//! Reading a game of a PGN text, event by event: tags, moves, glyphs, comments and
//! variations come in, and the data of the game comes out.
//!
//! Every move is replayed and written in its one canonical spelling, so that two sources
//! that spell a move differently give the same game. Variations, glyphs and comments are
//! kept in the movetext, but only the main line is counted and indexed.
use crate::chess;
use crate::chess::{
    clone_opt_position, find_san, play, play_san, read_position, start_position, BoardPosition,
    Played, PlayedView, PositionView,
};
use crate::edit;
use crate::edit::opening_of;
use crate::patterns;
use crate::patterns::remove_matches;
use crate::pgn;
use crate::pgn::push_tag;
use crate::positions;
use crate::positions::{push_row, set_next, PositionEntry};
use crate::reporter;
use crate::reporter::clone_opt;
use crate::text;
use crate::text::{
    append_num, chars_of, parse_i64, parse_signed, parse_u32, replaced, same, slice, string_of,
    trimmed,
};
use vstd::prelude::*;
use vstd::string::*;

verus! {

// ── Tags ─────────────────────────────────────────────────────────────────────

/// What the tags of a game have said so far.
#[derive(Debug)]
pub struct Tags {
    pub white: Option<String>,
    pub black: Option<String>,
    pub white_elo: Option<i16>,
    pub black_elo: Option<i16>,
    pub white_fide_id: Option<u32>,
    pub black_fide_id: Option<u32>,
    pub event: Option<String>,
    pub site: Option<String>,
    pub date: Option<String>,
    pub event_date: Option<String>,
    pub round: Option<String>,
    pub result: Option<String>,
    pub eco: Option<String>,
    pub chessbase_id: Option<i64>,
    pub pgn_headers: String,
    pub start_pos: BoardPosition,
    /// Set when the game starts from another position than games do (a fragment, or
    /// Chess960): the importer skips such games.
    pub non_standard: bool,
}

pub struct TagsView {
    pub white: Option<Seq<char>>,
    pub black: Option<Seq<char>>,
    pub white_elo: Option<i16>,
    pub black_elo: Option<i16>,
    pub white_fide_id: Option<u32>,
    pub black_fide_id: Option<u32>,
    pub event: Option<Seq<char>>,
    pub site: Option<Seq<char>>,
    pub date: Option<Seq<char>>,
    pub event_date: Option<Seq<char>>,
    pub round: Option<Seq<char>>,
    pub result: Option<Seq<char>>,
    pub eco: Option<Seq<char>>,
    pub chessbase_id: Option<i64>,
    pub pgn_headers: Seq<char>,
    pub start_pos: PositionView,
    pub non_standard: bool,
}

impl View for Tags {
    type V = TagsView;

    open spec fn view(&self) -> TagsView {
        TagsView {
            white: reporter::opt_text(self.white),
            black: reporter::opt_text(self.black),
            white_elo: self.white_elo,
            black_elo: self.black_elo,
            white_fide_id: self.white_fide_id,
            black_fide_id: self.black_fide_id,
            event: reporter::opt_text(self.event),
            site: reporter::opt_text(self.site),
            date: reporter::opt_text(self.date),
            event_date: reporter::opt_text(self.event_date),
            round: reporter::opt_text(self.round),
            result: reporter::opt_text(self.result),
            eco: reporter::opt_text(self.eco),
            chessbase_id: self.chessbase_id,
            pgn_headers: self.pgn_headers@,
            start_pos: self.start_pos@,
            non_standard: self.non_standard,
        }
    }
}

/// The tags of a game that has none.
pub open spec fn no_tags(start: PositionView) -> TagsView {
    TagsView {
        white: None,
        black: None,
        white_elo: None,
        black_elo: None,
        white_fide_id: None,
        black_fide_id: None,
        event: None,
        site: None,
        date: None,
        event_date: None,
        round: None,
        result: None,
        eco: None,
        chessbase_id: None,
        pgn_headers: Seq::empty(),
        start_pos: start,
        non_standard: false,
    }
}

/// A rating that counts: a positive number that fits.
pub open spec fn positive_rating(v: Seq<char>) -> Option<i16> {
    match text::parse_int(v, 32768, 32767) {
        Some(n) => if n > 0 {
            Some(n as i16)
        } else {
            None
        },
        None => None,
    }
}

pub open spec fn fide_number(v: Seq<char>) -> Option<u32> {
    match text::parse_nat(v, u32::MAX as nat) {
        Some(n) => Some(n as u32),
        None => None,
    }
}

pub open spec fn long_number(v: Seq<char>) -> Option<i64> {
    match text::parse_int(v, 0x8000_0000_0000_0000, 0x7fff_ffff_ffff_ffff) {
        Some(n) => Some(n as i64),
        None => None,
    }
}

/// The tags once it is known where the game starts: `None` where the FEN is not one of
/// standard chess.
pub open spec fn started(t: TagsView, start: Option<PositionView>) -> TagsView {
    match start {
        Some(p) => TagsView {
            start_pos: p,
            non_standard: t.non_standard || !p.standard,
            ..t
        },
        None => TagsView { non_standard: true, ..t },
    }
}

/// The tags after one more tag.
pub open spec fn tagged(t: TagsView, name: Seq<char>, value: Seq<char>) -> TagsView {
    let v = text::trim(value);
    let dashes = text::replace_char(v, '.', '-');
    let t = TagsView { pgn_headers: t.pgn_headers + pgn::tag_line(name, v), ..t };
    if name == "White"@ {
        TagsView { white: Some(v), ..t }
    } else if name == "Black"@ {
        TagsView { black: Some(v), ..t }
    } else if name == "WhiteElo"@ {
        TagsView { white_elo: positive_rating(v), ..t }
    } else if name == "BlackElo"@ {
        TagsView { black_elo: positive_rating(v), ..t }
    } else if name == "WhiteFideId"@ {
        TagsView { white_fide_id: fide_number(v), ..t }
    } else if name == "BlackFideId"@ {
        TagsView { black_fide_id: fide_number(v), ..t }
    } else if name == "Event"@ {
        TagsView { event: Some(v), ..t }
    } else if name == "Site"@ {
        TagsView { site: Some(v), ..t }
    } else if name == "Date"@ || name == "UTCDate"@ {
        TagsView { date: Some(dashes), ..t }
    } else if name == "EventDate"@ {
        TagsView { event_date: Some(dashes), ..t }
    } else if name == "Round"@ {
        TagsView { round: Some(v), ..t }
    } else if name == "Result"@ {
        TagsView { result: Some(v), ..t }
    } else if name == "ECO"@ {
        TagsView { eco: Some(v), ..t }
    } else if name == "GameId"@ {
        TagsView { chessbase_id: long_number(v), ..t }
    } else if name == "FEN"@ {
        started(t, chess::position_of(v))
    } else {
        t
    }
}

fn read_rating(v: &str) -> (r: Option<i16>)
    ensures
        r == positive_rating(v@),
{
    match parse_signed(&chars_of(v), 32768, 32767) {
        Some(n) => if n > 0 {
            Some(n as i16)
        } else {
            None
        },
        None => None,
    }
}

fn with_dashes(v: &str) -> (s: String)
    ensures
        s@ == text::replace_char(v@, '.', '-'),
{
    string_of(&replaced(&chars_of(v), '.', '-'))
}

impl Tags {
    /// Notes where the game starts, from what its FEN came to.
    pub fn set_start(&mut self, start: Option<BoardPosition>)
        ensures
            final(self)@ == started(old(self)@, chess::opt_position(start)),
    {
        match start {
            Some(p) => {
                if !p.standard {
                    self.non_standard = true;
                }
                self.start_pos = p;
            },
            None => {
                self.non_standard = true;
            },
        }
    }
}

// ── Moves ────────────────────────────────────────────────────────────────────

/// What the moves of a game have come to so far.
#[derive(Debug)]
pub struct Movetext {
    pub tags: Tags,
    /// The position from which the next move is replayed to write it, in the main line
    /// or in a variation.
    pub canon_pos: BoardPosition,
    /// The position before the last move written: where a variation branches off, as it
    /// replaces the move just made.
    pub canon_prev: Option<BoardPosition>,
    /// Both of these, for each variation that is open.
    pub canon_stack: Vec<(BoardPosition, Option<BoardPosition>)>,
    /// Cleared by a move that could not be replayed: from there on the game keeps the
    /// spelling it came with, as the position is no longer known.
    pub canon_ok: bool,
    /// The position of the main line, played no further than it is indexed.
    pub board: BoardPosition,
    pub moves_buf: String,
    pub move_count: i16,
    pub positions: Vec<PositionEntry>,
    pub max_position_depth: Option<i16>,
    pub error: bool,
    /// How many variations are open; none on the main line.
    pub variation_depth: usize,
    /// The moves of the main line.
    pub main_sans: Vec<String>,
}

pub struct MovetextView {
    pub tags: TagsView,
    pub canon_pos: PositionView,
    pub canon_prev: Option<PositionView>,
    pub canon_stack: Seq<(PositionView, Option<PositionView>)>,
    pub canon_ok: bool,
    pub board: PositionView,
    pub moves_buf: Seq<char>,
    pub move_count: int,
    pub positions: Seq<positions::EntryView>,
    pub max_position_depth: Option<i16>,
    pub error: bool,
    pub variation_depth: nat,
    pub main_sans: Seq<Seq<char>>,
}

pub open spec fn stack_view(v: Seq<(BoardPosition, Option<BoardPosition>)>) -> Seq<
    (PositionView, Option<PositionView>),
> {
    v.map_values(|e: (BoardPosition, Option<BoardPosition>)| (e.0@, chess::opt_position(e.1)))
}

impl View for Movetext {
    type V = MovetextView;

    open spec fn view(&self) -> MovetextView {
        MovetextView {
            tags: self.tags@,
            canon_pos: self.canon_pos@,
            canon_prev: chess::opt_position(self.canon_prev),
            canon_stack: stack_view(self.canon_stack@),
            canon_ok: self.canon_ok,
            board: self.board@,
            moves_buf: self.moves_buf@,
            move_count: self.move_count as int,
            positions: positions::entries(self.positions@),
            max_position_depth: self.max_position_depth,
            error: self.error,
            variation_depth: self.variation_depth as nat,
            main_sans: text::texts(self.main_sans@),
        }
    }
}

/// The moves of a game before its first one.
pub open spec fn no_moves(tags: TagsView, depth: Option<i16>) -> MovetextView {
    MovetextView {
        tags,
        canon_pos: tags.start_pos,
        canon_prev: None,
        canon_stack: Seq::empty(),
        canon_ok: true,
        board: tags.start_pos,
        moves_buf: Seq::empty(),
        move_count: 0,
        positions: if depth is Some {
            positions::with_row(Seq::empty(), 0, tags.start_pos.hash)
        } else {
            Seq::empty()
        },
        max_position_depth: depth,
        error: false,
        variation_depth: 0,
        main_sans: Seq::empty(),
    }
}

/// A movetext ready for its next word.
pub open spec fn spaced(buf: Seq<char>) -> Seq<char> {
    if buf.len() == 0 {
        buf
    } else {
        buf.push(' ')
    }
}

/// Whether one more move can be counted, where it is to be: in the main line, as long as
/// that can be followed.
pub open spec fn has_room(m: MovetextView) -> bool {
    m.error || m.variation_depth > 0 || m.move_count < i16::MAX
}

/// The main line after a move, spelled `san`, whose outcome on the index's board is
/// `on_board`.
pub open spec fn main_move(m: MovetextView, san: Seq<char>, on_board: Option<PlayedView>) -> MovetextView {
    let n = m.move_count + 1;
    let m = MovetextView { move_count: n, main_sans: m.main_sans.push(san), ..m };
    match m.max_position_depth {
        None => m,
        Some(depth) => {
            let rows = positions::with_next(m.positions, n, depth as int, san);
            if n > depth {
                MovetextView { positions: rows, ..m }
            } else {
                match on_board {
                    Some(p) => MovetextView {
                        board: p.next,
                        positions: positions::with_row(rows, n, p.next.hash),
                        ..m
                    },
                    None => MovetextView { positions: rows, error: true, ..m },
                }
            }
        },
    }
}

/// The moves after one that the source spells `san`, where replaying it came to `played`
/// and making it on the index's board to `on_board`.
pub open spec fn with_san(
    m: MovetextView,
    san: Seq<char>,
    played: Option<PlayedView>,
    on_board: Option<PlayedView>,
) -> MovetextView {
    if m.error {
        m
    } else {
        let known = m.canon_ok && played is Some;
        let spelling = if known {
            played->0.san
        } else {
            san
        };
        let m2 = MovetextView {
            canon_pos: if known {
                played->0.next
            } else {
                m.canon_pos
            },
            canon_prev: if known {
                Some(m.canon_pos)
            } else {
                m.canon_prev
            },
            canon_ok: known,
            moves_buf: spaced(m.moves_buf) + spelling,
            ..m
        };
        if m.variation_depth == 0 {
            main_move(m2, spelling, on_board)
        } else {
            m2
        }
    }
}

/// What making a legal move, in strict SAN, comes to in a position.
pub open spec fn strictly_played(fen: Seq<char>, san: Seq<char>) -> Option<PlayedView> {
    match chess::san_in(fen, san) {
        Some(m) => chess::played_in(fen, m),
        None => None,
    }
}

/// The moves after one that the source spells `san`.
pub open spec fn after_san(m: MovetextView, san: Seq<char>) -> MovetextView {
    with_san(m, san, chess::san_played(m.canon_pos.fen, san), strictly_played(m.board.fen, san))
}

pub open spec fn after_nag(m: MovetextView, nag: u8) -> MovetextView {
    if m.error {
        m
    } else {
        MovetextView {
            moves_buf: spaced(m.moves_buf).push('$') + text::dec(nag as nat),
            ..m
        }
    }
}

/// The evaluation profiles that ChessBase leaves in comments.
pub const EVP_PATTERN: &'static str = "(?i)\\[%evp\\b[^\\]]*\\]";

/// A comment without evaluation profiles.
pub open spec fn stripped(comment: Seq<char>) -> Seq<char> {
    match patterns::without_matches(EVP_PATTERN@, comment) {
        Some(s) => s,
        None => comment,
    }
}

/// The moves after a comment of which `cleaned` is left.
pub open spec fn with_comment(m: MovetextView, cleaned: Seq<char>) -> MovetextView {
    let t = text::trim(cleaned);
    if m.error || t.len() == 0 {
        m
    } else {
        MovetextView {
            moves_buf: (spaced(m.moves_buf).push('{') + t).push('}'),
            ..m
        }
    }
}

pub open spec fn after_comment(m: MovetextView, comment: Seq<char>) -> MovetextView {
    with_comment(m, stripped(comment))
}

/// The moves after the opening of a variation, which starts from the position before the
/// last move.
pub open spec fn after_open(m: MovetextView) -> MovetextView {
    if m.error {
        m
    } else {
        MovetextView {
            moves_buf: spaced(m.moves_buf).push('('),
            variation_depth: m.variation_depth + 1,
            canon_stack: m.canon_stack.push((m.canon_pos, m.canon_prev)),
            canon_pos: match m.canon_prev {
                Some(p) => p,
                None => m.canon_pos,
            },
            canon_prev: None,
            ..m
        }
    }
}

/// The moves after the end of a variation: the game goes on where the variation began.
pub open spec fn after_close(m: MovetextView) -> MovetextView {
    if m.error {
        m
    } else {
        let m2 = MovetextView {
            moves_buf: m.moves_buf.push(')'),
            variation_depth: if m.variation_depth > 0 {
                (m.variation_depth - 1) as nat
            } else {
                0
            },
            ..m
        };
        if m.canon_stack.len() > 0 {
            MovetextView {
                canon_pos: m.canon_stack.last().0,
                canon_prev: m.canon_stack.last().1,
                canon_stack: m.canon_stack.drop_last(),
                ..m2
            }
        } else {
            m2
        }
    }
}

fn push_space(buf: &mut String)
    ensures
        final(buf)@ == spaced(old(buf)@),
{
    if !buf.as_str().is_empty() {
        buf.push(' ');
    }
}

/// Removes ChessBase evaluation profiles from a comment; every other directive stays.
pub fn strip_evp(comment: &str) -> (s: String)
    ensures
        s@ == stripped(comment@),
{
    match remove_matches(EVP_PATTERN, comment) {
        Some(s) => s,
        None => comment.to_owned(),
    }
}

impl Movetext {
    /// Takes a move that the source spells `san`: `played` is what replaying it came to,
    /// `on_board` what making it on the index's board did, which matters only where the
    /// move is indexed.
    pub fn take_san(&mut self, san: &str, played: Option<Played>, on_board: Option<Played>)
        requires
            has_room(old(self)@),
        ensures
            final(self)@ == with_san(
                old(self)@,
                san@,
                match played {
                    Some(p) => Some(p@),
                    None => None,
                },
                match on_board {
                    Some(p) => Some(p@),
                    None => None,
                },
            ),
    {
        if self.error {
            return ;
        }
        let spelling: String = match played {
            Some(p) => if self.canon_ok {
                let before: BoardPosition = self.canon_pos.clone();
                self.canon_prev = Some(before);
                self.canon_pos = p.next;
                p.san
            } else {
                san.to_owned()
            },
            None => {
                self.canon_ok = false;
                san.to_owned()
            },
        };
        push_space(&mut self.moves_buf);
        self.moves_buf.append(spelling.as_str());
        if self.variation_depth == 0 {
            self.move_count = self.move_count + 1;
            let ghost had = text::texts(self.main_sans@);
            self.main_sans.push(spelling.clone());
            assert(text::texts(self.main_sans@) =~= had.push(spelling@));
            match self.max_position_depth {
                None => {},
                Some(depth) => {
                    set_next(&mut self.positions, self.move_count, depth, spelling.as_str());
                    if self.move_count <= depth {
                        match on_board {
                            Some(p) => {
                                push_row(&mut self.positions, self.move_count, p.next.hash);
                                self.board = p.next;
                            },
                            None => {
                                self.error = true;
                            },
                        }
                    }
                },
            }
        }
    }

    /// Takes a comment of which `cleaned` is left: nothing is kept of a blank one.
    pub fn take_comment(&mut self, cleaned: &str)
        ensures
            final(self)@ == with_comment(old(self)@, cleaned@),
    {
        if self.error {
            return ;
        }
        let t: String = trimmed(cleaned);
        if t.as_str().is_empty() {
            return ;
        }
        push_space(&mut self.moves_buf);
        self.moves_buf.push('{');
        self.moves_buf.append(t.as_str());
        self.moves_buf.push('}');
    }
}

// ── The game ─────────────────────────────────────────────────────────────────

/// The data of a game.
#[derive(Debug)]
pub struct GameData {
    pub white: Option<String>,
    pub black: Option<String>,
    pub white_elo: Option<i16>,
    pub black_elo: Option<i16>,
    pub white_fide_id: Option<u32>,
    pub black_fide_id: Option<u32>,
    pub event: Option<String>,
    pub site: Option<String>,
    pub date: Option<String>,
    pub round: Option<String>,
    pub result: Option<String>,
    pub eco: Option<String>,
    pub chessbase_id: Option<i64>,
    pub pgn: String,
    pub opening_line: String,
    pub move_count: i16,
    pub positions: Vec<PositionEntry>,
    pub non_standard: bool,
}

/// How a game is read.
#[derive(Debug)]
pub struct GameVisitor {
    /// Up to which half-move positions are collected; `None` for none at all.
    pub max_position_depth: Option<i16>,
    /// The date of a game that has none of its own: the month of the file that is
    /// imported, as `YYYY-MM-??`.
    pub fallback_date: Option<String>,
}

/// Whether a date begins with a year of four digits that chess can have been played in:
/// from 1000 to the year after this one.
pub open spec fn year_valid(date: Seq<char>, current_year: u32) -> bool {
    date.len() >= 4 && (text::parse_nat(date.take(4), u32::MAX as nat) matches Some(y) && 1000 <= y
        <= current_year + 1)
}

fn has_valid_year(date: &str, current_year: u32) -> (b: bool)
    ensures
        b == year_valid(date@, current_year),
{
    let chars: Vec<char> = chars_of(date);
    if chars.len() < 4 {
        return false;
    }
    let year: Vec<char> = slice(&chars, 0, 4);
    assert(year@ =~= date@.take(4));
    match parse_u32(&year) {
        Some(y) => y >= 1000 && y as u64 <= current_year as u64 + 1,
        None => false,
    }
}

/// The date of a game: its own, else that of the event, as far as they have a valid year,
/// else the one to fall back on.
pub open spec fn resolved_date(
    date: Option<Seq<char>>,
    event_date: Option<Seq<char>>,
    fallback: Option<Seq<char>>,
    current_year: u32,
) -> Option<Seq<char>> {
    if date is Some && year_valid(date->0, current_year) {
        date
    } else if event_date is Some && year_valid(event_date->0, current_year) {
        event_date
    } else {
        fallback
    }
}

fn choose_date(
    date: Option<String>,
    event_date: Option<String>,
    fallback: &Option<String>,
    current_year: u32,
) -> (r: Option<String>)
    ensures
        reporter::opt_text(r) == resolved_date(
            reporter::opt_text(date),
            reporter::opt_text(event_date),
            reporter::opt_text(*fallback),
            current_year,
        ),
{
    if let Some(d) = date {
        if has_valid_year(d.as_str(), current_year) {
            return Some(d);
        }
    }
    if let Some(d) = event_date {
        if has_valid_year(d.as_str(), current_year) {
            return Some(d);
        }
    }
    clone_opt(fallback)
}

/// Whether this is the game that tags and moves make: none where a player has no name.
pub open spec fn is_game(
    r: Option<GameData>,
    m: MovetextView,
    fallback_date: Option<Seq<char>>,
    current_year: u32,
) -> bool {
    let t = m.tags;
    match r {
        None => t.white is None || t.black is None,
        Some(g) => {
            &&& t.white is Some && t.black is Some
            &&& reporter::opt_text(g.white) == t.white
            &&& reporter::opt_text(g.black) == t.black
            &&& g.white_elo == t.white_elo
            &&& g.black_elo == t.black_elo
            &&& g.white_fide_id == t.white_fide_id
            &&& g.black_fide_id == t.black_fide_id
            &&& reporter::opt_text(g.event) == t.event
            &&& reporter::opt_text(g.site) == t.site
            &&& reporter::opt_text(g.date) == resolved_date(
                t.date,
                t.event_date,
                fallback_date,
                current_year,
            )
            &&& reporter::opt_text(g.round) == t.round
            &&& reporter::opt_text(g.result) == t.result
            &&& reporter::opt_text(g.eco) == t.eco
            &&& g.chessbase_id == t.chessbase_id
            &&& g.pgn@ == t.pgn_headers + "\n"@ + m.moves_buf
            &&& g.opening_line@ == text::join(edit::first_ten(m.main_sans), " "@)
            &&& g.move_count == m.move_count
            &&& positions::entries(g.positions@) == m.positions
            &&& g.non_standard == t.non_standard
        },
    }
}

impl GameVisitor {
    pub fn new(max_position_depth: Option<i16>) -> (v: Self)
        ensures
            v.max_position_depth == max_position_depth,
            v.fallback_date is None,
    {
        GameVisitor { max_position_depth, fallback_date: None }
    }

    /// For an import whose file names a month.
    pub fn with_fallback_date(max_position_depth: Option<i16>, fallback_date: Option<String>) -> (v:
        Self)
        ensures
            v.max_position_depth == max_position_depth,
            v.fallback_date == fallback_date,
    {
        GameVisitor { max_position_depth, fallback_date }
    }

    /// A new game, from the starting position unless its tags say otherwise.
    pub fn begin_tags(&self) -> (t: Tags)
        ensures
            chess::position_of(chess::START_FEN@) == Some(t.start_pos@),
            t.start_pos.standard,
            t@ == no_tags(t.start_pos@),
    {
        Tags {
            white: None,
            black: None,
            white_elo: None,
            black_elo: None,
            white_fide_id: None,
            black_fide_id: None,
            event: None,
            site: None,
            date: None,
            event_date: None,
            round: None,
            result: None,
            eco: None,
            chessbase_id: None,
            pgn_headers: String::new(),
            start_pos: start_position(),
            non_standard: false,
        }
    }

    /// Takes a tag.
    pub fn tag(&self, tags: &mut Tags, name: &str, value: &str)
        ensures
            final(tags)@ == tagged(old(tags)@, name@, value@),
    {
        let v: String = trimmed(value);
        push_tag(&mut tags.pgn_headers, name, v.as_str());
        if same(name, "White") {
            tags.white = Some(v);
        } else if same(name, "Black") {
            tags.black = Some(v);
        } else if same(name, "WhiteElo") {
            tags.white_elo = read_rating(v.as_str());
        } else if same(name, "BlackElo") {
            tags.black_elo = read_rating(v.as_str());
        } else if same(name, "WhiteFideId") {
            tags.white_fide_id = parse_u32(&chars_of(v.as_str()));
        } else if same(name, "BlackFideId") {
            tags.black_fide_id = parse_u32(&chars_of(v.as_str()));
        } else if same(name, "Event") {
            tags.event = Some(v);
        } else if same(name, "Site") {
            tags.site = Some(v);
        } else if same(name, "Date") || same(name, "UTCDate") {
            tags.date = Some(with_dashes(v.as_str()));
        } else if same(name, "EventDate") {
            tags.event_date = Some(with_dashes(v.as_str()));
        } else if same(name, "Round") {
            tags.round = Some(v);
        } else if same(name, "Result") {
            tags.result = Some(v);
        } else if same(name, "ECO") {
            tags.eco = Some(v);
        } else if same(name, "GameId") {
            tags.chessbase_id = parse_i64(&chars_of(v.as_str()));
        } else if same(name, "FEN") {
            tags.set_start(read_position(v.as_str()));
        }
    }

    /// The tags are over, the moves begin.
    pub fn begin_movetext(&self, tags: Tags) -> (m: Movetext)
        ensures
            m@ == no_moves(tags@, self.max_position_depth),
    {
        let board: BoardPosition = tags.start_pos.clone();
        let mut positions: Vec<PositionEntry> = Vec::new();
        assert(positions::entries(positions@) =~= Seq::empty());
        if self.max_position_depth.is_some() {
            push_row(&mut positions, 0, board.hash);
        }
        let m = Movetext {
            canon_pos: tags.start_pos.clone(),
            canon_prev: None,
            canon_stack: Vec::new(),
            canon_ok: true,
            board,
            moves_buf: String::new(),
            move_count: 0,
            positions,
            max_position_depth: self.max_position_depth,
            error: false,
            tags,
            variation_depth: 0,
            main_sans: Vec::new(),
        };
        assert(stack_view(m.canon_stack@) =~= Seq::empty());
        assert(text::texts(m.main_sans@) =~= Seq::empty());
        assert(m.moves_buf@ =~= Seq::empty());
        m
    }

    /// Takes a move, in the SAN of the source. A source that says needlessly where a piece
    /// comes from, as in "Nge2", leaves the same game as one that does not: both spell out one
    /// move, and it is stored in its canonical spelling.
    pub fn san(&self, movetext: &mut Movetext, san: &str)
        requires
            has_room(old(movetext)@),
        ensures
            final(movetext)@ == after_san(old(movetext)@, san@),
            forall|short: Seq<char>| #[trigger]
                chess::says_where_from(san@, short) && old(movetext).canon_ok && chess::both_legal(
                    old(movetext)@.canon_pos.fen,
                    san@,
                    short,
                ) && chess::san_played(old(movetext)@.canon_pos.fen, san@) is Some
                    && chess::both_legal(old(movetext)@.board.fen, san@, short) ==> after_san(
                    old(movetext)@,
                    short,
                ) == after_san(old(movetext)@, san@),
    {
        if movetext.error {
            return ;
        }
        let played: Option<Played> = if movetext.canon_ok {
            play_san(movetext.canon_pos.fen.as_str(), san)
        } else {
            None
        };
        let indexed: bool = movetext.variation_depth == 0 && match movetext.max_position_depth {
            Some(depth) => movetext.move_count + 1 <= depth,
            None => false,
        };
        let on_board: Option<Played> = if indexed {
            match find_san(movetext.board.fen.as_str(), san) {
                Some(m) => play(movetext.board.fen.as_str(), m.as_str()),
                None => None,
            }
        } else {
            None
        };
        movetext.take_san(san, played, on_board);
    }

    /// Takes a glyph, such as `$1`.
    pub fn nag(&self, movetext: &mut Movetext, nag: u8)
        ensures
            final(movetext)@ == after_nag(old(movetext)@, nag),
    {
        if movetext.error {
            return ;
        }
        push_space(&mut movetext.moves_buf);
        movetext.moves_buf.push('$');
        append_num(&mut movetext.moves_buf, nag as u64);
    }

    /// Takes a comment. It is kept as it is, but for evaluation profiles.
    pub fn comment(&self, movetext: &mut Movetext, comment: &str)
        ensures
            final(movetext)@ == after_comment(old(movetext)@, comment@),
    {
        if movetext.error {
            return ;
        }
        let cleaned: String = strip_evp(comment);
        movetext.take_comment(cleaned.as_str());
    }

    /// A variation begins; says whether it is to be skipped.
    pub fn begin_variation(&self, movetext: &mut Movetext) -> (skip: bool)
        requires
            old(movetext).variation_depth < usize::MAX,
        ensures
            final(movetext)@ == after_open(old(movetext)@),
            skip == old(movetext).error,
    {
        if movetext.error {
            return true;
        }
        push_space(&mut movetext.moves_buf);
        movetext.moves_buf.push('(');
        movetext.variation_depth = movetext.variation_depth + 1;
        let ghost had = stack_view(movetext.canon_stack@);
        let here: BoardPosition = movetext.canon_pos.clone();
        let prev: Option<BoardPosition> = clone_opt_position(&movetext.canon_prev);
        movetext.canon_stack.push((here, prev));
        assert(stack_view(movetext.canon_stack@) =~= had.push((here@, chess::opt_position(prev))));
        if let Some(p) = clone_opt_position(&movetext.canon_prev) {
            movetext.canon_pos = p;
        }
        movetext.canon_prev = None;
        false
    }

    /// A variation ends.
    pub fn end_variation(&self, movetext: &mut Movetext)
        ensures
            final(movetext)@ == after_close(old(movetext)@),
    {
        if movetext.error {
            return ;
        }
        movetext.moves_buf.push(')');
        if movetext.variation_depth > 0 {
            movetext.variation_depth = movetext.variation_depth - 1;
        }
        let ghost had = stack_view(movetext.canon_stack@);
        if let Some((pos, prev)) = movetext.canon_stack.pop() {
            assert(stack_view(movetext.canon_stack@) =~= had.drop_last());
            assert(had.last() == (pos@, chess::opt_position(prev)));
            movetext.canon_pos = pos;
            movetext.canon_prev = prev;
        } else {
            assert(had.len() == 0);
        }
    }

    /// The game is over. It counts only if both players have a name.
    pub fn end_game(&self, movetext: Movetext, current_year: u32) -> (r: Option<GameData>)
        ensures
            is_game(r, movetext@, reporter::opt_text(self.fallback_date), current_year),
    {
        let opening_line: String = opening_of(&movetext.main_sans);
        let t: Tags = movetext.tags;
        if t.white.is_none() || t.black.is_none() {
            return None;
        }
        let mut pgn: String = t.pgn_headers;
        pgn.append("\n");
        pgn.append(movetext.moves_buf.as_str());
        let date: Option<String> = choose_date(
            t.date,
            t.event_date,
            &self.fallback_date,
            current_year,
        );
        Some(
            GameData {
                white: t.white,
                black: t.black,
                white_elo: t.white_elo,
                black_elo: t.black_elo,
                white_fide_id: t.white_fide_id,
                black_fide_id: t.black_fide_id,
                event: t.event,
                site: t.site,
                date,
                round: t.round,
                result: t.result,
                eco: t.eco,
                chessbase_id: t.chessbase_id,
                pgn,
                opening_line,
                move_count: movetext.move_count,
                positions: movetext.positions,
                non_standard: t.non_standard,
            },
        )
    }
}

// ── Laws ─────────────────────────────────────────────────────────────────────

/// What comes in between the tags and the end of a game.
pub enum MoveEvent {
    San(Seq<char>),
    Nag(u8),
    Comment(Seq<char>),
    Open,
    Close,
}

pub open spec fn after_event(m: MovetextView, e: MoveEvent) -> MovetextView {
    match e {
        MoveEvent::San(s) => after_san(m, s),
        MoveEvent::Nag(n) => after_nag(m, n),
        MoveEvent::Comment(c) => after_comment(m, c),
        MoveEvent::Open => after_open(m),
        MoveEvent::Close => after_close(m),
    }
}

pub open spec fn after_events(m: MovetextView, es: Seq<MoveEvent>) -> MovetextView
    decreases es.len(),
{
    if es.len() == 0 {
        m
    } else {
        after_event(after_events(m, es.drop_last()), es.last())
    }
}

/// How many variations are open after some events.
pub open spec fn open_after(es: Seq<MoveEvent>) -> int
    decreases es.len(),
{
    if es.len() == 0 {
        0
    } else {
        open_after(es.drop_last()) + (if es.last() is Open {
            1int
        } else if es.last() is Close {
            -1
        } else {
            0
        })
    }
}

/// No variation is closed that was not opened.
pub open spec fn is_nested(es: Seq<MoveEvent>) -> bool {
    forall|i: int| 0 <= i <= es.len() ==> open_after(#[trigger] es.take(i)) >= 0
}

/// The moves of the main line among some events.
pub open spec fn main_events(es: Seq<MoveEvent>) -> Seq<MoveEvent>
    decreases es.len(),
{
    if es.len() == 0 {
        Seq::empty()
    } else {
        let front = main_events(es.drop_last());
        if es.last() is San && open_after(es.drop_last()) == 0 {
            front.push(es.last())
        } else {
            front
        }
    }
}

/// Two games have the same main line: moves, count, index rows and all.
pub open spec fn same_main_line(a: MovetextView, b: MovetextView) -> bool {
    &&& a.tags == b.tags
    &&& a.main_sans == b.main_sans
    &&& a.move_count == b.move_count
    &&& a.positions == b.positions
    &&& a.board == b.board
    &&& a.max_position_depth == b.max_position_depth
    &&& a.error == b.error
}

/// A variation is over: the state is as it was before it began, but for the text and for
/// a loss of the position, if there was one.
pub proof fn law_the_game_goes_on_after_a_variation(m: MovetextView, es: Seq<MoveEvent>)
    requires
        is_nested(es),
        open_after(es) == 0,
    ensures
        ({
            let r = after_close(after_events(after_open(m), es));
            r == MovetextView { moves_buf: r.moves_buf, canon_ok: r.canon_ok, ..m }
        }),
{
    lemma_inside(m, es);
    let o = after_open(m);
    let x = after_events(o, es);
    if !m.error {
        let n = m.canon_stack.len() as int;
        assert(x.canon_stack.take(n + 1) =~= x.canon_stack);
        assert(o.canon_stack.drop_last() =~= m.canon_stack);
    }
    let r = after_close(x);
    assert(r =~= MovetextView { moves_buf: r.moves_buf, canon_ok: r.canon_ok, ..m });
}

proof fn lemma_nested_front(es: Seq<MoveEvent>)
    requires
        is_nested(es),
        es.len() > 0,
    ensures
        is_nested(es.drop_last()),
        open_after(es) >= 0,
        open_after(es.drop_last()) >= 0,
{
    assert(es.take(es.len() as int) =~= es);
    assert(es.take(es.len() - 1) =~= es.drop_last());
    assert forall|i: int| 0 <= i <= es.drop_last().len() implies open_after(
        #[trigger] es.drop_last().take(i),
    ) >= 0 by {
        assert(es.drop_last().take(i) =~= es.take(i));
    }
}

/// What holds inside a variation.
proof fn lemma_inside(m: MovetextView, es: Seq<MoveEvent>)
    requires
        is_nested(es),
    ensures
        ({
            let o = after_open(m);
            let x = after_events(o, es);
            if m.error {
                x == m
            } else {
                &&& same_main_line(x, m)
                &&& x.variation_depth == m.variation_depth + 1 + open_after(es)
                &&& x.canon_stack.len() == m.canon_stack.len() + 1 + open_after(es)
                &&& x.canon_stack.take(m.canon_stack.len() as int + 1) == o.canon_stack
            }
        }),
    decreases es.len(),
{
    let o = after_open(m);
    if es.len() == 0 {
        if !m.error {
            assert(o.canon_stack.take(m.canon_stack.len() as int + 1) =~= o.canon_stack);
        }
    } else {
        lemma_nested_front(es);
        lemma_inside(m, es.drop_last());
        let x = after_events(o, es.drop_last());
        let y = after_events(o, es);
        if !m.error {
            let n = m.canon_stack.len() as int + 1;
            assert(y.canon_stack.take(n) =~= x.canon_stack.take(n));
        }
    }
}

/// Once the position is lost it stays lost.
proof fn lemma_lost_stays(m: MovetextView, es: Seq<MoveEvent>)
    requires
        es.len() > 0,
        after_events(m, es).canon_ok,
    ensures
        after_events(m, es.drop_last()).canon_ok,
{
}

/// What holds between a game and its main line alone.
spec fn follows(x: MovetextView, y: MovetextView, open: int) -> bool {
    &&& same_main_line(x, y)
    &&& y.canon_ok
    &&& y.variation_depth == 0
    &&& !x.error ==> {
        &&& x.variation_depth == open
        &&& x.canon_stack.len() == open
        &&& y.canon_pos == (if open == 0 {
            x.canon_pos
        } else {
            x.canon_stack[0].0
        })
    }
}

proof fn lemma_follows(m: MovetextView, es: Seq<MoveEvent>)
    requires
        is_nested(es),
        m.variation_depth == 0,
        m.canon_stack.len() == 0,
        after_events(m, es).canon_ok,
    ensures
        follows(after_events(m, es), after_events(m, main_events(es)), open_after(es)),
    decreases es.len(),
{
    if es.len() > 0 {
        lemma_nested_front(es);
        lemma_lost_stays(m, es);
        lemma_follows(m, es.drop_last());
        let front = main_events(es.drop_last());
        let x = after_events(m, es.drop_last());
        let y = after_events(m, front);
        let x2 = after_events(m, es);
        let y2 = after_events(m, main_events(es));
        if es.last() is San && open_after(es.drop_last()) == 0 {
            let all = front.push(es.last());
            assert(all.drop_last() =~= front);
            assert(all.last() == es.last());
            assert(y2 == after_event(y, es.last()));
        }
    }
}

/// Comments, glyphs and variations do not change the main line: the moves that count, the
/// opening line, the index rows and the number of moves are those of the game without
/// them. This holds of every game in which all moves can be replayed.
pub proof fn law_annotations_do_not_change_the_main_line(m: MovetextView, es: Seq<MoveEvent>)
    requires
        is_nested(es),
        m.variation_depth == 0,
        m.canon_stack.len() == 0,
        after_events(m, es).canon_ok,
    ensures
        same_main_line(after_events(m, es), after_events(m, main_events(es))),
{
    lemma_follows(m, es);
}

/// The moves that are counted are those of the main line, each once.
pub proof fn law_move_count_is_exact(m: MovetextView, es: Seq<MoveEvent>)
    requires
        m.move_count == m.main_sans.len(),
    ensures
        after_events(m, es).move_count == after_events(m, es).main_sans.len(),
    decreases es.len(),
{
    if es.len() > 0 {
        law_move_count_is_exact(m, es.drop_last());
    }
}

/// A move is stored in one spelling: two texts that mean the same move, to the replay and to
/// the index alike, leave the same game behind.
pub proof fn law_spellings_do_not_matter(m: MovetextView, a: Seq<char>, b: Seq<char>)
    requires
        m.canon_ok,
        chess::san_played(m.canon_pos.fen, a) is Some,
        chess::resolved(m.canon_pos.fen, a) == chess::resolved(m.canon_pos.fen, b),
        chess::san_in(m.board.fen, a) == chess::san_in(m.board.fen, b),
    ensures
        after_san(m, a) == after_san(m, b),
        !m.error ==> after_san(m, a).moves_buf == spaced(m.moves_buf) + chess::san_played(
            m.canon_pos.fen,
            a,
        )->0.san,
{
}

// ── Laws of tags ─────────────────────────────────────────────────────────────

/// The names of the tags differ in length or in their first letter.
proof fn lemma_tag_names_differ()
    ensures
        "White"@.len() == 5 && "White"@[0] == 'W',
        "Black"@.len() == 5 && "Black"@[0] == 'B',
        "WhiteElo"@.len() == 8 && "WhiteElo"@[0] == 'W',
        "BlackElo"@.len() == 8 && "BlackElo"@[0] == 'B',
        "WhiteFideId"@.len() == 11 && "WhiteFideId"@[0] == 'W',
        "BlackFideId"@.len() == 11 && "BlackFideId"@[0] == 'B',
        "Event"@.len() == 5 && "Event"@[0] == 'E',
        "Site"@.len() == 4 && "Site"@[0] == 'S',
        "Date"@.len() == 4 && "Date"@[0] == 'D',
        "UTCDate"@.len() == 7 && "UTCDate"@[0] == 'U',
        "EventDate"@.len() == 9 && "EventDate"@[0] == 'E',
        "Round"@.len() == 5 && "Round"@[0] == 'R',
        "Result"@.len() == 6 && "Result"@[0] == 'R',
        "ECO"@.len() == 3 && "ECO"@[0] == 'E',
        "GameId"@.len() == 6 && "GameId"@[0] == 'G',
        "FEN"@.len() == 3 && "FEN"@[0] == 'F',
{
    reveal_strlit("White");
    reveal_strlit("Black");
    reveal_strlit("WhiteElo");
    reveal_strlit("BlackElo");
    reveal_strlit("WhiteFideId");
    reveal_strlit("BlackFideId");
    reveal_strlit("Event");
    reveal_strlit("Site");
    reveal_strlit("Date");
    reveal_strlit("UTCDate");
    reveal_strlit("EventDate");
    reveal_strlit("Round");
    reveal_strlit("Result");
    reveal_strlit("ECO");
    reveal_strlit("GameId");
    reveal_strlit("FEN");
}

/// A rating is taken as it is written, if it is positive, and not otherwise.
pub proof fn law_ratings_read_back(n: int)
    requires
        -32768 <= n <= 32767,
    ensures
        n > 0 ==> positive_rating(text::signed_dec(n)) == Some(n as i16),
        n <= 0 ==> positive_rating(text::signed_dec(n)) is None,
{
    text::law_signed_decimal_reads_back(n, 32768, 32767);
}

/// FIDE numbers and the numbers of games are taken as they are written.
pub proof fn law_numbers_read_back(fide_id: u32, game: i64)
    ensures
        fide_number(text::dec(fide_id as nat)) == Some(fide_id),
        long_number(text::signed_dec(game as int)) == Some(game),
{
    text::law_decimal_reads_back(fide_id as nat, u32::MAX as nat);
    text::law_signed_decimal_reads_back(
        game as int,
        0x8000_0000_0000_0000,
        0x7fff_ffff_ffff_ffff,
    );
}

/// The tags of the players go to the side that they name, and leave the other side alone.
pub proof fn law_players_have_their_own_tags(t: TagsView, value: Seq<char>)
    ensures
        tagged(t, "White"@, value).white == Some(text::trim(value)),
        tagged(t, "White"@, value).black == t.black,
        tagged(t, "Black"@, value).black == Some(text::trim(value)),
        tagged(t, "Black"@, value).white == t.white,
        tagged(t, "WhiteElo"@, value).white_elo == positive_rating(text::trim(value)),
        tagged(t, "WhiteElo"@, value).black_elo == t.black_elo,
        tagged(t, "BlackElo"@, value).black_elo == positive_rating(text::trim(value)),
        tagged(t, "BlackElo"@, value).white_elo == t.white_elo,
        tagged(t, "WhiteFideId"@, value).white_fide_id == fide_number(text::trim(value)),
        tagged(t, "WhiteFideId"@, value).black_fide_id == t.black_fide_id,
        tagged(t, "BlackFideId"@, value).black_fide_id == fide_number(text::trim(value)),
        tagged(t, "BlackFideId"@, value).white_fide_id == t.white_fide_id,
{
    lemma_tag_names_differ();
}

/// The tags of the event and of the game go each to its own place; a date is written with
/// dashes.
pub proof fn law_events_have_their_own_tags(t: TagsView, value: Seq<char>)
    ensures
        tagged(t, "Event"@, value).event == Some(text::trim(value)),
        tagged(t, "Site"@, value).site == Some(text::trim(value)),
        tagged(t, "Round"@, value).round == Some(text::trim(value)),
        tagged(t, "Result"@, value).result == Some(text::trim(value)),
        tagged(t, "ECO"@, value).eco == Some(text::trim(value)),
        tagged(t, "GameId"@, value).chessbase_id == long_number(text::trim(value)),
        tagged(t, "Date"@, value).date == Some(text::replace_char(text::trim(value), '.', '-')),
        tagged(t, "UTCDate"@, value).date == Some(text::replace_char(text::trim(value), '.', '-')),
        tagged(t, "EventDate"@, value).event_date == Some(
            text::replace_char(text::trim(value), '.', '-'),
        ),
        tagged(t, "EventDate"@, value).date == t.date,
{
    lemma_tag_names_differ();
}

/// A tag changes nothing but what it names: a field whose tag this is not stays as it was.
pub proof fn law_tags_leave_the_rest(t: TagsView, name: Seq<char>, value: Seq<char>)
    ensures
        name != "White"@ ==> tagged(t, name, value).white == t.white,
        name != "Black"@ ==> tagged(t, name, value).black == t.black,
        name != "WhiteElo"@ ==> tagged(t, name, value).white_elo == t.white_elo,
        name != "BlackElo"@ ==> tagged(t, name, value).black_elo == t.black_elo,
        name != "WhiteFideId"@ ==> tagged(t, name, value).white_fide_id == t.white_fide_id,
        name != "BlackFideId"@ ==> tagged(t, name, value).black_fide_id == t.black_fide_id,
        name != "Event"@ ==> tagged(t, name, value).event == t.event,
        name != "Site"@ ==> tagged(t, name, value).site == t.site,
        name != "Date"@ && name != "UTCDate"@ ==> tagged(t, name, value).date == t.date,
        name != "EventDate"@ ==> tagged(t, name, value).event_date == t.event_date,
        name != "Round"@ ==> tagged(t, name, value).round == t.round,
        name != "Result"@ ==> tagged(t, name, value).result == t.result,
        name != "ECO"@ ==> tagged(t, name, value).eco == t.eco,
        name != "GameId"@ ==> tagged(t, name, value).chessbase_id == t.chessbase_id,
        name != "FEN"@ ==> tagged(t, name, value).start_pos == t.start_pos && tagged(
            t,
            name,
            value,
        ).non_standard == t.non_standard,
{
}

/// Every tag is kept in the text of the game, in the order in which they come.
pub proof fn law_every_tag_is_kept(t: TagsView, name: Seq<char>, value: Seq<char>)
    ensures
        tagged(t, name, value).pgn_headers == t.pgn_headers + pgn::tag_line(
            name,
            text::trim(value),
        ),
{
}

/// A game starts where its FEN says; one that does not start as standard chess does, or
/// whose FEN is none, is not a standard game, and no later tag makes it one.
pub proof fn law_fen_says_where_a_game_starts(t: TagsView, value: Seq<char>, name: Seq<char>, other: Seq<char>)
    ensures
        ({
            let fen = text::trim(value);
            let r = tagged(t, "FEN"@, value);
            &&& chess::position_of(fen) is None ==> r.non_standard && r.start_pos == t.start_pos
            &&& chess::position_of(fen) matches Some(p) ==> r.start_pos == p && r.non_standard == (
            t.non_standard || !p.standard)
        }),
        t.non_standard ==> tagged(t, name, other).non_standard,
{
    lemma_tag_names_differ();
}

/// A year of four digits counts from the year 1000 to the year after this one.
pub proof fn law_years_in_dates(date: Seq<char>, year: nat, current_year: u32)
    requires
        date.len() >= 4,
        date.take(4) == text::dec(year),
        year <= u32::MAX,
    ensures
        year_valid(date, current_year) <==> 1000 <= year <= current_year + 1,
{
    text::law_decimal_reads_back(year, u32::MAX as nat);
}

/// A game's own date comes before that of its event, and both before the one to fall back
/// on; a date without a valid year does not count.
pub proof fn law_own_date_comes_first(
    date: Seq<char>,
    event_date: Seq<char>,
    fallback: Option<Seq<char>>,
    current_year: u32,
)
    ensures
        year_valid(date, current_year) ==> resolved_date(
            Some(date),
            Some(event_date),
            fallback,
            current_year,
        ) == Some(date),
        !year_valid(date, current_year) && year_valid(event_date, current_year) ==> resolved_date(
            Some(date),
            Some(event_date),
            fallback,
            current_year,
        ) == Some(event_date),
        year_valid(event_date, current_year) ==> resolved_date(
            None,
            Some(event_date),
            fallback,
            current_year,
        ) == Some(event_date),
        !year_valid(date, current_year) ==> resolved_date(Some(date), None, fallback, current_year)
            == fallback,
        resolved_date(None, None, fallback, current_year) == fallback,
{
}

/// A movetext is written word after word: a blank stands before each but the first, a
/// variation and a comment in their brackets, a mark behind its dollar sign.
pub proof fn law_movetext_is_written(m: MovetextView, nag: u8, comment: Seq<char>)
    requires
        !m.error,
        text::trim(comment).len() > 0,
    ensures
        m.moves_buf.len() == 0 ==> {
            &&& after_nag(m, nag).moves_buf == seq!['$'] + text::dec(nag as nat)
            &&& with_comment(m, comment).moves_buf == seq!['{'] + text::trim(comment) + seq!['}']
            &&& after_open(m).moves_buf == seq!['(']
        },
        m.moves_buf.len() > 0 ==> {
            &&& after_nag(m, nag).moves_buf == m.moves_buf + seq![' ', '$'] + text::dec(nag as nat)
            &&& with_comment(m, comment).moves_buf == m.moves_buf + seq![' ', '{'] + text::trim(
                comment,
            ) + seq!['}']
            &&& after_open(m).moves_buf == m.moves_buf + seq![' ', '(']
        },
        after_close(m).moves_buf == m.moves_buf + seq![')'],
        after_nag(m, nag).main_sans == m.main_sans,
        with_comment(m, comment).main_sans == m.main_sans,
{
    let t = text::trim(comment);
    assert(after_nag(m, nag).moves_buf =~= if m.moves_buf.len() == 0 {
        seq!['$'] + text::dec(nag as nat)
    } else {
        m.moves_buf + seq![' ', '$'] + text::dec(nag as nat)
    });
    assert(with_comment(m, comment).moves_buf =~= if m.moves_buf.len() == 0 {
        seq!['{'] + t + seq!['}']
    } else {
        m.moves_buf + seq![' ', '{'] + t + seq!['}']
    });
    assert(after_open(m).moves_buf =~= if m.moves_buf.len() == 0 {
        seq!['(']
    } else {
        m.moves_buf + seq![' ', '(']
    });
    assert(after_close(m).moves_buf =~= m.moves_buf + seq![')']);
}

/// A legal move of the main line is written as chess spells it, counted, and listed; one in
/// a variation is written only.
pub proof fn law_moves_are_noted(m: MovetextView, san: Seq<char>)
    requires
        !m.error,
        m.canon_ok,
        chess::san_played(m.canon_pos.fen, san) is Some,
        m.max_position_depth is None,
    ensures
        ({
            let r = after_san(m, san);
            let p = chess::san_played(m.canon_pos.fen, san)->0;
            &&& r.canon_pos == p.next
            &&& r.canon_prev == Some(m.canon_pos)
            &&& r.canon_ok
            &&& r.moves_buf == (if m.moves_buf.len() == 0 {
                p.san
            } else {
                m.moves_buf + seq![' '] + p.san
            })
            &&& m.variation_depth == 0 ==> r.main_sans == m.main_sans.push(p.san) && r.move_count
                == m.move_count + 1
            &&& m.variation_depth > 0 ==> r.main_sans == m.main_sans && r.move_count == m.move_count
        }),
{
    let p = chess::san_played(m.canon_pos.fen, san)->0;
    assert(m.moves_buf.push(' ') =~= m.moves_buf + seq![' ']);
    assert(Seq::<char>::empty() + p.san =~= p.san);
    if m.moves_buf.len() == 0 {
        assert(spaced(m.moves_buf) + p.san =~= p.san);
    }
}

/// A move that cannot be replayed is written as it stands, and so is all that comes after it
/// in its line.
pub proof fn law_unknown_moves_stay_as_written(m: MovetextView, san: Seq<char>)
    requires
        !m.error,
        !m.canon_ok || chess::san_played(m.canon_pos.fen, san) is None,
    ensures
        !after_san(m, san).canon_ok,
        after_san(m, san).canon_pos == m.canon_pos,
        after_san(m, san).moves_buf == spaced(m.moves_buf) + san,
{
}

/// What is told of the tags is what they hold: each under its own name.
pub proof fn law_tags_hold_what_is_told(t: Tags)
    ensures
        t@.white == reporter::opt_text(t.white),
        t@.black == reporter::opt_text(t.black),
        t@.white_elo == t.white_elo,
        t@.black_elo == t.black_elo,
        t@.white_fide_id == t.white_fide_id,
        t@.black_fide_id == t.black_fide_id,
        t@.event == reporter::opt_text(t.event),
        t@.site == reporter::opt_text(t.site),
        t@.date == reporter::opt_text(t.date),
        t@.event_date == reporter::opt_text(t.event_date),
        t@.round == reporter::opt_text(t.round),
        t@.result == reporter::opt_text(t.result),
        t@.eco == reporter::opt_text(t.eco),
        t@.chessbase_id == t.chessbase_id,
        t@.pgn_headers == t.pgn_headers@,
        t@.non_standard == t.non_standard,
        t@.start_pos == t.start_pos@,
{
}

/// What is told of the moves is what they hold.
pub proof fn law_moves_hold_what_is_told(m: Movetext)
    ensures
        m@.tags == m.tags@,
        m@.canon_pos == m.canon_pos@,
        m@.canon_ok == m.canon_ok,
        m@.board == m.board@,
        m@.moves_buf == m.moves_buf@,
        m@.move_count == m.move_count,
        m@.positions == positions::entries(m.positions@),
        m@.max_position_depth == m.max_position_depth,
        m@.error == m.error,
        m@.variation_depth == m.variation_depth,
{
}

/// A game begins with nothing but its starting position, which has a row where positions are
/// collected.
pub proof fn law_games_begin_empty(t: TagsView, depth: i16)
    ensures
        no_moves(t, None).positions.len() == 0,
        no_moves(t, Some(depth)).positions.len() == 1,
        no_moves(t, Some(depth)).positions[0].0 == 0,
        no_moves(t, Some(depth)).positions[0].1 == positions::stored_hash(t.start_pos.hash),
        no_moves(t, Some(depth)).positions[0].2 is None,
        no_moves(t, None).canon_pos == t.start_pos,
        no_moves(t, None).board == t.start_pos,
        no_moves(t, None).move_count == 0,
        no_moves(t, None).main_sans.len() == 0,
        no_moves(t, None).canon_ok,
        !no_moves(t, None).error,
{
}

/// A move of the main line within the depth ends the row before it with the move, and gets a
/// row of its own for the position behind it; beyond the depth no row comes in.
pub proof fn law_positions_are_collected(m: MovetextView, san: Seq<char>, depth: i16, p: PlayedView)
    requires
        m.max_position_depth == Some(depth),
        m.positions.len() > 0,
        0 <= m.move_count < i16::MAX,
    ensures
        ({
            let n = m.move_count + 1;
            let r = main_move(m, san, Some(p));
            &&& r.move_count == n
            &&& r.main_sans == m.main_sans.push(san)
            &&& n <= depth ==> {
                &&& r.positions.len() == m.positions.len() + 1
                &&& r.positions.last().0 == n
                &&& r.positions.last().1 == positions::stored_hash(p.next.hash)
                &&& r.positions.last().2 is None
                &&& r.positions[m.positions.len() - 1].2 == Some(san)
                &&& r.positions[m.positions.len() - 1].1 == m.positions.last().1
                &&& r.board == p.next
            }
            &&& n > depth ==> r.positions.len() == m.positions.len() && r.board == m.board
            &&& !r.error || m.error
        }),
        ({
            let r = main_move(m, san, None);
            m.move_count + 1 <= depth ==> r.error
        }),
{
}

/// A move has no room only in the main line, and only where as many were counted as can be.
pub proof fn law_when_there_is_room(m: MovetextView)
    ensures
        !has_room(m) <==> !m.error && m.variation_depth == 0 && m.move_count >= 32767,
{
}

} // verus!
