//! Reading a game from its text: what pgn_reader finds in it, in order, and the game and the
//! index rows that come of it.
//!
//! A move that cannot be made ends the index of a game. Variations behind it are skipped, and
//! what is in them is not looked at, so that not even a broken comment there does harm.
use crate::chess;
use crate::importer;
use crate::importer::{position_rows, PositionRow};
use crate::pgn;
use crate::pgn::{header_lines_are_closed, repair_pgn_header_quotes};
use crate::positions;
use crate::reporter;
use crate::text;
use crate::text::utf8_text;
use crate::visitor;
use crate::visitor::{GameData, GameVisitor, MoveEvent, Movetext, MovetextView, Tags, TagsView};
use pgn_reader::{Nag, RawComment, RawTag, Reader, SanPlus, Skip, Visitor};
use std::io::Cursor;
use std::ops::ControlFlow;
use vstd::prelude::*;

verus! {

// ── What is found in a text ──────────────────────────────────────────────────

/// What comes in the movetext of a game.
#[derive(Debug)]
pub enum PgnEvent {
    /// A move, in the SAN of the source.
    San(String),
    Nag(u8),
    Comment(String),
    Open,
    Close,
}

impl View for PgnEvent {
    type V = MoveEvent;

    open spec fn view(&self) -> MoveEvent {
        match self {
            PgnEvent::San(s) => MoveEvent::San(s@),
            PgnEvent::Nag(n) => MoveEvent::Nag(*n),
            PgnEvent::Comment(c) => MoveEvent::Comment(c@),
            PgnEvent::Open => MoveEvent::Open,
            PgnEvent::Close => MoveEvent::Close,
        }
    }
}

/// What is found of a game, in order: its tags, by name and value, and its movetext.
#[derive(Debug)]
pub struct GameEvents {
    pub tags: Vec<(String, String)>,
    pub moves: Vec<PgnEvent>,
    /// Whether a game is there, and can be read to its end.
    pub complete: bool,
}

pub struct EventsView {
    pub tags: Seq<(Seq<char>, Seq<char>)>,
    pub moves: Seq<MoveEvent>,
    pub complete: bool,
}

pub open spec fn tag_views(v: Seq<(String, String)>) -> Seq<(Seq<char>, Seq<char>)> {
    v.map_values(|t: (String, String)| (t.0@, t.1@))
}

pub open spec fn move_events(v: Seq<PgnEvent>) -> Seq<MoveEvent> {
    v.map_values(|e: PgnEvent| e@)
}

impl View for GameEvents {
    type V = EventsView;

    open spec fn view(&self) -> EventsView {
        EventsView {
            tags: tag_views(self.tags@),
            moves: move_events(self.moves@),
            complete: self.complete,
        }
    }
}

/// Notes what is found. It goes into so many variations, and skips those behind them.
struct Collector {
    events: GameEvents,
    keep: usize,
    opened: usize,
}

/// Nothing is noted yet.
spec fn is_new(c: Collector) -> bool {
    c.opened == 0 && c.events@ == (EventsView {
        tags: Seq::empty(),
        moves: Seq::empty(),
        complete: false,
    })
}

impl Collector {
    fn new(keep: usize) -> (c: Self)
        ensures
            c.keep == keep,
            is_new(c),
    {
        let events = GameEvents { tags: Vec::new(), moves: Vec::new(), complete: false };
        assert(events@.tags =~= Seq::empty());
        assert(events@.moves =~= Seq::empty());
        Collector { events, keep, opened: 0 }
    }

    /// Notes a tag. One whose name is no text has none; one whose value is no text is left
    /// out.
    fn note_tag(&mut self, name: Option<String>, value: Option<String>)
        ensures
            final(self).keep == old(self).keep,
            final(self).opened == old(self).opened,
            final(self).events@ == (match value {
                Some(v) => EventsView {
                    tags: old(self).events@.tags.push(
                        (
                            match name {
                                Some(n) => n@,
                                None => ""@,
                            },
                            v@,
                        ),
                    ),
                    ..old(self).events@
                },
                None => old(self).events@,
            }),
    {
        let name: String = match name {
            Some(n) => n,
            None => "".to_owned(),
        };
        if let Some(v) = value {
            let ghost had = tag_views(self.events.tags@);
            self.events.tags.push((name, v));
            assert(tag_views(self.events.tags@) =~= had.push((name@, v@)));
        }
    }

    /// Notes what comes in the movetext.
    fn note(&mut self, e: PgnEvent)
        ensures
            final(self).keep == old(self).keep,
            final(self).opened == old(self).opened,
            final(self).events@ == (EventsView {
                moves: old(self).events@.moves.push(e@),
                ..old(self).events@
            }),
    {
        let ghost had = move_events(self.events.moves@);
        self.events.moves.push(e);
        assert(move_events(self.events.moves@) =~= had.push(e@));
    }

    /// Notes that a variation begins; says whether it is skipped.
    fn open(&mut self) -> (skip: bool)
        ensures
            skip == (old(self).opened >= old(self).keep),
            final(self).keep == old(self).keep,
            final(self).opened == (if skip {
                old(self).opened as int
            } else {
                old(self).opened + 1
            }),
            final(self).events@ == (EventsView {
                moves: old(self).events@.moves.push(MoveEvent::Open),
                ..old(self).events@
            }),
    {
        self.note(PgnEvent::Open);
        if self.opened >= self.keep {
            true
        } else {
            self.opened = self.opened + 1;
            false
        }
    }
}

// ── Trusted: pgn_reader ──────────────────────────────────────────────────────

/// pgn_reader's `RawTag`: the value of a tag as it stands in the text.
#[verifier::external_type_specification]
#[verifier::external_body]
pub struct ExRawTag<'a>(RawTag<'a>);

/// pgn_reader's `RawComment`: a comment as it stands in the text.
#[verifier::external_type_specification]
#[verifier::external_body]
pub struct ExRawComment<'a>(RawComment<'a>);

/// shakmaty's `SanPlus`: a move as SAN writes it, with its mark of a check or mate.
#[verifier::external_type_specification]
#[verifier::external_body]
pub struct ExSanPlus(SanPlus);

/// pgn_reader's `Nag`: a glyph.
#[verifier::external_type_specification]
#[verifier::external_body]
pub struct ExNag(Nag);

/// pgn_reader's `Skip`: whether a variation is skipped.
#[verifier::external_type_specification]
#[verifier::external_body]
pub struct ExSkip(Skip);

/// `RawTag::decode_utf8`, where it gives a text. What it gives is part of [`events_in`].
#[verifier::external_body]
fn tag_text(value: RawTag<'_>) -> (r: Option<String>) {
    value.decode_utf8().ok().map(|v| v.into_owned())
}

/// `RawComment::as_bytes`, read by `String::from_utf8_lossy`. What it gives is part of
/// [`events_in`].
#[verifier::external_body]
fn comment_text(comment: RawComment<'_>) -> (r: String) {
    String::from_utf8_lossy(comment.as_bytes()).into_owned()
}

/// `SanPlus`, written by its `Display`. What it gives is part of [`events_in`].
#[verifier::external_body]
fn san_text(san: SanPlus) -> (r: String) {
    san.to_string()
}

/// The number of a `Nag`. What it is, is part of [`events_in`].
#[verifier::external_body]
fn nag_number(nag: Nag) -> (r: u8) {
    nag.0
}

/// A `Skip`, for pgn_reader to read.
#[verifier::external_body]
fn skipping(skip: bool) -> (r: Skip) {
    Skip(skip)
}

impl Visitor for Collector {
    type Tags = ();

    type Movetext = ();

    type Output = ();

    fn begin_tags(&mut self) -> ControlFlow<(), ()> {
        ControlFlow::Continue(())
    }

    fn tag(&mut self, _tags: &mut (), name: &[u8], value: RawTag<'_>) -> ControlFlow<()> {
        self.note_tag(utf8_text(name), tag_text(value));
        ControlFlow::Continue(())
    }

    fn begin_movetext(&mut self, _tags: ()) -> ControlFlow<(), ()> {
        ControlFlow::Continue(())
    }

    fn san(&mut self, _m: &mut (), san: SanPlus) -> ControlFlow<()> {
        self.note(PgnEvent::San(san_text(san)));
        ControlFlow::Continue(())
    }

    fn nag(&mut self, _m: &mut (), nag: Nag) -> ControlFlow<()> {
        self.note(PgnEvent::Nag(nag_number(nag)));
        ControlFlow::Continue(())
    }

    fn comment(&mut self, _m: &mut (), comment: RawComment<'_>) -> ControlFlow<()> {
        self.note(PgnEvent::Comment(comment_text(comment)));
        ControlFlow::Continue(())
    }

    fn begin_variation(&mut self, _m: &mut ()) -> ControlFlow<(), Skip> {
        let skip: bool = self.open();
        ControlFlow::Continue(skipping(skip))
    }

    fn end_variation(&mut self, _m: &mut ()) -> ControlFlow<()> {
        self.note(PgnEvent::Close);
        ControlFlow::Continue(())
    }

    fn end_game(&mut self, _m: ()) {
        self.events.complete = true;
    }
}

/// What pgn_reader finds of the first game of a text, up to where it can be read, if it goes
/// into so many variations and skips those behind them.
pub uninterp spec fn events_in(pgn: Seq<char>, keep: usize) -> EventsView;

/// `Reader::read_game` on a text in memory, with a [`Collector`] that notes what the reader
/// finds, named [`events_in`] here: a function of the text and of the number of variations
/// that are gone into.
#[verifier::external_body]
fn collect(c: &mut Collector, pgn: &str)
    requires
        is_new(*old(c)),
    ensures
        final(c).events@ == events_in(pgn@, old(c).keep),
{
    let _ = Reader::new(Cursor::new(pgn.as_bytes())).read_game(c);
}

/// Finds what is in the first game of a text, if it goes into so many variations and skips
/// those behind them.
pub fn read_events(pgn: &str, keep: usize) -> (r: GameEvents)
    ensures
        r@ == events_in(pgn@, keep),
{
    let mut c: Collector = Collector::new(keep);
    collect(&mut c, pgn);
    c.events
}

// ── The game ─────────────────────────────────────────────────────────────────

/// The tags after some more.
pub open spec fn all_tagged(t: TagsView, tags: Seq<(Seq<char>, Seq<char>)>) -> TagsView
    decreases tags.len(),
{
    if tags.len() == 0 {
        t
    } else {
        visitor::tagged(all_tagged(t, tags.drop_last()), tags.last().0, tags.last().1)
    }
}

/// A game with these tags before its first move.
pub open spec fn before_moves(tags: Seq<(Seq<char>, Seq<char>)>, depth: Option<i16>) -> MovetextView {
    let start = chess::position_of(chess::START_FEN@)->0;
    visitor::no_moves(all_tagged(visitor::no_tags(start), tags), depth)
}

/// What is found of a game, taken from the first tag to the last move.
pub open spec fn followed(e: EventsView, depth: Option<i16>) -> MovetextView {
    visitor::after_events(before_moves(e.tags, depth), e.moves)
}

/// Whether a move cannot be counted for want of a number.
pub open spec fn stops_at(m: MovetextView, es: Seq<MoveEvent>, i: int) -> bool {
    es[i] is San && !visitor::has_room(visitor::after_events(m, es.take(i)))
}

/// Whether the main line of a game, as far as it can be followed, has more moves than can be
/// counted.
pub open spec fn is_too_long(e: EventsView, depth: Option<i16>) -> bool {
    exists|i: int| 0 <= i < e.moves.len() && stops_at(before_moves(e.tags, depth), e.moves, i)
}

/// How many variations begin among some events.
pub open spec fn opens(es: Seq<MoveEvent>) -> nat
    decreases es.len(),
{
    if es.len() == 0 {
        0
    } else {
        opens(es.drop_last()) + (if es.last() is Open {
            1nat
        } else {
            0
        })
    }
}

/// How many variations begin before the first move that cannot be made, if there is one.
pub open spec fn opens_before_loss(m: MovetextView, es: Seq<MoveEvent>) -> Option<nat>
    decreases es.len(),
{
    if es.len() == 0 {
        None
    } else {
        match opens_before_loss(m, es.drop_last()) {
            Some(n) => Some(n),
            None => if visitor::after_events(m, es).error {
                Some(opens(es))
            } else {
                None
            },
        }
    }
}

/// The main line has more moves than can be counted.
#[derive(Clone, Copy, PartialEq, Eq, Structural, Debug)]
pub struct TooManyMoves;

proof fn lemma_taken(m: MovetextView, es: Seq<MoveEvent>, i: int)
    requires
        0 <= i < es.len(),
    ensures
        es.take(i + 1).drop_last() == es.take(i),
        es.take(i + 1).last() == es[i],
        visitor::after_events(m, es.take(i + 1)) == visitor::after_event(
            visitor::after_events(m, es.take(i)),
            es[i],
        ),
{
    assert(es.take(i + 1).drop_last() =~= es.take(i));
}

fn take_tags(v: &GameVisitor, events: &GameEvents) -> (m: Movetext)
    ensures
        m@ == before_moves(events@.tags, v.max_position_depth),
{
    let mut tags: Tags = v.begin_tags();
    let ghost all = events@.tags;
    let ghost none = tags@;
    assert(all.take(0) =~= Seq::empty());
    let mut i: usize = 0;
    while i < events.tags.len()
        invariant
            i <= events.tags.len(),
            all == tag_views(events.tags@),
            tags@ == all_tagged(none, all.take(i as int)),
        decreases events.tags.len() - i,
    {
        let t: &(String, String) = &events.tags[i];
        proof {
            assert(all[i as int] == (t.0@, t.1@));
            assert(all.take(i + 1).drop_last() =~= all.take(i as int));
        }
        v.tag(&mut tags, t.0.as_str(), t.1.as_str());
        i += 1;
    }
    assert(all.take(i as int) =~= all);
    v.begin_movetext(tags)
}

/// Follows a game to its end; gives also how many variations begin before the first move that
/// cannot be made.
fn follow(v: &GameVisitor, events: &GameEvents) -> (r: Result<(Movetext, Option<usize>), TooManyMoves>)
    ensures
        match r {
            Ok(f) => {
                &&& !is_too_long(events@, v.max_position_depth)
                &&& f.0@ == followed(events@, v.max_position_depth)
                &&& match opens_before_loss(
                    before_moves(events@.tags, v.max_position_depth),
                    events@.moves,
                ) {
                    Some(n) => f.1 == Some(n as usize) && n <= usize::MAX,
                    None => f.1 is None,
                }
            },
            Err(_) => is_too_long(events@, v.max_position_depth),
        },
{
    let mut m: Movetext = take_tags(v, events);
    let ghost start = m@;
    let ghost es = events@.moves;
    let mut opened: usize = 0;
    let mut lost: Option<usize> = None;
    let mut i: usize = 0;
    assert(es.take(0) =~= Seq::empty());
    while i < events.moves.len()
        invariant
            i <= events.moves.len(),
            es == events@.moves,
            es == move_events(events.moves@),
            start == before_moves(events@.tags, v.max_position_depth),
            m@ == visitor::after_events(start, es.take(i as int)),
            m.variation_depth <= i,
            opened <= i,
            opened == opens(es.take(i as int)),
            match opens_before_loss(start, es.take(i as int)) {
                Some(n) => lost == Some(n as usize) && n <= usize::MAX,
                None => lost is None,
            },
            forall|k: int| 0 <= k < i ==> !stops_at(start, es, k),
        decreases events.moves.len() - i,
    {
        proof {
            lemma_taken(start, es, i as int);
            assert(es[i as int] == events.moves@[i as int]@);
        }
        match &events.moves[i] {
            PgnEvent::San(s) => {
                if !m.error && m.variation_depth == 0 && m.move_count == i16::MAX {
                    assert(stops_at(start, es, i as int));
                    return Err(TooManyMoves);
                }
                v.san(&mut m, s.as_str());
            },
            PgnEvent::Nag(n) => {
                v.nag(&mut m, *n);
            },
            PgnEvent::Comment(c) => {
                v.comment(&mut m, c.as_str());
            },
            PgnEvent::Open => {
                let _skip: bool = v.begin_variation(&mut m);
                opened = opened + 1;
            },
            PgnEvent::Close => {
                v.end_variation(&mut m);
            },
        }
        if lost.is_none() && m.error {
            lost = Some(opened);
        }
        i += 1;
    }
    assert(es.take(i as int) =~= es);
    Ok((m, lost))
}

/// Whether this is the game that was found: none where it is not complete, or a player has no
/// name.
pub open spec fn is_found(g: Option<GameData>, e: EventsView, v: GameVisitor, year: u32) -> bool {
    if e.complete {
        visitor::is_game(
            g,
            followed(e, v.max_position_depth),
            reporter::opt_text(v.fallback_date),
            year,
        )
    } else {
        g is None
    }
}

fn game_from(v: &GameVisitor, complete: bool, m: Movetext, year: u32) -> (g: Option<GameData>)
    ensures
        if complete {
            visitor::is_game(g, m@, reporter::opt_text(v.fallback_date), year)
        } else {
            g is None
        },
{
    if complete {
        v.end_game(m, year)
    } else {
        None
    }
}

/// The game that was found.
pub fn game_of(v: &GameVisitor, events: &GameEvents, year: u32) -> (r: Result<
    Option<GameData>,
    TooManyMoves,
>)
    ensures
        match r {
            Ok(g) => !is_too_long(events@, v.max_position_depth) && is_found(g, events@, *v, year),
            Err(_) => is_too_long(events@, v.max_position_depth),
        },
{
    match follow(v, events) {
        Ok((m, _lost)) => Ok(game_from(v, events.complete, m, year)),
        Err(e) => Err(e),
    }
}

/// What is found of a game if no variation is skipped.
pub open spec fn all_events(pgn: Seq<char>) -> EventsView {
    events_in(pgn, usize::MAX)
}

/// What is found of a game: variations behind the first move that cannot be made are skipped.
pub open spec fn seen_events(pgn: Seq<char>, depth: Option<i16>) -> EventsView {
    let all = all_events(pgn);
    match opens_before_loss(before_moves(all.tags, depth), all.moves) {
        Some(n) => events_in(pgn, n as usize),
        None => all,
    }
}

/// Whether the main line of a text's first game has more moves than can be counted.
pub open spec fn text_is_too_long(pgn: Seq<char>, depth: Option<i16>) -> bool {
    is_too_long(all_events(pgn), depth) || is_too_long(seen_events(pgn, depth), depth)
}

/// Reads the first game of a text.
pub fn read_game(v: &GameVisitor, pgn: &str, year: u32) -> (r: Result<Option<GameData>, TooManyMoves>)
    ensures
        match r {
            Ok(g) => !text_is_too_long(pgn@, v.max_position_depth) && is_found(
                g,
                seen_events(pgn@, v.max_position_depth),
                *v,
                year,
            ),
            Err(_) => text_is_too_long(pgn@, v.max_position_depth),
        },
{
    let all: GameEvents = read_events(pgn, usize::MAX);
    match follow(v, &all) {
        Ok((m, None)) => Ok(game_from(v, all.complete, m, year)),
        Ok((_, Some(n))) => game_of(v, &read_events(pgn, n), year),
        Err(e) => Err(e),
    }
}

// ── The index rows ───────────────────────────────────────────────────────────

/// An index row, as values.
pub open spec fn row_view(r: PositionRow) -> (u32, positions::EntryView) {
    (r.game_id, (r.move_number, r.zobrist_hash, reporter::opt_text(r.next_move)))
}

pub open spec fn row_views(v: Seq<PositionRow>) -> Seq<(u32, positions::EntryView)> {
    v.map_values(|r: PositionRow| row_view(r))
}

/// The text of a stored game as it is read: with the bare quotes in its tags escaped, where
/// the tags can be looked into.
pub open spec fn mended(pgn: Seq<char>) -> Seq<char> {
    if pgn::all_closed(pgn.take(pgn::blank_line(pgn))) {
        pgn::repaired(pgn)
    } else {
        pgn
    }
}

/// The positions of a game that was found; none where it is not complete, or a player has no
/// name.
pub open spec fn found_positions(e: EventsView, depth: Option<i16>) -> Seq<positions::EntryView> {
    let m = followed(e, depth);
    if e.complete && m.tags.white is Some && m.tags.black is Some {
        m.positions
    } else {
        Seq::empty()
    }
}

/// The index rows of a game: each position under the number of the game.
pub open spec fn numbered(id: u32, v: Seq<positions::EntryView>) -> Seq<(u32, positions::EntryView)> {
    v.map_values(|e: positions::EntryView| (id, e))
}

/// The index rows of a stored game.
pub fn positions_of(id: u32, pgn: &str, depth: Option<i16>, year: u32) -> (r: Result<
    Vec<PositionRow>,
    TooManyMoves,
>)
    ensures
        match r {
            Ok(rows) => !text_is_too_long(mended(pgn@), depth) && row_views(rows@) == numbered(
                id,
                found_positions(seen_events(mended(pgn@), depth), depth),
            ),
            Err(_) => text_is_too_long(mended(pgn@), depth),
        },
{
    let text: String = if header_lines_are_closed(pgn) {
        repair_pgn_header_quotes(pgn)
    } else {
        pgn.to_owned()
    };
    let v: GameVisitor = GameVisitor::new(depth);
    match read_game(&v, text.as_str(), year) {
        Ok(Some(game)) => {
            let ghost found = positions::entries(game.positions@);
            let ghost had = game.positions@;
            let rows: Vec<PositionRow> = position_rows(id, game.positions);
            assert(row_views(rows@) =~= numbered(id, found)) by {
                assert(rows@ == importer::index_rows(id, had));
            }
            Ok(rows)
        },
        Ok(None) => {
            let rows: Vec<PositionRow> = Vec::new();
            assert(row_views(rows@) =~= Seq::empty());
            assert(numbered(id, Seq::empty()) =~= Seq::empty());
            Ok(rows)
        },
        Err(e) => Err(e),
    }
}

// ── Laws of read games ───────────────────────────────────────────────────────

/// Tags that come in two parts are the tags in one.
pub proof fn law_tags_come_one_by_one(
    t: TagsView,
    a: Seq<(Seq<char>, Seq<char>)>,
    b: Seq<(Seq<char>, Seq<char>)>,
)
    ensures
        all_tagged(t, a + b) == all_tagged(all_tagged(t, a), b),
    decreases b.len(),
{
    if b.len() == 0 {
        assert(a + b =~= a);
    } else {
        assert((a + b).drop_last() =~= a + b.drop_last());
        law_tags_come_one_by_one(t, a, b.drop_last());
    }
}

/// The players of a game are those that its tags name, whatever other tags it has.
pub proof fn law_players_are_those_of_the_tags(
    t: TagsView,
    white: Seq<char>,
    black: Seq<char>,
    more: Seq<(Seq<char>, Seq<char>)>,
)
    requires
        forall|i: int|
            0 <= i < more.len() ==> (#[trigger] more[i]).0 != "White"@ && more[i].0 != "Black"@,
    ensures
        ({
            let r = all_tagged(t, seq![("White"@, white), ("Black"@, black)] + more);
            r.white == Some(text::trim(white)) && r.black == Some(text::trim(black))
        }),
    decreases more.len(),
{
    let two = seq![("White"@, white), ("Black"@, black)];
    let all = two + more;
    if more.len() == 0 {
        assert(all =~= two);
        let one = seq![("White"@, white)];
        assert(two.drop_last() =~= one);
        assert(one.drop_last() =~= Seq::empty());
        assert(all_tagged(t, one.drop_last()) == t);
        assert(all_tagged(t, one) == visitor::tagged(t, "White"@, white));
        visitor::law_players_have_their_own_tags(t, white);
        visitor::law_players_have_their_own_tags(visitor::tagged(t, "White"@, white), black);
    } else {
        let d = more.drop_last();
        assert(all.drop_last() =~= two + d);
        assert forall|i: int| 0 <= i < d.len() implies (#[trigger] d[i]).0 != "White"@ && d[i].0
            != "Black"@ by {
            assert(d[i] == more[i]);
        }
        law_players_are_those_of_the_tags(t, white, black, d);
        let last = more[more.len() - 1];
        assert(all.last() == last);
        visitor::law_tags_leave_the_rest(all_tagged(t, two + d), last.0, last.1);
    }
}

/// A game without an end, or without a player's name, is none; any other is one.
pub proof fn law_which_games_are_found(g: Option<GameData>, e: EventsView, v: GameVisitor, year: u32)
    requires
        is_found(g, e, v, year),
    ensures
        g is Some <==> e.complete && followed(e, v.max_position_depth).tags.white is Some
            && followed(e, v.max_position_depth).tags.black is Some,
{
}

/// The index rows of a game are its positions in order, each under the number of the game.
pub proof fn law_positions_are_numbered(id: u32, v: Seq<positions::EntryView>, k: int)
    requires
        0 <= k < v.len(),
    ensures
        numbered(id, v).len() == v.len(),
        numbered(id, v)[k].0 == id,
        numbered(id, v)[k].1 == v[k],
{
}

/// What is told of the events of a game is what they hold.
pub proof fn law_events_hold_what_is_told(e: GameEvents, s: String, n: u8, k: int)
    ensures
        PgnEvent::San(s)@ == MoveEvent::San(s@),
        PgnEvent::Comment(s)@ == MoveEvent::Comment(s@),
        PgnEvent::Nag(n)@ == MoveEvent::Nag(n),
        PgnEvent::Open@ == MoveEvent::Open,
        PgnEvent::Close@ == MoveEvent::Close,
        e@.complete == e.complete,
        0 <= k < e.tags@.len() ==> e@.tags[k].0 == e.tags@[k].0@ && e@.tags[k].1 == e.tags@[k].1@,
        0 <= k < e.moves@.len() ==> e@.moves[k] == e.moves@[k]@,
{
}

/// Variations are counted as they begin, one by one.
pub proof fn law_variations_are_counted(a: Seq<MoveEvent>, b: Seq<MoveEvent>)
    ensures
        opens(a + b) == opens(a) + opens(b),
        opens(seq![MoveEvent::Open]) == 1,
        opens(seq![MoveEvent::Close]) == 0,
    decreases b.len(),
{
    let o = seq![MoveEvent::Open];
    let c = seq![MoveEvent::Close];
    assert(o.drop_last() =~= Seq::empty());
    assert(c.drop_last() =~= Seq::empty());
    assert(opens(o.drop_last()) == 0);
    assert(opens(c.drop_last()) == 0);
    if b.len() == 0 {
        assert(a + b =~= a);
    } else {
        assert((a + b).drop_last() =~= a + b.drop_last());
        law_variations_are_counted(a, b.drop_last());
    }
}

/// A game is read with its tags mended where they can be, and as it stands where not.
pub proof fn law_texts_are_mended(pgn: Seq<char>)
    ensures
        !pgn::all_closed(pgn.take(pgn::blank_line(pgn))) ==> mended(pgn) == pgn,
        !pgn::any_inner_quote(pgn.take(pgn::blank_line(pgn))) ==> mended(pgn) == pgn,
{
}

/// The positions of a game are those that were followed, if the game has an end and both
/// players; otherwise it has none.
pub proof fn law_which_positions_are_found(e: EventsView, depth: Option<i16>)
    ensures
        e.complete && followed(e, depth).tags.white is Some && followed(e, depth).tags.black is Some
            ==> found_positions(e, depth) == followed(e, depth).positions,
        !e.complete ==> found_positions(e, depth).len() == 0,
        followed(e, depth).tags.white is None ==> found_positions(e, depth).len() == 0,
        followed(e, depth).tags.black is None ==> found_positions(e, depth).len() == 0,
{
}

proof fn lemma_error_stays(m: MovetextView, es: Seq<MoveEvent>)
    requires
        !m.error,
    ensures
        opens_before_loss(m, es) is Some <==> visitor::after_events(m, es).error,
        opens_before_loss(m, es) matches Some(n) ==> n <= opens(es),
    decreases es.len(),
{
    if es.len() > 0 {
        lemma_error_stays(m, es.drop_last());
    }
}

/// Variations are skipped only in a game in which a move cannot be made, and then those that
/// begin behind that move.
pub proof fn law_variations_behind_a_loss(m: MovetextView, es: Seq<MoveEvent>, more: Seq<MoveEvent>)
    requires
        !m.error,
    ensures
        !visitor::after_events(m, es).error ==> opens_before_loss(m, es) is None,
        visitor::after_events(m, es).error ==> {
            &&& opens_before_loss(m, es) is Some
            &&& opens_before_loss(m, es)->0 <= opens(es)
            &&& opens_before_loss(m, es + more) == opens_before_loss(m, es)
        },
    decreases more.len(),
{
    lemma_error_stays(m, es);
    if more.len() == 0 {
        assert(es + more =~= es);
    } else {
        assert((es + more).drop_last() =~= es + more.drop_last());
        law_variations_behind_a_loss(m, es, more.drop_last());
    }
}

proof fn lemma_counted(m: MovetextView, es: Seq<MoveEvent>)
    ensures
        visitor::after_events(m, es).move_count <= m.move_count + es.len(),
    decreases es.len(),
{
    if es.len() > 0 {
        lemma_counted(m, es.drop_last());
    }
}

/// No game with fewer events than can be counted is too long.
pub proof fn law_short_games_are_counted(e: EventsView, depth: Option<i16>)
    requires
        e.moves.len() <= i16::MAX,
    ensures
        !is_too_long(e, depth),
{
    let m = before_moves(e.tags, depth);
    assert forall|i: int| 0 <= i < e.moves.len() implies !stops_at(m, e.moves, i) by {
        lemma_counted(m, e.moves.take(i));
    }
}

} // verus!
