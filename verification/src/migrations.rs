//! Databases of earlier versions: what is changed in them when they are opened, once.
use crate::reporter;
use crate::text;
use crate::text::{chars_of, replaced, signed_decimal, string_of};
use vstd::prelude::*;
use vstd::string::*;

verus! {

/// What is looked at when a database is opened, in this order.
#[derive(Clone, Copy, PartialEq, Eq, Structural, Debug)]
pub enum Check {
    /// Whether the ledger of imports has its old name, and whether it has its new one.
    Ledger { old_name: bool, new_name: bool },
    /// Whether the positions refer to the games by a key.
    PositionsKey(bool),
    /// Whether there are players whose games were not counted.
    GameCounts(bool),
    /// How many games have dates with dots.
    DottedDates(i64),
    /// Whether there are players that are not marked.
    Marks(bool),
    /// Whether there are games without an opening.
    Openings(bool),
    /// Whether there are games without a visibility.
    Visibility(bool),
    /// Whether games still have a source of the old kind.
    OldSources(bool),
    /// Whether TWIC was known before, and whether games of it were imported.
    Twic { known: bool, imported: bool },
}

/// A change of a database of an earlier version.
#[derive(Clone, Copy, PartialEq, Eq, Structural, Debug)]
pub enum Change {
    /// The ledger of imports gets its new name.
    RenameLedger,
    /// The positions are kept, but refer to the games by no key.
    FreePositions,
    /// The games of every player are counted.
    CountGames,
    /// The dots of dates become dashes.
    DashDates,
    /// Players that are not marked are marked as not normalised.
    MarkPlayers,
    /// Games without an opening get the one in their texts.
    FillOpenings,
    /// Games without a visibility get that of their source, else they are public.
    FillVisibility,
    /// The sources of the old kind go.
    DropOldSources,
    /// TWIC is enabled.
    EnableTwic,
}

/// The change that a check can ask for.
pub open spec fn change_for(c: Check) -> Change {
    match c {
        Check::Ledger { .. } => Change::RenameLedger,
        Check::PositionsKey(_) => Change::FreePositions,
        Check::GameCounts(_) => Change::CountGames,
        Check::DottedDates(_) => Change::DashDates,
        Check::Marks(_) => Change::MarkPlayers,
        Check::Openings(_) => Change::FillOpenings,
        Check::Visibility(_) => Change::FillVisibility,
        Check::OldSources(_) => Change::DropOldSources,
        Check::Twic { .. } => Change::EnableTwic,
    }
}

/// A change, and what is told of it, before it and behind it.
#[derive(Debug)]
pub struct Migration {
    pub change: Change,
    pub before: Option<String>,
    pub after: Option<String>,
}

/// Whether a check finds something to change.
pub open spec fn is_due(c: Check) -> bool {
    match c {
        Check::Ledger { old_name, new_name } => old_name && !new_name,
        Check::PositionsKey(b) => b,
        Check::GameCounts(b) => b,
        Check::DottedDates(n) => n > 0,
        Check::Marks(b) => b,
        Check::Openings(b) => b,
        Check::Visibility(b) => b,
        Check::OldSources(b) => b,
        Check::Twic { known, imported } => !known && imported,
    }
}

/// What is told before a change.
pub open spec fn told_before(c: Check) -> Option<Seq<char>> {
    match c {
        Check::Ledger { .. } => Some(
            "Migrating the import ledger (issues → source_items) for multi-source support…"@,
        ),
        Check::PositionsKey(_) => Some(
            "Removing a foreign key on the positions table (one-time migration; may take a moment on a large index)…"@,
        ),
        Check::GameCounts(_) => Some("Backfilling player game counts (one-time migration)…"@),
        Check::DottedDates(n) => Some(
            "Normalising "@ + text::signed_dec(n as int) + " dotted date(s) → ISO 8601…"@,
        ),
        Check::Visibility(_) => Some("Backfilling games.visibility (one-time migration)…"@),
        Check::OldSources(_) => Some(
            "Phase 2: dropping legacy sources table + games.source_id…"@,
        ),
        _ => None,
    }
}

/// What is told behind a change.
pub open spec fn told_after(c: Check) -> Option<Seq<char>> {
    match c {
        Check::PositionsKey(_) | Check::GameCounts(_) | Check::Visibility(_)
        | Check::OldSources(_) => Some("Done."@),
        _ => None,
    }
}

/// Decides whether something is changed.
pub fn migration(c: Check) -> (r: Option<Migration>)
    ensures
        match r {
            Some(m) => is_due(c) && m.change == change_for(c) && reporter::opt_text(m.before) == told_before(c)
                && reporter::opt_text(m.after) == told_after(c),
            None => !is_due(c),
        },
{
    let due: bool = match c {
        Check::Ledger { old_name, new_name } => old_name && !new_name,
        Check::PositionsKey(b) => b,
        Check::GameCounts(b) => b,
        Check::DottedDates(n) => n > 0,
        Check::Marks(b) => b,
        Check::Openings(b) => b,
        Check::Visibility(b) => b,
        Check::OldSources(b) => b,
        Check::Twic { known, imported } => !known && imported,
    };
    if !due {
        return None;
    }
    let before: Option<String> = match c {
        Check::Ledger { .. } => Some(
            "Migrating the import ledger (issues → source_items) for multi-source support…".to_owned(),
        ),
        Check::PositionsKey(_) => Some(
            "Removing a foreign key on the positions table (one-time migration; may take a moment on a large index)…".to_owned(),
        ),
        Check::GameCounts(_) => Some(
            "Backfilling player game counts (one-time migration)…".to_owned(),
        ),
        Check::DottedDates(n) => {
            let mut m: String = "Normalising ".to_owned();
            let d: String = signed_decimal(n);
            m.append(d.as_str());
            m.append(" dotted date(s) → ISO 8601…");
            Some(m)
        },
        Check::Visibility(_) => Some(
            "Backfilling games.visibility (one-time migration)…".to_owned(),
        ),
        Check::OldSources(_) => Some(
            "Phase 2: dropping legacy sources table + games.source_id…".to_owned(),
        ),
        _ => None,
    };
    let after: Option<String> = match c {
        Check::PositionsKey(_) | Check::GameCounts(_) | Check::Visibility(_)
        | Check::OldSources(_) => Some("Done.".to_owned()),
        _ => None,
    };
    let change: Change = match c {
        Check::Ledger { .. } => Change::RenameLedger,
        Check::PositionsKey(_) => Change::FreePositions,
        Check::GameCounts(_) => Change::CountGames,
        Check::DottedDates(_) => Change::DashDates,
        Check::Marks(_) => Change::MarkPlayers,
        Check::Openings(_) => Change::FillOpenings,
        Check::Visibility(_) => Change::FillVisibility,
        Check::OldSources(_) => Change::DropOldSources,
        Check::Twic { .. } => Change::EnableTwic,
    };
    Some(Migration { change, before, after })
}

/// From this number on the ledger's entries are files that a user imported; before, they
/// are issues of TWIC.
pub const FIRST_MANUAL_ID: i64 = 1000000;

/// Where an entry of the ledger comes from that does not say so.
pub open spec fn source_of_entry(id: i64) -> Seq<char> {
    if id < FIRST_MANUAL_ID {
        "twic"@
    } else {
        "manual"@
    }
}

/// The source of an entry of the ledger that has none.
pub fn ledger_source(id: i64) -> (s: String)
    ensures
        s@ == source_of_entry(id),
{
    if id < FIRST_MANUAL_ID {
        "twic".to_owned()
    } else {
        "manual".to_owned()
    }
}

/// A date with dashes, so that dates in the order of their characters are in the order of
/// time.
pub fn dashed_date(date: &str) -> (r: String)
    ensures
        r@ == text::replace_char(date@, '.', '-'),
{
    string_of(&replaced(&chars_of(date), '.', '-'))
}

/// A date that was changed has no dots left, so it is not changed again.
pub proof fn law_dates_are_changed_once(date: Seq<char>)
    ensures
        !text::replace_char(date, '.', '-').contains('.'),
        text::replace_char(text::replace_char(date, '.', '-'), '.', '-') == text::replace_char(
            date,
            '.',
            '-',
        ),
{
    let d = text::replace_char(date, '.', '-');
    assert forall|i: int| 0 <= i < d.len() implies d[i] != '.' by {}
    assert(text::replace_char(d, '.', '-') =~= d);
}

// ── A database that is opened ────────────────────────────────────────────────

/// What is looked at and changed of a player.
pub struct PlayerFacts {
    pub id: int,
    pub game_count: Option<int>,
    pub marked: Option<bool>,
}

/// What is looked at and changed of a game.
pub struct GameFacts {
    pub white: Option<int>,
    pub black: Option<int>,
    pub deleted: bool,
    pub date: Option<Seq<char>>,
    pub pgn: Option<Seq<char>>,
    pub opening: Option<Seq<char>>,
    pub visibility: Option<Seq<char>>,
    /// The source of the old kind.
    pub source: Option<int>,
}

/// What is looked at and changed of an entry of the ledger.
pub struct EntryFacts {
    pub id: i64,
    pub source_key: Option<Seq<char>>,
    pub external_id: Option<Seq<char>>,
    pub imported: bool,
}

/// A stored database, as far as opening it can change it.
#[verifier::ext_equal]
pub struct Stored {
    /// The ledger under its old name, and under its new one.
    pub old_ledger: Option<Seq<EntryFacts>>,
    pub ledger: Option<Seq<EntryFacts>>,
    /// Whether the positions refer to the games by a key.
    pub positions_key: bool,
    /// The rows of the position index: game, number, hash and next move.
    pub positions: Seq<(int, int, int, Option<Seq<char>>)>,
    pub players: Seq<PlayerFacts>,
    pub games: Seq<GameFacts>,
    /// Whether games have a source of the old kind, and the visibility of such sources.
    pub has_old_sources: bool,
    pub old_sources: Map<int, Option<Seq<char>>>,
    /// The sources that are known, and whether they are enabled.
    pub sources: Map<Seq<char>, bool>,
    pub collections: Seq<Seq<char>>,
    pub has_schedule: bool,
}

/// How many games a player has played with either colour, deleted ones left out.
pub open spec fn games_of(games: Seq<GameFacts>, id: int) -> int {
    let white = games.filter(|g: GameFacts| !g.deleted && g.white == Some(id));
    let black = games.filter(|g: GameFacts| !g.deleted && g.black == Some(id));
    white.len() as int + black.len() as int
}

pub open spec fn dashed(date: Option<Seq<char>>) -> Option<Seq<char>> {
    match date {
        Some(d) => Some(text::replace_char(d, '.', '-')),
        None => None,
    }
}

pub open spec fn is_dotted(g: GameFacts) -> bool {
    g.date is Some && g.date->0.contains('.')
}

/// The opening in a game's text: the first ten words behind its first empty line, up to the
/// next one. Nothing if there is no empty line.
#[verifier::opaque]
pub open spec fn opening_in(pgn: Seq<char>) -> Option<Seq<char>> {
    if text::contains(pgn, "\n\n"@) {
        let from = choose|i: int| #[trigger]
            text::occurs_at(pgn, "\n\n"@, i) && forall|k: int|
                0 <= k < i ==> !#[trigger] text::occurs_at(pgn, "\n\n"@, k);
        let rest = pgn.skip(from + 2);
        let part = if text::contains(rest, "\n\n"@) {
            let to = choose|i: int| #[trigger]
                text::occurs_at(rest, "\n\n"@, i) && forall|k: int|
                    0 <= k < i ==> !#[trigger] text::occurs_at(rest, "\n\n"@, k);
            rest.take(to)
        } else {
            rest
        };
        let words = text::split_on(part, ' ');
        Some(
            text::join(
                if words.len() > 10 {
                    words.take(10)
                } else {
                    words
                },
                " "@,
            ),
        )
    } else {
        None
    }
}

pub open spec fn with_opening(g: GameFacts) -> GameFacts {
    GameFacts {
        opening: if g.opening is None && g.pgn is Some {
            opening_in(g.pgn->0)
        } else {
            g.opening
        },
        ..g
    }
}

pub open spec fn with_visibility(
    g: GameFacts,
    old_sources: Map<int, Option<Seq<char>>>,
) -> GameFacts {
    let of_source = if g.source is Some && old_sources.contains_key(g.source->0) {
        old_sources[g.source->0]
    } else {
        None
    };
    GameFacts {
        visibility: if g.visibility is Some {
            g.visibility
        } else if of_source is Some {
            of_source
        } else {
            Some("public"@)
        },
        ..g
    }
}

/// The database after a change.
pub open spec fn applied(db: Stored, c: Change) -> Stored {
    match c {
        Change::RenameLedger => Stored { old_ledger: None, ledger: db.old_ledger, ..db },
        Change::FreePositions => Stored { positions_key: false, ..db },
        Change::CountGames => Stored {
            players: db.players.map_values(
                |p: PlayerFacts| PlayerFacts { game_count: Some(games_of(db.games, p.id)), ..p },
            ),
            ..db
        },
        Change::DashDates => Stored {
            games: db.games.map_values(|g: GameFacts| GameFacts { date: dashed(g.date), ..g }),
            ..db
        },
        Change::MarkPlayers => Stored {
            players: db.players.map_values(
                |p: PlayerFacts|
                    PlayerFacts {
                        marked: if p.marked is None {
                            Some(false)
                        } else {
                            p.marked
                        },
                        ..p
                    },
            ),
            ..db
        },
        Change::FillOpenings => Stored {
            games: db.games.map_values(|g: GameFacts| with_opening(g)),
            ..db
        },
        Change::FillVisibility => Stored {
            games: db.games.map_values(|g: GameFacts| with_visibility(g, db.old_sources)),
            ..db
        },
        Change::DropOldSources => Stored {
            games: db.games.map_values(|g: GameFacts| GameFacts { source: None, ..g }),
            has_old_sources: false,
            old_sources: Map::empty(),
            sources: Map::empty(),
            ..db
        },
        Change::EnableTwic => Stored {
            sources: if db.sources.contains_key("twic"@) {
                db.sources.insert("twic"@, true)
            } else {
                db.sources
            },
            ..db
        },
    }
}

/// The database after a check: changed where the check finds something to change.
pub open spec fn checked(db: Stored, c: Check) -> Stored {
    if is_due(c) {
        applied(db, change_for(c))
    } else {
        db
    }
}

/// An entry of the ledger with its source and its number there.
pub open spec fn with_source(e: EntryFacts) -> EntryFacts {
    EntryFacts {
        source_key: if e.source_key is None {
            Some(source_of_entry(e.id))
        } else {
            e.source_key
        },
        external_id: if e.external_id is None {
            Some(text::signed_dec(e.id as int))
        } else {
            e.external_id
        },
        ..e
    }
}

/// The ledger that there is once its tables were made: the entries have their sources.
pub open spec fn ledger_of(db: Stored) -> Seq<EntryFacts> {
    match db.ledger {
        Some(l) => l.map_values(|e: EntryFacts| with_source(e)),
        None => Seq::empty(),
    }
}

pub open spec fn has_imported_twic(db: Stored) -> bool {
    exists|i: int|
        0 <= i < ledger_of(db).len() && (#[trigger] ledger_of(db)[i]).source_key == Some("twic"@)
            && ledger_of(db)[i].imported
}

/// The database with a ledger, as it is renamed or made.
pub open spec fn with_ledger(db: Stored) -> Stored {
    let a = checked(
        db,
        Check::Ledger { old_name: db.old_ledger is Some, new_name: db.ledger is Some },
    );
    let b = checked(a, Check::PositionsKey(a.positions_key));
    Stored { ledger: Some(ledger_of(b)), ..b }
}

/// The database with players whose games are counted.
pub open spec fn with_counts(db: Stored) -> Stored {
    checked(
        db,
        Check::GameCounts(
            exists|i: int| 0 <= i < db.players.len() && (#[trigger] db.players[i]).game_count is None,
        ),
    )
}

/// The database with dates that have no dots.
pub open spec fn with_dates(db: Stored) -> Stored {
    checked(
        db,
        Check::DottedDates(db.games.filter(|g: GameFacts| is_dotted(g)).len() as i64),
    )
}

/// The database with players that are marked.
pub open spec fn with_marks(db: Stored) -> Stored {
    checked(
        db,
        Check::Marks(
            exists|i: int| 0 <= i < db.players.len() && (#[trigger] db.players[i]).marked is None,
        ),
    )
}

/// The database with games that have their openings, as far as their texts hold one.
pub open spec fn with_openings(db: Stored) -> Stored {
    checked(
        db,
        Check::Openings(
            exists|i: int| 0 <= i < db.games.len() && (#[trigger] db.games[i]).opening is None,
        ),
    )
}

/// The database with players that are counted and marked, and games with ISO dates.
pub open spec fn with_rows(db: Stored) -> Stored {
    with_openings(with_marks(with_dates(with_counts(db))))
}

/// The database with the collection and the schedule that it begins with.
pub open spec fn with_seeds(db: Stored) -> Stored {
    Stored {
        collections: if db.collections.contains("TWIC"@) {
            db.collections
        } else {
            db.collections.push("TWIC"@)
        },
        has_schedule: true,
        ..db
    }
}

/// The database with games that have a visibility.
pub open spec fn with_visibilities(db: Stored) -> Stored {
    checked(
        db,
        Check::Visibility(
            exists|i: int| 0 <= i < db.games.len() && (#[trigger] db.games[i]).visibility is None,
        ),
    )
}

/// The database with what it begins with, and with games that have a visibility instead of
/// a source of the old kind.
pub open spec fn with_defaults(db: Stored) -> Stored {
    let a = with_visibilities(with_seeds(db));
    checked(a, Check::OldSources(a.has_old_sources))
}

/// The database with a state for every source of the catalog, which says which of them are
/// enabled at first; a source that is known keeps its state.
pub open spec fn with_sources(db: Stored, catalog: Map<Seq<char>, bool>) -> Stored {
    let known = db.sources.contains_key("twic"@);
    let a = Stored { sources: catalog.union_prefer_right(db.sources), ..db };
    checked(a, Check::Twic { known, imported: has_imported_twic(a) })
}

/// The database once it was opened.
pub open spec fn opened(db: Stored, catalog: Map<Seq<char>, bool>) -> Stored {
    with_sources(with_defaults(with_rows(with_ledger(db))), catalog)
}

proof fn lemma_no_dots(games: Seq<GameFacts>)
    ensures
        games.filter(|g: GameFacts| is_dotted(g)).len() <= games.len(),
        (games.filter(|g: GameFacts| is_dotted(g)).len() == 0) == (forall|i: int|
            0 <= i < games.len() ==> !is_dotted(#[trigger] games[i])),
    decreases games.len(),
{
    reveal(Seq::filter);
    if games.len() > 0 {
        let t = games.drop_last();
        lemma_no_dots(t);
        assert forall|i: int| 0 <= i < t.len() implies #[trigger] t[i] == games[i] by {}
        if forall|i: int| 0 <= i < t.len() ==> !is_dotted(#[trigger] t[i]) {
            assert forall|i: int| 0 <= i < games.len() - 1 implies !is_dotted(
                #[trigger] games[i],
            ) by {
                assert(t[i] == games[i]);
            }
        } else {
            let i = choose|i: int| 0 <= i < t.len() && is_dotted(#[trigger] t[i]);
            assert(is_dotted(games[i]));
        }
        assert(games.last() == games[games.len() - 1]);
    }
}

/// Whether opening a database finds nothing to change in it, but for its sources.
spec fn is_current(db: Stored) -> bool {
    &&& has_current_ledger(db)
    &&& has_current_rows(db)
    &&& db.collections.contains("TWIC"@)
    &&& db.has_schedule
    &&& !db.has_old_sources
    &&& forall|i: int| 0 <= i < db.games.len() ==> (#[trigger] db.games[i]).visibility is Some
}

spec fn has_current_ledger(db: Stored) -> bool {
    &&& db.ledger is Some
    &&& !db.positions_key
    &&& forall|i: int|
        0 <= i < db.ledger->0.len() ==> (#[trigger] db.ledger->0[i]).source_key is Some
            && db.ledger->0[i].external_id is Some
}

spec fn has_current_rows(db: Stored) -> bool {
    &&& all_counted(db)
    &&& all_marked(db)
    &&& all_dashed(db)
    &&& all_filled(db)
}

proof fn lemma_ledger_stage(db: Stored)
    ensures
        has_current_ledger(with_ledger(db)),
        with_ledger(db).games == db.games,
        has_current_ledger(db) ==> with_ledger(db) == db,
{
    let a = checked(
        db,
        Check::Ledger { old_name: db.old_ledger is Some, new_name: db.ledger is Some },
    );
    let b = checked(a, Check::PositionsKey(a.positions_key));
    assert(ledger_of(b) == (match b.ledger {
        Some(l) => l.map_values(|e: EntryFacts| with_source(e)),
        None => Seq::empty(),
    }));
    if has_current_ledger(db) {
        assert(ledger_of(db) =~= db.ledger->0);
        assert(with_ledger(db) =~= db);
    }
}

spec fn all_counted(db: Stored) -> bool {
    forall|i: int| 0 <= i < db.players.len() ==> (#[trigger] db.players[i]).game_count is Some
}

spec fn all_marked(db: Stored) -> bool {
    forall|i: int| 0 <= i < db.players.len() ==> (#[trigger] db.players[i]).marked is Some
}

spec fn all_dashed(db: Stored) -> bool {
    forall|i: int| 0 <= i < db.games.len() ==> !is_dotted(#[trigger] db.games[i])
}

spec fn all_filled(db: Stored) -> bool {
    forall|i: int|
        0 <= i < db.games.len() ==> with_opening(#[trigger] db.games[i]) == db.games[i]
}

proof fn lemma_counts(db: Stored)
    ensures
        all_counted(with_counts(db)),
        with_counts(db) == (Stored { players: with_counts(db).players, ..db }),
        all_counted(db) ==> with_counts(db) == db,
{
}

proof fn lemma_dates(db: Stored)
    requires
        db.games.len() <= i64::MAX,
    ensures
        all_dashed(with_dates(db)),
        with_dates(db) == (Stored { games: with_dates(db).games, ..db }),
        with_dates(db).games.len() == db.games.len(),
        all_dashed(db) ==> with_dates(db) == db,
{
    lemma_no_dots(db.games);
    let b = with_dates(db);
    assert forall|i: int| 0 <= i < b.games.len() implies !is_dotted(#[trigger] b.games[i]) by {
        if db.games[i].date is Some {
            law_dates_are_changed_once(db.games[i].date->0);
        }
    }
}

proof fn lemma_marks(db: Stored)
    requires
        all_counted(db),
    ensures
        all_marked(with_marks(db)),
        all_counted(with_marks(db)),
        with_marks(db) == (Stored { players: with_marks(db).players, ..db }),
        all_marked(db) ==> with_marks(db) == db,
{
    let b = with_marks(db);
    assert forall|i: int| 0 <= i < b.players.len() implies (
    #[trigger] b.players[i]).game_count is Some by {
        assert(db.players[i].game_count is Some);
    }
}

proof fn lemma_openings(db: Stored)
    requires
        all_dashed(db),
    ensures
        all_filled(with_openings(db)),
        all_dashed(with_openings(db)),
        with_openings(db) == (Stored { games: with_openings(db).games, ..db }),
        with_openings(db).games.len() == db.games.len(),
        all_filled(db) ==> with_openings(db) == db,
{
    let b = with_openings(db);
    assert forall|i: int| 0 <= i < b.games.len() implies !is_dotted(#[trigger] b.games[i]) by {
        assert(!is_dotted(db.games[i]));
    }
    if all_filled(db) {
        assert(db.games.map_values(|g: GameFacts| with_opening(g)) =~= db.games);
    }
}

proof fn lemma_row_stage(db: Stored)
    requires
        db.games.len() <= i64::MAX,
    ensures
        has_current_rows(with_rows(db)),
        with_rows(db).games.len() == db.games.len(),
        with_rows(db).ledger == db.ledger,
        with_rows(db).positions_key == db.positions_key,
        has_current_rows(db) ==> with_rows(db) == db,
{
    let a = with_counts(db);
    lemma_counts(db);
    let b = with_dates(a);
    lemma_dates(a);
    let c = with_marks(b);
    lemma_marks(b);
    lemma_openings(c);
}

proof fn lemma_default_stage(db: Stored)
    requires
        has_current_ledger(db),
        has_current_rows(db),
    ensures
        is_current(with_defaults(db)),
        with_defaults(db).games.len() == db.games.len(),
        is_current(db) ==> with_defaults(db) == db,
{
    let a = with_seeds(db);
    assert(a.collections.contains("TWIC"@)) by {
        if !db.collections.contains("TWIC"@) {
            assert(a.collections[db.collections.len() as int] == "TWIC"@);
        }
    }
    let b = with_visibilities(a);
    assert forall|i: int| 0 <= i < b.games.len() implies (
    #[trigger] b.games[i]).visibility is Some && !is_dotted(b.games[i]) && with_opening(b.games[i])
        == b.games[i] by {
        assert(!is_dotted(db.games[i]) && with_opening(db.games[i]) == db.games[i]);
    }
    let c = with_defaults(db);
    assert(c == checked(b, Check::OldSources(b.has_old_sources)));
    assert forall|i: int| 0 <= i < c.games.len() implies (
    #[trigger] c.games[i]).visibility is Some && !is_dotted(c.games[i]) && with_opening(c.games[i])
        == c.games[i] by {
        assert(!is_dotted(b.games[i]) && with_opening(b.games[i]) == b.games[i]);
    }
    if is_current(db) {
        assert(a == db);
        assert(b == a);
    }
}

/// A database that was opened is left alone when it is opened again: nothing is renamed,
/// counted, marked or seeded a second time, and a source that was enabled or disabled
/// since, such as TWIC, stays so.
pub proof fn law_opening_again_changes_nothing(
    db: Stored,
    catalog: Map<Seq<char>, bool>,
    key: Seq<char>,
    enabled: bool,
)
    requires
        db.games.len() <= i64::MAX,
        opened(db, catalog).sources.contains_key(key),
    ensures
        ({
            let now = opened(db, catalog);
            let later = Stored { sources: now.sources.insert(key, enabled), ..now };
            opened(later, catalog) == later
        }),
{
    let a = with_ledger(db);
    lemma_ledger_stage(db);
    let b = with_rows(a);
    lemma_row_stage(a);
    let c = with_defaults(b);
    lemma_default_stage(b);
    let now = opened(db, catalog);
    assert(is_current(now));
    let later = Stored { sources: now.sources.insert(key, enabled), ..now };
    assert(is_current(later));
    lemma_ledger_stage(later);
    lemma_row_stage(later);
    lemma_default_stage(later);
    assert(later.sources.dom() =~= now.sources.dom());
    assert forall|k: Seq<char>| #[trigger] catalog.contains_key(k) implies later.sources.contains_key(
        k,
    ) by {
        assert(catalog.union_prefer_right(c.sources).contains_key(k));
    }
    assert(catalog.union_prefer_right(later.sources) =~= later.sources);
    assert(with_sources(later, catalog) == later);
}

// ── The order of the steps ───────────────────────────────────────────────────

/// A step of opening a database.
#[derive(Clone, Copy, PartialEq, Eq, Structural, Debug)]
pub enum OpenStep {
    /// The ledger of imports gets its new name, where it has its old one.
    Ledger,
    /// Tables that are missing are made.
    Tables,
    /// The positions lose their key: with it games could not be changed.
    PositionsKey,
    /// Entries of the ledger get their sources.
    Entries,
    GameCounts,
    DottedDates,
    Marks,
    Openings,
    /// The first collection and the schedule are made.
    Seeds,
    /// Games get a visibility: that of their sources of the old kind, which go next.
    Visibility,
    OldSources,
    /// It is noted whether TWIC is known, before it is made so.
    LookForTwic,
    /// Sources that are missing are made, in a table that the old kind no longer holds.
    SeedSources,
    Twic,
}

/// A database that is being opened, and whether TWIC was found to be known.
#[verifier::ext_equal]
pub struct Opening {
    pub db: Stored,
    pub twic_known: bool,
}

/// What a step makes of the database.
pub open spec fn performed(o: Opening, s: OpenStep, catalog: Map<Seq<char>, bool>) -> Opening {
    let db = o.db;
    match s {
        OpenStep::Ledger => Opening {
            db: checked(
                db,
                Check::Ledger { old_name: db.old_ledger is Some, new_name: db.ledger is Some },
            ),
            ..o
        },
        OpenStep::Tables => Opening {
            db: Stored {
                ledger: if db.ledger is Some {
                    db.ledger
                } else {
                    Some(Seq::empty())
                },
                ..db
            },
            ..o
        },
        OpenStep::PositionsKey => Opening {
            db: checked(db, Check::PositionsKey(db.positions_key)),
            ..o
        },
        OpenStep::Entries => Opening { db: Stored { ledger: Some(ledger_of(db)), ..db }, ..o },
        OpenStep::GameCounts => Opening { db: with_counts(db), ..o },
        OpenStep::DottedDates => Opening { db: with_dates(db), ..o },
        OpenStep::Marks => Opening { db: with_marks(db), ..o },
        OpenStep::Openings => Opening { db: with_openings(db), ..o },
        OpenStep::Seeds => Opening { db: with_seeds(db), ..o },
        OpenStep::Visibility => Opening { db: with_visibilities(db), ..o },
        OpenStep::OldSources => Opening {
            db: checked(db, Check::OldSources(db.has_old_sources)),
            ..o
        },
        OpenStep::LookForTwic => Opening { twic_known: db.sources.contains_key("twic"@), ..o },
        OpenStep::SeedSources => Opening {
            db: Stored { sources: catalog.union_prefer_right(db.sources), ..db },
            ..o
        },
        OpenStep::Twic => Opening {
            db: checked(
                db,
                Check::Twic { known: o.twic_known, imported: has_imported_twic(db) },
            ),
            ..o
        },
    }
}

/// The step behind another.
pub open spec fn step_after(s: OpenStep) -> Option<OpenStep> {
    match s {
        OpenStep::Ledger => Some(OpenStep::Tables),
        OpenStep::Tables => Some(OpenStep::PositionsKey),
        OpenStep::PositionsKey => Some(OpenStep::Entries),
        OpenStep::Entries => Some(OpenStep::GameCounts),
        OpenStep::GameCounts => Some(OpenStep::DottedDates),
        OpenStep::DottedDates => Some(OpenStep::Marks),
        OpenStep::Marks => Some(OpenStep::Openings),
        OpenStep::Openings => Some(OpenStep::Seeds),
        OpenStep::Seeds => Some(OpenStep::Visibility),
        OpenStep::Visibility => Some(OpenStep::OldSources),
        OpenStep::OldSources => Some(OpenStep::LookForTwic),
        OpenStep::LookForTwic => Some(OpenStep::SeedSources),
        OpenStep::SeedSources => Some(OpenStep::Twic),
        OpenStep::Twic => None,
    }
}

/// How many steps still come behind one.
pub open spec fn steps_behind(s: OpenStep) -> nat {
    match s {
        OpenStep::Ledger => 13,
        OpenStep::Tables => 12,
        OpenStep::PositionsKey => 11,
        OpenStep::Entries => 10,
        OpenStep::GameCounts => 9,
        OpenStep::DottedDates => 8,
        OpenStep::Marks => 7,
        OpenStep::Openings => 6,
        OpenStep::Seeds => 5,
        OpenStep::Visibility => 4,
        OpenStep::OldSources => 3,
        OpenStep::LookForTwic => 2,
        OpenStep::SeedSources => 1,
        OpenStep::Twic => 0,
    }
}

/// The step with which opening a database begins.
pub fn first_step() -> (s: OpenStep)
    ensures
        s == OpenStep::Ledger,
{
    OpenStep::Ledger
}

/// The step that comes once another is done; none behind the last.
pub fn next_step(s: OpenStep) -> (r: Option<OpenStep>)
    ensures
        r == step_after(s),
{
    match s {
        OpenStep::Ledger => Some(OpenStep::Tables),
        OpenStep::Tables => Some(OpenStep::PositionsKey),
        OpenStep::PositionsKey => Some(OpenStep::Entries),
        OpenStep::Entries => Some(OpenStep::GameCounts),
        OpenStep::GameCounts => Some(OpenStep::DottedDates),
        OpenStep::DottedDates => Some(OpenStep::Marks),
        OpenStep::Marks => Some(OpenStep::Openings),
        OpenStep::Openings => Some(OpenStep::Seeds),
        OpenStep::Seeds => Some(OpenStep::Visibility),
        OpenStep::Visibility => Some(OpenStep::OldSources),
        OpenStep::OldSources => Some(OpenStep::LookForTwic),
        OpenStep::LookForTwic => Some(OpenStep::SeedSources),
        OpenStep::SeedSources => Some(OpenStep::Twic),
        OpenStep::Twic => None,
    }
}

/// The database after a step and all behind it.
pub open spec fn carried_out(o: Opening, s: OpenStep, catalog: Map<Seq<char>, bool>) -> Opening
    decreases steps_behind(s),
{
    let done = performed(o, s, catalog);
    match step_after(s) {
        Some(next) => carried_out(done, next, catalog),
        None => done,
    }
}

/// The steps, one behind the other from the first on, open the database.
pub proof fn law_steps_open_the_database(o: Opening, catalog: Map<Seq<char>, bool>)
    ensures
        carried_out(o, OpenStep::Ledger, catalog).db == opened(o.db, catalog),
{
    let a = performed(o, OpenStep::Ledger, catalog);
    let b = performed(a, OpenStep::Tables, catalog);
    let c = performed(b, OpenStep::PositionsKey, catalog);
    let d = performed(c, OpenStep::Entries, catalog);
    assert(d.db == with_ledger(o.db)) by {
        if a.db.ledger is None {
            assert(ledger_of(c.db) =~= Seq::<EntryFacts>::empty());
        }
        assert(d.db =~= with_ledger(o.db));
    }
    let e = performed(d, OpenStep::GameCounts, catalog);
    let f = performed(e, OpenStep::DottedDates, catalog);
    let g = performed(f, OpenStep::Marks, catalog);
    let h = performed(g, OpenStep::Openings, catalog);
    assert(h.db == with_rows(d.db));
    let i = performed(h, OpenStep::Seeds, catalog);
    let j = performed(i, OpenStep::Visibility, catalog);
    let k = performed(j, OpenStep::OldSources, catalog);
    assert(k.db == with_defaults(h.db));
    let l = performed(k, OpenStep::LookForTwic, catalog);
    let m = performed(l, OpenStep::SeedSources, catalog);
    let n = performed(m, OpenStep::Twic, catalog);
    assert(n.db == with_sources(k.db, catalog));
    lemma_carry(o, OpenStep::Ledger, catalog);
    lemma_carry(a, OpenStep::Tables, catalog);
    lemma_carry(b, OpenStep::PositionsKey, catalog);
    lemma_carry(c, OpenStep::Entries, catalog);
    lemma_carry(d, OpenStep::GameCounts, catalog);
    lemma_carry(e, OpenStep::DottedDates, catalog);
    lemma_carry(f, OpenStep::Marks, catalog);
    lemma_carry(g, OpenStep::Openings, catalog);
    lemma_carry(h, OpenStep::Seeds, catalog);
    lemma_carry(i, OpenStep::Visibility, catalog);
    lemma_carry(j, OpenStep::OldSources, catalog);
    lemma_carry(k, OpenStep::LookForTwic, catalog);
    lemma_carry(l, OpenStep::SeedSources, catalog);
    lemma_carry(m, OpenStep::Twic, catalog);
}

proof fn lemma_carry(o: Opening, s: OpenStep, catalog: Map<Seq<char>, bool>)
    ensures
        carried_out(o, s, catalog) == (match step_after(s) {
            Some(next) => carried_out(performed(o, s, catalog), next, catalog),
            None => performed(o, s, catalog),
        }),
{
}

/// The promises on the order: the key of the positions goes before any step that changes
/// games, games get the visibility of the old sources before those go, and the new
/// sources come behind them all.
pub proof fn law_steps_come_in_order(s: OpenStep)
    requires
        s == OpenStep::DottedDates || s == OpenStep::Openings || s == OpenStep::Visibility || s
            == OpenStep::OldSources,
    ensures
        steps_behind(s) < steps_behind(OpenStep::PositionsKey),
        steps_behind(OpenStep::OldSources) < steps_behind(OpenStep::Visibility),
        steps_behind(OpenStep::SeedSources) < steps_behind(s),
        steps_behind(OpenStep::SeedSources) < steps_behind(OpenStep::LookForTwic),
        forall|t: OpenStep| #[trigger] step_after(t) matches Some(n) ==> steps_behind(t)
            == steps_behind(n) + 1,
{
}

// ── Laws of single changes ───────────────────────────────────────────────────

/// A change is due where its check finds something, and only there.
pub proof fn law_when_changes_are_due(b: bool, n: i64)
    ensures
        is_due(Check::Ledger { old_name: true, new_name: false }),
        !is_due(Check::Ledger { old_name: b, new_name: true }),
        !is_due(Check::Ledger { old_name: false, new_name: b }),
        is_due(Check::PositionsKey(b)) == b,
        is_due(Check::GameCounts(b)) == b,
        is_due(Check::DottedDates(n)) == (n > 0),
        is_due(Check::Marks(b)) == b,
        is_due(Check::Openings(b)) == b,
        is_due(Check::Visibility(b)) == b,
        is_due(Check::OldSources(b)) == b,
        is_due(Check::Twic { known: false, imported: b }) == b,
        !is_due(Check::Twic { known: true, imported: b }),
{
}

/// Opening a database loses no player, no game and no position, and changes nobody's name,
/// colour or text.
pub proof fn law_changes_lose_nothing(db: Stored, c: Change, k: int)
    ensures
        applied(db, c).players.len() == db.players.len(),
        applied(db, c).games.len() == db.games.len(),
        applied(db, c).positions == db.positions,
        0 <= k < db.players.len() ==> applied(db, c).players[k].id == db.players[k].id,
        0 <= k < db.games.len() ==> {
            let g = applied(db, c).games[k];
            let was = db.games[k];
            &&& g.white == was.white
            &&& g.black == was.black
            &&& g.pgn == was.pgn
            &&& g.deleted == was.deleted
            &&& was.opening is Some ==> g.opening == was.opening
            &&& was.visibility is Some ==> g.visibility == was.visibility
            &&& !(c is DashDates) ==> g.date == was.date
        },
{
}

/// A player's games are those with either colour that are not deleted.
pub proof fn law_games_are_counted_for_both_sides(games: Seq<GameFacts>, g: GameFacts, id: int)
    ensures
        games_of(games.push(g), id) == games_of(games, id) + (if g.deleted {
            0int
        } else {
            (if g.white == Some(id) {
                1int
            } else {
                0
            }) + (if g.black == Some(id) {
                1int
            } else {
                0
            })
        }),
{
    reveal(Seq::filter);
    assert(games.push(g).drop_last() =~= games);
    assert(games.push(g).last() == g);
}

/// A game gets the visibility of its source, and is public where that says nothing; a game
/// that has one keeps it.
pub proof fn law_visibility_comes_from_the_source(
    g: GameFacts,
    old_sources: Map<int, Option<Seq<char>>>,
)
    ensures
        g.visibility is Some ==> with_visibility(g, old_sources) == g,
        g.visibility is None && g.source is None ==> with_visibility(g, old_sources).visibility
            == Some("public"@),
        g.visibility is None && g.source is Some && old_sources.contains_key(g.source->0)
            && old_sources[g.source->0] is Some ==> with_visibility(g, old_sources).visibility
            == old_sources[g.source->0],
{
}

/// An entry of the ledger that does not say where it comes from is of TWIC below the first
/// number of manual imports, and manual from there on.
pub proof fn law_entries_have_a_source(e: EntryFacts)
    ensures
        e.source_key is None && e.id < 1_000_000 ==> with_source(e).source_key == Some("twic"@),
        e.source_key is None && e.id >= 1_000_000 ==> with_source(e).source_key == Some("manual"@),
        e.source_key is Some ==> with_source(e).source_key == e.source_key,
        e.external_id is None ==> with_source(e).external_id == Some(text::signed_dec(e.id as int)),
        e.external_id is Some ==> with_source(e).external_id == e.external_id,
        with_source(e).id == e.id,
        with_source(e).imported == e.imported,
{
}

/// A source that is known keeps its state; one that is new gets that of the catalog.
pub proof fn law_known_sources_keep_their_state(
    db: Stored,
    catalog: Map<Seq<char>, bool>,
    key: Seq<char>,
)
    requires
        key != "twic"@,
    ensures
        db.sources.contains_key(key) ==> with_sources(db, catalog).sources.contains_key(key)
            && with_sources(db, catalog).sources[key] == db.sources[key],
        !db.sources.contains_key(key) && catalog.contains_key(key) ==> with_sources(
            db,
            catalog,
        ).sources.contains_key(key) && with_sources(db, catalog).sources[key] == catalog[key],
{
}

/// Each check asks for its own change.
pub proof fn law_checks_ask_for_their_change(b: bool, c: bool, n: i64)
    ensures
        change_for(Check::Ledger { old_name: b, new_name: c }) == Change::RenameLedger,
        change_for(Check::PositionsKey(b)) == Change::FreePositions,
        change_for(Check::GameCounts(b)) == Change::CountGames,
        change_for(Check::DottedDates(n)) == Change::DashDates,
        change_for(Check::Marks(b)) == Change::MarkPlayers,
        change_for(Check::Openings(b)) == Change::FillOpenings,
        change_for(Check::Visibility(b)) == Change::FillVisibility,
        change_for(Check::OldSources(b)) == Change::DropOldSources,
        change_for(Check::Twic { known: b, imported: c }) == Change::EnableTwic,
{
}

/// What each change does: the ledger keeps its entries under the new name, games are counted,
/// dates get dashes, and players that have no mark get one that says no.
pub proof fn law_what_changes_do(db: Stored, k: int)
    ensures
        applied(db, Change::RenameLedger).ledger == db.old_ledger,
        applied(db, Change::RenameLedger).old_ledger is None,
        !applied(db, Change::FreePositions).positions_key,
        0 <= k < db.players.len() ==> applied(db, Change::CountGames).players[k].game_count
            == Some(games_of(db.games, db.players[k].id)),
        0 <= k < db.players.len() && db.players[k].marked is None ==> applied(
            db,
            Change::MarkPlayers,
        ).players[k].marked == Some(false),
        0 <= k < db.players.len() && db.players[k].marked is Some ==> applied(
            db,
            Change::MarkPlayers,
        ).players[k].marked == db.players[k].marked,
        0 <= k < db.games.len() && db.games[k].date is Some ==> applied(
            db,
            Change::DashDates,
        ).games[k].date == Some(text::replace_char(db.games[k].date->0, '.', '-')),
        0 <= k < db.games.len() && db.games[k].opening is None && db.games[k].pgn is Some
            ==> applied(db, Change::FillOpenings).games[k].opening == opening_in(
            db.games[k].pgn->0,
        ),
        db.sources.contains_key("twic"@) ==> applied(db, Change::EnableTwic).sources["twic"@],
{
}

/// An opening is taken from behind the first blank line: its first ten words, or all of them.
pub proof fn law_openings_stand_behind_the_tags(headers: Seq<char>, ws: Seq<Seq<char>>)
    requires
        !text::contains(headers + seq!['\n'], "\n\n"@),
        0 < ws.len() <= 10,
        forall|i: int|
            0 <= i < ws.len() ==> !(#[trigger] ws[i]).contains(' '),
        !text::contains(text::join(ws, " "@), "\n\n"@),
    ensures
        opening_in(headers + "\n\n"@ + text::join(ws, " "@)) == Some(text::join(ws, " "@)),
{
    reveal_strlit("\n\n");
    reveal_strlit(" ");
    reveal(opening_in);
    assert(" "@ =~= seq![' ']);
    text::law_joined_pieces_come_apart(ws, ' ');
    let pat = "\n\n"@;
    let moves = text::join(ws, " "@);
    let pgn = headers + pat + moves;
    let n = headers.len() as int;
    let h = headers + seq!['\n'];
    assert(pgn.subrange(n, n + 2) =~= pat);
    assert(text::occurs_at(pgn, pat, n));
    assert forall|k: int| 0 <= k < n implies !#[trigger] text::occurs_at(pgn, pat, k) by {
        if text::occurs_at(pgn, pat, k) {
            assert(h.subrange(k, k + 2) =~= pgn.subrange(k, k + 2));
            assert(text::occurs_at(h, pat, k));
        }
    }
    let from = choose|i: int| #[trigger]
        text::occurs_at(pgn, pat, i) && forall|k: int|
            0 <= k < i ==> !#[trigger] text::occurs_at(pgn, pat, k);
    assert(from == n);
    assert forall|i: int| #[trigger]
        text::occurs_at(pgn, pat, i) && (forall|k: int|
            0 <= k < i ==> !#[trigger] text::occurs_at(pgn, pat, k)) implies i == n by {
        if i > n {
            assert(!text::occurs_at(pgn, pat, n));
        }
    }
    assert(pgn.skip(n + 2) =~= moves);
    assert(text::contains(pgn, pat));
    assert(text::split_on(moves, ' ') == ws);
}

} // verus!
