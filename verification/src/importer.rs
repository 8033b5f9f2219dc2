//! Importing games: which files are taken, how each game of a file is treated, and what
//! is told along the way. Files are read, and rows are written, elsewhere.
use crate::import_context;
use crate::import_context::{GameKey, ImportContext, NewPlayer};
use crate::positions;
use crate::positions::PositionEntry;
use crate::reporter;
use crate::reporter::{clone_opt, Report};
use crate::sorting;
use crate::sorting::{codes_of, comes_before};
use crate::text;
use crate::text::{append_num, chars_of, has_suffix, joined, same, signed_decimal, slice, string_of};
use crate::visitor;
use crate::visitor::GameData;
use vstd::hash_set::StringHashSet;
use vstd::prelude::*;
use vstd::string::*;

verus! {

/// Rows are written in batches of so many games.
pub const BATCH_SIZE: usize = 10_000;

/// Indexing reads so many games at a time.
pub const INDEX_READ_BATCH: usize = 50_000;

/// Indexing writes and reports in portions of so many games.
pub const INDEX_REPORT_CHUNK: usize = 2_000;

/// A file of at least so many bytes gets a progress bar of its own.
pub const LARGE_FILE_THRESHOLD: u64 = 100 * 1024 * 1024;

/// The share of the overall progress that one issue has.
pub const PROGRESS_UNITS_PER_ISSUE: u64 = 10_000;

/// From so many bytes on an import is a bulk load: the indexes are dropped and positions
/// are left for a later pass.
pub const BULK_MODE_BYTES: u64 = 12 * 1024 * 1024;

/// Issues that were added by hand are numbered from here on.
pub const MANUAL_ISSUE_BASE: i32 = 1_000_000;

/// Whether an import of so many bytes is a bulk load; a threshold of 0 makes it one
/// whatever its size.
pub fn bulk_mode_for_size(total_bytes: u64, force_threshold: usize) -> (b: bool)
    ensures
        b == (force_threshold == 0 || total_bytes >= BULK_MODE_BYTES),
{
    force_threshold == 0 || total_bytes >= BULK_MODE_BYTES
}

/// Whether an upload of so many bytes is a bulk load.
pub fn is_bulk_size(total_bytes: u64) -> (b: bool)
    ensures
        b == (total_bytes >= BULK_MODE_BYTES),
{
    total_bytes >= BULK_MODE_BYTES
}

// ── Which files ──────────────────────────────────────────────────────────────

/// What a file holds, by its extension.
#[derive(Clone, Copy, PartialEq, Eq, Structural, Debug)]
pub enum InputKind {
    Plain,
    Zstd,
    Zip,
    SevenZip,
}

/// Where the last dot of a file name stands; nowhere if there is none, or only one at the
/// very beginning.
pub open spec fn dot_of(name: Seq<char>) -> Option<int> {
    if exists|i: int|
        0 < i < name.len() && #[trigger] name[i] == '.' && !name.skip(i + 1).contains('.') {
        Some(
            choose|i: int|
                0 < i < name.len() && #[trigger] name[i] == '.' && !name.skip(i + 1).contains('.'),
        )
    } else {
        None
    }
}

/// The extension of a file name, in small letters; empty if it has none.
pub open spec fn extension(name: Seq<char>) -> Seq<char> {
    match dot_of(name) {
        Some(i) => text::ascii_lowercase(name.skip(i + 1)),
        None => Seq::empty(),
    }
}

fn lower_char(c: char) -> (l: char)
    ensures
        l == text::ascii_lower(c),
{
    if 'A' <= c && c <= 'Z' {
        ((c as u8) + 32) as char
    } else {
        c
    }
}

/// Puts ASCII capitals into small letters.
pub fn lower_ascii(s: &[char]) -> (out: Vec<char>)
    ensures
        out@ == text::ascii_lowercase(s@),
{
    let mut out: Vec<char> = Vec::new();
    let mut i: usize = 0;
    while i < s.len()
        invariant
            i <= s.len(),
            out@ == text::ascii_lowercase(s@.take(i as int)),
        decreases s.len() - i,
    {
        out.push(lower_char(s[i]));
        i += 1;
        assert(out@ =~= text::ascii_lowercase(s@.take(i as int)));
    }
    assert(s@.take(i as int) =~= s@);
    out
}

/// The extension of a file name, in small letters; empty if it has none.
pub fn extension_of(name: &str) -> (ext: String)
    ensures
        ext@ == extension(name@),
{
    let chars: Vec<char> = chars_of(name);
    let mut i: usize = chars.len();
    while i > 0 && chars[i - 1] != '.'
        invariant
            i <= chars.len(),
            forall|k: int| i <= k < chars.len() ==> chars@[k] != '.',
        decreases i,
    {
        i -= 1;
    }
    if i <= 1 {
        proof {
            assert forall|k: int|
                0 < k < chars@.len() && #[trigger] chars@[k] == '.' implies false by {}
        }
        return String::new();
    }
    proof {
        let dot = i - 1;
        assert(!name@.skip(dot + 1).contains('.')) by {
            let tail = name@.skip(dot + 1);
            assert forall|k: int| 0 <= k < tail.len() implies #[trigger] tail[k] != '.' by {
                assert(tail[k] == chars@[k + i]);
            }
        }
        assert(name@[dot] == '.');
        let c = dot_of(name@)->0;
        if c < dot {
            assert(name@.skip(c + 1)[dot - c - 1] == '.');
        } else if c > dot {
            assert(chars@[c] != '.');
        }
    }
    let ext: Vec<char> = slice(&chars, i, chars.len());
    assert(ext@ =~= name@.skip(i as int));
    string_of(&lower_ascii(&ext))
}

/// What a file with an extension holds; `None` if the importer cannot read it. A file
/// without an extension is taken for a plain one.
pub open spec fn kind_of(ext: Seq<char>) -> Option<InputKind> {
    if ext == "pgn"@ || ext == ""@ {
        Some(InputKind::Plain)
    } else if ext == "zst"@ || ext == "zstd"@ {
        Some(InputKind::Zstd)
    } else if ext == "zip"@ {
        Some(InputKind::Zip)
    } else if ext == "7z"@ {
        Some(InputKind::SevenZip)
    } else {
        None
    }
}

/// What a file holds, or why it cannot be read; `path` is where it is.
pub fn input_kind(name: &str, path: &str) -> (r: Result<InputKind, String>)
    ensures
        match kind_of(extension(name@)) {
            Some(k) => r == Ok::<InputKind, String>(k),
            None => r matches Err(e) && e@ == "unsupported file type '."@ + extension(name@)
                + "': "@ + path@,
        },
{
    let ext: String = extension_of(name);
    if same(ext.as_str(), "pgn") || same(ext.as_str(), "") {
        Ok(InputKind::Plain)
    } else if same(ext.as_str(), "zst") || same(ext.as_str(), "zstd") {
        Ok(InputKind::Zstd)
    } else if same(ext.as_str(), "zip") {
        Ok(InputKind::Zip)
    } else if same(ext.as_str(), "7z") {
        Ok(InputKind::SevenZip)
    } else {
        let mut e: String = "unsupported file type '.".to_owned();
        e.append(ext.as_str());
        e.append("': ");
        e.append(path);
        Err(e)
    }
}

/// Whether an import takes a file: PGN, plain or in an archive.
pub open spec fn is_supported(name: Seq<char>) -> bool {
    extension(name) != ""@ && kind_of(extension(name)) is Some
}

/// Whether an import takes a file with this name.
pub fn is_supported_input(name: &str) -> (b: bool)
    ensures
        b == is_supported(name@),
{
    let ext: String = extension_of(name);
    proof {
        reveal_strlit("");
        reveal_strlit("pgn");
        reveal_strlit("zip");
        reveal_strlit("zst");
        reveal_strlit("zstd");
        reveal_strlit("7z");
        assert(""@.len() == 0 && "pgn"@.len() == 3 && "zip"@.len() == 3);
        assert("zst"@.len() == 3 && "zstd"@.len() == 4 && "7z"@.len() == 2);
    }
    same(ext.as_str(), "pgn") || same(ext.as_str(), "zip") || same(ext.as_str(), "zst") || same(
        ext.as_str(),
        "zstd",
    ) || same(ext.as_str(), "7z")
}

/// Why a path that is neither a file nor a directory to import from is refused.
pub fn not_importable(path: &str, is_file: bool) -> (e: String)
    ensures
        e@ == (if is_file {
            "not a .pgn/.zip/.zst/.7z file: "@ + path@
        } else {
            "not a file or directory: "@ + path@
        }),
{
    let mut e: String = if is_file {
        "not a .pgn/.zip/.zst/.7z file: ".to_owned()
    } else {
        "not a file or directory: ".to_owned()
    };
    e.append(path);
    e
}

/// Whether an entry of an archive is a PGN file.
pub open spec fn is_pgn_entry(name: Seq<char>) -> bool {
    text::ends_with(text::ascii_lowercase(name), ".pgn"@)
}

/// The first entry of an archive that is a PGN file.
pub fn first_pgn_entry(names: &[String]) -> (r: Option<usize>)
    ensures
        match r {
            Some(i) => i < names.len() && is_pgn_entry(names@[i as int]@) && forall|k: int|
                0 <= k < i ==> !is_pgn_entry(#[trigger] names@[k]@),
            None => forall|k: int| 0 <= k < names.len() ==> !is_pgn_entry(#[trigger] names@[k]@),
        },
{
    let mut i: usize = 0;
    while i < names.len()
        invariant
            i <= names.len(),
            forall|k: int| 0 <= k < i ==> !is_pgn_entry(#[trigger] names@[k]@),
        decreases names.len() - i,
    {
        let lower: Vec<char> = lower_ascii(&chars_of(names[i].as_str()));
        if has_suffix(&lower, &chars_of(".pgn")) {
            return Some(i);
        }
        i += 1;
    }
    None
}

/// The files that have not been imported yet, in their order.
pub fn pending_files(files: &[String], imported: &[String]) -> (out: Vec<String>)
    ensures
        text::texts(out@) == text::texts(files@).filter(not_among(text::texts(imported@))),
{
    let mut seen: StringHashSet = StringHashSet::new();
    let ghost done = text::texts(imported@);
    let mut i: usize = 0;
    while i < imported.len()
        invariant
            i <= imported.len(),
            done == text::texts(imported@),
            forall|s: Seq<char>|
                #[trigger] seen@.contains(s) <==> exists|k: int| 0 <= k < i && done[k] == s,
        decreases imported.len() - i,
    {
        let ghost before = seen@;
        seen.insert(imported[i].clone());
        assert forall|s: Seq<char>|
            #[trigger] seen@.contains(s) <==> exists|k: int| 0 <= k < i + 1 && done[k] == s by {
            if seen@.contains(s) {
                if s == done[i as int] {
                } else {
                    assert(before.contains(s));
                }
            }
            if exists|k: int| 0 <= k < i + 1 && done[k] == s {
                let k = choose|k: int| 0 <= k < i + 1 && done[k] == s;
                if k < i {
                    assert(before.contains(s));
                }
            }
        }
        i += 1;
    }
    let ghost all = text::texts(files@);
    let ghost wanted = not_among(done);
    let mut out: Vec<String> = Vec::new();
    let mut j: usize = 0;
    proof {
        reveal(Seq::filter);
        assert(all.take(0) =~= Seq::empty());
        assert(text::texts(out@) =~= Seq::empty());
    }
    while j < files.len()
        invariant
            j <= files.len(),
            all == text::texts(files@),
            done == text::texts(imported@),
            done.len() == imported.len(),
            wanted == not_among(done),
            forall|s: Seq<char>|
                #[trigger] seen@.contains(s) <==> exists|k: int|
                    0 <= k < imported.len() && done[k] == s,
            text::texts(out@) == all.take(j as int).filter(wanted),
        decreases files.len() - j,
    {
        proof {
            reveal(Seq::filter);
            let t = all.take(j + 1);
            assert(t.drop_last() =~= all.take(j as int));
            assert(t.last() == files@[j as int]@);
        }
        let ghost before = text::texts(out@);
        let ghost name = files@[j as int]@;
        if !seen.contains(files[j].as_str()) {
            assert(!done.contains(name)) by {
                if done.contains(name) {
                    let k = choose|k: int| 0 <= k < done.len() && done[k] == name;
                    assert(seen@.contains(name));
                }
            }
            out.push(files[j].clone());
            assert(text::texts(out@) =~= before.push(name));
        } else {
            assert(done.contains(name));
        }
        j += 1;
    }
    assert(all.take(j as int) =~= all);
    out
}

pub open spec fn not_among(names: Seq<Seq<char>>) -> spec_fn(Seq<char>) -> bool {
    |s: Seq<char>| !names.contains(s)
}

// ── What is asked for ────────────────────────────────────────────────────────

/// How imported games are tagged, and what happens to those that are there already.
#[derive(Debug)]
pub struct ImportSpec {
    pub collection: String,
    /// `"public"` or `"private"`.
    pub visibility: String,
    /// `"skip"`, `"replace"` or `"always"`.
    pub on_duplicate: String,
}

/// Who sees a game.
#[derive(Clone, Copy, PartialEq, Eq, Structural, Debug)]
pub enum Visibility {
    Public,
    Private,
}

/// What a valid request comes to.
#[derive(Clone, Copy, PartialEq, Eq, Structural, Debug)]
pub struct ImportPolicy {
    pub skip_dedup: bool,
    pub visibility: Visibility,
}

impl ImportSpec {
    /// Checks a request. How duplicates are treated is checked first.
    pub fn policy(&self, skip_dedup: bool) -> (r: Result<ImportPolicy, String>)
        ensures
            if self.on_duplicate@ == "replace"@ {
                r matches Err(e) && e@ == "--on-duplicate=replace is not implemented yet"@
            } else if self.on_duplicate@ != "skip"@ && self.on_duplicate@ != "always"@ {
                r matches Err(e) && e@ == "invalid --on-duplicate value: "@ + self.on_duplicate@
            } else if self.visibility@ != "public"@ && self.visibility@ != "private"@ {
                r matches Err(e) && e@ == "invalid visibility: "@ + self.visibility@
            } else {
                r == Ok::<ImportPolicy, String>(
                    ImportPolicy {
                        skip_dedup: skip_dedup || self.on_duplicate@ == "always"@,
                        visibility: if self.visibility@ == "public"@ {
                            Visibility::Public
                        } else {
                            Visibility::Private
                        },
                    },
                )
            },
    {
        proof {
            reveal_strlit("replace");
            reveal_strlit("skip");
            reveal_strlit("always");
            reveal_strlit("public");
            reveal_strlit("private");
            assert("replace"@.len() == 7 && "skip"@.len() == 4 && "always"@.len() == 6);
            assert("public"@.len() == 6 && "private"@.len() == 7);
        }
        let on_duplicate: &str = self.on_duplicate.as_str();
        let skip: bool = if same(on_duplicate, "skip") {
            skip_dedup
        } else if same(on_duplicate, "always") {
            true
        } else if same(on_duplicate, "replace") {
            return Err("--on-duplicate=replace is not implemented yet".to_owned());
        } else {
            let mut e: String = "invalid --on-duplicate value: ".to_owned();
            e.append(on_duplicate);
            return Err(e);
        };
        let visibility: Visibility = if same(self.visibility.as_str(), "public") {
            Visibility::Public
        } else if same(self.visibility.as_str(), "private") {
            Visibility::Private
        } else {
            let mut e: String = "invalid visibility: ".to_owned();
            e.append(self.visibility.as_str());
            return Err(e);
        };
        Ok(ImportPolicy { skip_dedup: skip, visibility })
    }
}

/// The visibility of a game that is met again by an import: public wins, and nothing is
/// ever made private again.
pub fn ratchet(existing: Visibility, import: Visibility) -> (v: Visibility)
    ensures
        v is Public <==> existing is Public || import is Public,
{
    match import {
        Visibility::Public => Visibility::Public,
        Visibility::Private => existing,
    }
}

/// The number that the next issue added by hand gets.
pub fn next_issue_id(max_id: Option<i64>) -> (n: i32)
    requires
        max_id matches Some(m) ==> (m as i32) < i32::MAX,
    ensures
        n == (match max_id {
            Some(m) => if m as i32 > MANUAL_ISSUE_BASE {
                m as i32 + 1
            } else {
                MANUAL_ISSUE_BASE + 1
            },
            None => MANUAL_ISSUE_BASE + 1,
        }),
{
    let max: i32 = match max_id {
        Some(m) => m as i32,
        None => 0,
    };
    if max > MANUAL_ISSUE_BASE {
        max + 1
    } else {
        MANUAL_ISSUE_BASE + 1
    }
}

// ── The games of a file ──────────────────────────────────────────────────────

/// A game to be added to the database.
#[derive(Debug)]
pub struct GameRow {
    pub id: u32,
    pub issue_id: i32,
    pub visibility: Visibility,
    pub white_id: u32,
    pub black_id: u32,
    pub white_elo: Option<i16>,
    pub black_elo: Option<i16>,
    pub event: Option<String>,
    pub site: Option<String>,
    pub date: Option<String>,
    pub round: Option<String>,
    pub result: Option<String>,
    pub eco: Option<String>,
    pub move_count: i16,
    pub pgn: String,
    pub opening_line: String,
    pub chessbase_id: Option<i64>,
}

/// A row of the position index.
#[derive(Debug)]
pub struct PositionRow {
    pub game_id: u32,
    pub move_number: i16,
    pub zobrist_hash: i64,
    pub next_move: Option<String>,
}

/// The row of a game.
pub open spec fn row_of(
    g: GameData,
    id: u32,
    issue_id: i32,
    visibility: Visibility,
    white_id: u32,
    black_id: u32,
) -> GameRow {
    GameRow {
        id,
        issue_id,
        visibility,
        white_id,
        black_id,
        white_elo: g.white_elo,
        black_elo: g.black_elo,
        event: g.event,
        site: g.site,
        date: g.date,
        round: g.round,
        result: g.result,
        eco: g.eco,
        move_count: g.move_count,
        pgn: g.pgn,
        opening_line: g.opening_line,
        chessbase_id: g.chessbase_id,
    }
}

/// The index rows of a game.
pub open spec fn index_rows(id: u32, v: Seq<PositionEntry>) -> Seq<PositionRow> {
    v.map_values(
        |e: PositionEntry|
            PositionRow { game_id: id, move_number: e.0, zobrist_hash: e.1, next_move: e.2 },
    )
}

/// The index rows of a game that was read anew.
pub fn position_rows(game_id: u32, entries: Vec<PositionEntry>) -> (out: Vec<PositionRow>)
    ensures
        out@ == index_rows(game_id, entries@),
{
    let mut out: Vec<PositionRow> = Vec::new();
    let mut i: usize = 0;
    while i < entries.len()
        invariant
            i <= entries.len(),
            out@ == index_rows(game_id, entries@).take(i as int),
        decreases entries.len() - i,
    {
        let next_move: Option<String> = clone_opt(&entries[i].2);
        out.push(
            PositionRow {
                game_id,
                move_number: entries[i].0,
                zobrist_hash: entries[i].1,
                next_move,
            },
        );
        i += 1;
        assert(out@ =~= index_rows(game_id, entries@).take(i as int));
    }
    assert(out@ =~= index_rows(game_id, entries@));
    out
}

/// The dates that games of a source are imported for.
pub struct Window {
    pub from: Option<String>,
    pub to: Option<String>,
    pub exclude_undated: bool,
}

/// Whether a text comes before another, as dates do that are written year first.
pub open spec fn is_before(a: Seq<char>, b: Seq<char>) -> bool {
    sorting::precedes(sorting::codes(a), sorting::codes(b))
}

impl Window {
    /// Whether a game of a date is imported: both ends belong to the window, and where one
    /// is missing it is open there. A game without a date is, unless those are excluded.
    pub open spec fn has(&self, date: Option<Seq<char>>) -> bool {
        match date {
            Some(d) => !(self.from is Some && is_before(d, self.from->0@)) && !(self.to is Some
                && is_before(self.to->0@, d)),
            None => !self.exclude_undated,
        }
    }

    /// The window that all games are in.
    pub fn unbounded() -> (w: Self)
        ensures
            forall|date: Option<Seq<char>>| w.has(date),
    {
        Window { from: None, to: None, exclude_undated: false }
    }

    /// Whether a game of a date is imported.
    pub fn admits(&self, date: Option<&str>) -> (b: bool)
        ensures
            b == self.has(
                match date {
                    Some(d) => Some(d@),
                    None => None,
                },
            ),
    {
        match date {
            Some(d) => {
                let at: Vec<u64> = codes_of(d);
                let early: bool = match &self.from {
                    Some(f) => comes_before(&at, &codes_of(f.as_str())),
                    None => false,
                };
                let late: bool = match &self.to {
                    Some(t) => comes_before(&codes_of(t.as_str()), &at),
                    None => false,
                };
                !early && !late
            },
            None => !self.exclude_undated,
        }
    }
}

/// What became of a game.
#[derive(Clone, Copy, PartialEq, Eq, Structural, Debug)]
pub enum Taken {
    /// It starts from another position than games do.
    NonStandard,
    /// It is outside the dates that are wanted.
    OutsideWindow,
    /// A player has no name.
    Unnamed,
    /// It is there already, under this number: it is to be tagged with the collection.
    Duplicate(u32),
    /// It is new, and has got this number.
    Added(u32),
}

/// The import of the games of one file.
pub struct GameStream {
    pub issue_id: i32,
    pub visibility: Visibility,
    pub max_position_depth: Option<i16>,
    pub game_batch: Vec<GameRow>,
    pub position_batch: Vec<PositionRow>,
    pub new_players: Vec<NewPlayer>,
    pub player_fide_backfill: Vec<(u32, u32)>,
    pub total_games: usize,
    pub skipped_games: usize,
    pub skipped_nonstandard: usize,
    pub skipped_window: usize,
}

/// Whether a player's name is there.
pub open spec fn is_named(name: Option<String>) -> bool {
    name is Some && name->0@.len() > 0
}

/// What identifies a game, once its players are known.
pub open spec fn key_of(g: GameData, white_id: u32, black_id: u32) -> import_context::GameKeyView {
    import_context::GameKeyView {
        white_id,
        black_id,
        date: reporter::opt_text(g.date),
        result: reporter::opt_text(g.result),
        opening_line: g.opening_line@,
        move_count: g.move_count,
    }
}

/// Whether a game gets as far as its players.
pub open spec fn is_wanted(g: GameData, admitted: bool) -> bool {
    !g.non_standard && admitted && is_named(g.white) && is_named(g.black)
}

/// Who the players of a game are, and what is known of the players then.
pub open spec fn players_of(v: import_context::PlayersView, g: GameData) -> (
    import_context::Resolution,
    import_context::Resolution,
    import_context::PlayersView,
) {
    let white = import_context::resolve(v, g.white->0@, g.white_fide_id);
    let v2 = import_context::after_resolve(v, g.white->0@, g.white_fide_id);
    let black = import_context::resolve(v2, g.black->0@, g.black_fide_id);
    (white, black, import_context::after_resolve(v2, g.black->0@, g.black_fide_id))
}

/// The players to be added, with one more if it is new.
pub open spec fn with_created(
    s: Seq<import_context::NewPlayerView>,
    r: import_context::Resolution,
) -> Seq<import_context::NewPlayerView> {
    match r {
        import_context::Resolution::Created { player } => s.push(player),
        _ => s,
    }
}

/// The FIDE IDs to be filled in, with one more if it is new.
pub open spec fn with_filled(s: Seq<(u32, u32)>, r: import_context::Resolution) -> Seq<(u32, u32)> {
    match r {
        import_context::Resolution::Filled { id, fide_id } => s.push((id, fide_id)),
        _ => s,
    }
}

/// What becomes of a game.
pub open spec fn fate(ctx: ImportContext, g: GameData, admitted: bool) -> Taken {
    if g.non_standard {
        Taken::NonStandard
    } else if !admitted {
        Taken::OutsideWindow
    } else if !is_named(g.white) || !is_named(g.black) {
        Taken::Unnamed
    } else {
        let (white, black, after) = players_of(ctx.players(), g);
        let key = key_of(
            g,
            import_context::resolved_id(white),
            import_context::resolved_id(black),
        );
        match import_context::duplicate_of(
            ctx.games(),
            g.chessbase_id,
            import_context::fingerprint_of(key),
        ) {
            Some(existing) => Taken::Duplicate(existing),
            None => Taken::Added(ctx.next_game_id),
        }
    }
}

fn named(name: &Option<String>) -> (b: bool)
    ensures
        b == is_named(*name),
{
    match name {
        Some(n) => !n.as_str().is_empty(),
        None => false,
    }
}

fn as_ref<'a>(s: &'a Option<String>) -> (r: Option<&'a str>)
    ensures
        import_context::str_text(r) == reporter::opt_text(*s),
{
    match s {
        Some(s) => Some(s.as_str()),
        None => None,
    }
}

impl GameStream {
    pub fn new(issue_id: i32, visibility: Visibility, max_position_depth: Option<i16>) -> (s: Self)
        ensures
            s.issue_id == issue_id,
            s.visibility == visibility,
            s.max_position_depth == max_position_depth,
            s.game_batch@.len() == 0,
            s.position_batch@.len() == 0,
            s.new_players@.len() == 0,
            s.player_fide_backfill@.len() == 0,
            s.total_games == 0,
            s.skipped_games == 0,
            s.skipped_nonstandard == 0,
            s.skipped_window == 0,
    {
        GameStream {
            issue_id,
            visibility,
            max_position_depth,
            game_batch: Vec::new(),
            position_batch: Vec::new(),
            new_players: Vec::new(),
            player_fide_backfill: Vec::new(),
            total_games: 0,
            skipped_games: 0,
            skipped_nonstandard: 0,
            skipped_window: 0,
        }
    }

    /// Games seen so far that were counted.
    pub open spec fn counted(&self) -> int {
        self.total_games + self.skipped_games + self.skipped_nonstandard + self.skipped_window
    }

    /// Takes a game; `admitted` says whether its date is wanted. Games from other
    /// positions and outside the dates are skipped, then those without names. A game that
    /// is there already is left out, but its players are known from then on.
    pub fn take(&mut self, ctx: &mut ImportContext, game: GameData, admitted: bool) -> (t: Taken)
        requires
            old(self).counted() < usize::MAX,
            old(ctx).next_player_id < u32::MAX - 1,
            old(ctx).next_game_id < u32::MAX,
        ensures
            t == fate(*old(ctx), game, admitted),
            final(self).issue_id == old(self).issue_id,
            final(self).visibility == old(self).visibility,
            final(self).max_position_depth == old(self).max_position_depth,
            final(self).total_games == old(self).total_games + (if t is Added {
                1int
            } else {
                0
            }),
            final(self).skipped_games == old(self).skipped_games + (if t is Duplicate {
                1int
            } else {
                0
            }),
            final(self).skipped_nonstandard == old(self).skipped_nonstandard + (if t
                is NonStandard {
                1int
            } else {
                0
            }),
            final(self).skipped_window == old(self).skipped_window + (if t is OutsideWindow {
                1int
            } else {
                0
            }),
            ({
                let (white, black, after) = players_of(old(ctx).players(), game);
                let w = import_context::resolved_id(white);
                let b = import_context::resolved_id(black);
                if is_wanted(game, admitted) {
                    &&& final(ctx).players() == after
                    &&& import_context::player_views(final(self).new_players@) == with_created(
                        with_created(
                            import_context::player_views(old(self).new_players@),
                            white,
                        ),
                        black,
                    )
                    &&& final(self).player_fide_backfill@ == with_filled(
                        with_filled(old(self).player_fide_backfill@, white),
                        black,
                    )
                    &&& match t {
                        Taken::Added(id) => {
                            &&& final(ctx).games() == import_context::after_new_game(
                                old(ctx).games(),
                                game.chessbase_id,
                                import_context::fingerprint_of(key_of(game, w, b)),
                            )
                            &&& final(self).game_batch@ == old(self).game_batch@.push(
                                row_of(
                                    game,
                                    id,
                                    old(self).issue_id,
                                    old(self).visibility,
                                    w,
                                    b,
                                ),
                            )
                            &&& ({
                                let row = final(self).game_batch@.last();
                                &&& row.id == id
                                &&& row.issue_id == old(self).issue_id
                                &&& row.visibility == old(self).visibility
                                &&& row.white_id == w
                                &&& row.black_id == b
                                &&& row.white_elo == game.white_elo
                                &&& row.black_elo == game.black_elo
                                &&& row.event == game.event
                                &&& row.site == game.site
                                &&& row.date == game.date
                                &&& row.round == game.round
                                &&& row.result == game.result
                                &&& row.eco == game.eco
                                &&& row.move_count == game.move_count
                                &&& row.pgn == game.pgn
                                &&& row.opening_line == game.opening_line
                                &&& row.chessbase_id == game.chessbase_id
                            })
                            &&& final(self).position_batch@ == (if old(
                                self,
                            ).max_position_depth is Some {
                                old(self).position_batch@ + index_rows(id, game.positions@)
                            } else {
                                old(self).position_batch@
                            })
                        },
                        _ => {
                            &&& final(ctx).games() == old(ctx).games()
                            &&& final(self).game_batch == old(self).game_batch
                            &&& final(self).position_batch == old(self).position_batch
                        },
                    }
                } else {
                    &&& *final(ctx) == *old(ctx)
                    &&& final(self).new_players == old(self).new_players
                    &&& final(self).player_fide_backfill == old(self).player_fide_backfill
                    &&& final(self).game_batch == old(self).game_batch
                    &&& final(self).position_batch == old(self).position_batch
                }
            }),
    {
        if game.non_standard {
            self.skipped_nonstandard = self.skipped_nonstandard + 1;
            return Taken::NonStandard;
        }
        if !admitted {
            self.skipped_window = self.skipped_window + 1;
            return Taken::OutsideWindow;
        }
        if !named(&game.white) || !named(&game.black) {
            return Taken::Unnamed;
        }
        let white_name: &str = match &game.white {
            Some(n) => n.as_str(),
            None => "",
        };
        let black_name: &str = match &game.black {
            Some(n) => n.as_str(),
            None => "",
        };
        let white_id: u32 = ctx.get_or_create_player(
            &mut self.new_players,
            &mut self.player_fide_backfill,
            white_name,
            game.white_fide_id,
        );
        let black_id: u32 = ctx.get_or_create_player(
            &mut self.new_players,
            &mut self.player_fide_backfill,
            black_name,
            game.black_fide_id,
        );
        let numbered: Result<u32, u32> = ctx.number_game(
            game.chessbase_id,
            &GameKey {
                white_id,
                black_id,
                date: as_ref(&game.date),
                result: as_ref(&game.result),
                opening_line: game.opening_line.as_str(),
                move_count: game.move_count,
            },
        );
        match numbered {
            Err(existing) => {
                self.skipped_games = self.skipped_games + 1;
                Taken::Duplicate(existing)
            },
            Ok(id) => {
                let ghost whole = game;
                self.game_batch.push(
                    GameRow {
                        id,
                        issue_id: self.issue_id,
                        visibility: self.visibility,
                        white_id,
                        black_id,
                        white_elo: game.white_elo,
                        black_elo: game.black_elo,
                        event: game.event,
                        site: game.site,
                        date: game.date,
                        round: game.round,
                        result: game.result,
                        eco: game.eco,
                        move_count: game.move_count,
                        pgn: game.pgn,
                        opening_line: game.opening_line,
                        chessbase_id: game.chessbase_id,
                    },
                );
                if self.max_position_depth.is_some() {
                    let mut rows: Vec<PositionRow> = position_rows(id, game.positions);
                    self.position_batch.append(&mut rows);
                }
                self.total_games = self.total_games + 1;
                Taken::Added(id)
            },
        }
    }

    /// Whether the rows so far are to be written now.
    pub fn flush_due(&self) -> (b: bool)
        ensures
            b == (self.game_batch@.len() >= BATCH_SIZE),
    {
        self.game_batch.len() >= BATCH_SIZE
    }

    /// The rows so far have been written.
    pub fn flushed(&mut self)
        ensures
            final(self).game_batch@.len() == 0,
            final(self).position_batch@.len() == 0,
            final(self).new_players@.len() == 0,
            final(self).player_fide_backfill@.len() == 0,
            final(self).issue_id == old(self).issue_id,
            final(self).visibility == old(self).visibility,
            final(self).max_position_depth == old(self).max_position_depth,
            final(self).total_games == old(self).total_games,
            final(self).skipped_games == old(self).skipped_games,
            final(self).skipped_nonstandard == old(self).skipped_nonstandard,
            final(self).skipped_window == old(self).skipped_window,
    {
        self.game_batch.clear();
        self.position_batch.clear();
        self.new_players.clear();
        self.player_fide_backfill.clear();
    }

    /// The progress after a batch. Where the size of the file is known, the bytes read are
    /// put into the share of the overall progress, from `base` on, that the file has; else
    /// the games are counted, with no end in sight.
    pub fn batch_progress(
        &self,
        bytes_read: u64,
        byte_total: u64,
        base: u64,
        progress_total: u64,
    ) -> (r: Report)
        requires
            base + PROGRESS_UNITS_PER_ISSUE <= u64::MAX,
        ensures
            r matches Report::Progress { current, total, message } && message@ == "Imported "@
                + text::dec(self.total_games as nat) + " games…"@ && (if byte_total > 0 {
                let read: int = if bytes_read < byte_total {
                    bytes_read as int
                } else {
                    byte_total as int
                };
                current == base + read * (PROGRESS_UNITS_PER_ISSUE as int) / (byte_total as int)
                    && total == progress_total
            } else {
                current == self.total_games && total == 0
            }),
    {
        let mut message: String = "Imported ".to_owned();
        append_num(&mut message, self.total_games as u64);
        message.append(" games…");
        if byte_total > 0 {
            let read: u64 = if bytes_read < byte_total {
                bytes_read
            } else {
                byte_total
            };
            assert((read as int) * 10_000 <= (byte_total as int) * 10_000) by (nonlinear_arith)
                requires
                    read <= byte_total,
            ;
            let units: u128 = (read as u128 * PROGRESS_UNITS_PER_ISSUE as u128) / byte_total as u128;
            assert((read as int) * 10_000 / (byte_total as int) <= 10_000) by (nonlinear_arith)
                requires
                    0 <= read <= byte_total,
                    byte_total > 0,
            ;
            Report::Progress { current: base + units as u64, total: progress_total, message }
        } else {
            Report::Progress { current: self.total_games as u64, total: 0, message }
        }
    }

    /// How many games were imported, were there already, were not standard and were
    /// outside the dates.
    pub fn counts(&self) -> (c: GameCounts)
        ensures
            c == (GameCounts {
                imported: self.total_games,
                duplicates: self.skipped_games,
                nonstandard: self.skipped_nonstandard,
                outside_window: self.skipped_window,
            }),
    {
        GameCounts {
            imported: self.total_games,
            duplicates: self.skipped_games,
            nonstandard: self.skipped_nonstandard,
            outside_window: self.skipped_window,
        }
    }
}

// ── What is told ─────────────────────────────────────────────────────────────

/// How many games of each kind an import met.
#[derive(Clone, Copy, PartialEq, Eq, Structural, Debug)]
pub struct GameCounts {
    pub imported: usize,
    pub duplicates: usize,
    pub nonstandard: usize,
    pub outside_window: usize,
}

/// The reasons for which games were skipped.
pub open spec fn skip_reasons(c: GameCounts) -> Seq<Seq<char>> {
    let a = if c.duplicates > 0 {
        seq![text::dec(c.duplicates as nat) + " duplicates"@]
    } else {
        Seq::empty()
    };
    let b = if c.nonstandard > 0 {
        a.push(text::dec(c.nonstandard as nat) + " non-standard (Chess960/fragments)"@)
    } else {
        a
    };
    if c.outside_window > 0 {
        b.push(text::dec(c.outside_window as nat) + " outside date window"@)
    } else {
        b
    }
}

pub open spec fn skipped(c: GameCounts) -> int {
    c.duplicates + c.nonstandard + c.outside_window
}

/// The result of an import in a line.
pub open spec fn summary(c: GameCounts) -> Seq<char> {
    if skip_reasons(c).len() == 0 {
        text::dec(c.imported as nat) + " games imported"@
    } else {
        text::dec(c.imported as nat) + " games imported, "@ + text::dec(skipped(c) as nat)
            + " skipped ("@ + text::join(skip_reasons(c), ", "@) + ")"@
    }
}

fn push_reason(parts: &mut Vec<String>, n: usize, what: &str)
    ensures
        text::texts(final(parts)@) == (if n > 0 {
            text::texts(old(parts)@).push(text::dec(n as nat) + what@)
        } else {
            text::texts(old(parts)@)
        }),
{
    if n > 0 {
        let ghost had = text::texts(parts@);
        let mut s: String = String::new();
        append_num(&mut s, n as u64);
        s.append(what);
        assert(s@ =~= text::dec(n as nat) + what@);
        parts.push(s);
        assert(text::texts(parts@) =~= had.push(s@));
    }
}

/// The result of an import in a line.
pub fn import_summary(c: GameCounts) -> (s: String)
    requires
        skipped(c) <= usize::MAX,
    ensures
        s@ == summary(c),
{
    let mut parts: Vec<String> = Vec::new();
    assert(text::texts(parts@) =~= Seq::empty());
    push_reason(&mut parts, c.duplicates, " duplicates");
    push_reason(&mut parts, c.nonstandard, " non-standard (Chess960/fragments)");
    push_reason(&mut parts, c.outside_window, " outside date window");
    assert(text::texts(parts@) =~= skip_reasons(c));
    let mut s: String = String::new();
    append_num(&mut s, c.imported as u64);
    assert(s@ =~= text::dec(c.imported as nat));
    if parts.len() == 0 {
        s.append(" games imported");
    } else {
        s.append(" games imported, ");
        append_num(&mut s, (c.duplicates + c.nonstandard + c.outside_window) as u64);
        s.append(" skipped (");
        let reasons: String = joined(&parts, ", ");
        s.append(reasons.as_str());
        s.append(")");
    }
    s
}

// ── A run over several files ─────────────────────────────────────────────────

/// What a run imports from.
#[derive(Clone, Copy, PartialEq, Eq, Structural, Debug)]
pub enum RunKind {
    /// The issues of a source.
    Issues,
    /// Files given by hand.
    Files,
}

/// How a run goes about it.
pub struct RunPlan {
    pub bulk_mode: bool,
    pub fast: bool,
    /// The depth to which positions are indexed on the way.
    pub depth: Option<i16>,
    /// What is told at the beginning.
    pub logs: Vec<String>,
}

/// What a run tells at the beginning.
pub open spec fn opening_logs(
    kind: RunKind,
    count: nat,
    bulk: bool,
    depth: Option<i16>,
) -> Seq<Seq<char>> {
    let first = seq![
        "Importing "@ + text::dec(count) + (match kind {
            RunKind::Issues => " issue(s)..."@,
            RunKind::Files => " PGN file(s)..."@,
        }),
    ];
    if bulk {
        first.push("Bulk mode: indexes dropped for faster import. Positions skipped."@)
    } else if depth is Some {
        first.push(
            "Position indexing enabled (depth: "@ + text::signed_dec(depth->0 as int)
                + " half-moves)."@,
        )
    } else {
        first
    }
}

/// Plans a run over `count` files of so many bytes in all. A bulk load always writes
/// fast, and does not index positions.
pub fn plan_run(
    kind: RunKind,
    count: usize,
    total_bytes: u64,
    reindex_threshold: usize,
    fast: bool,
    max_position_depth: Option<i16>,
) -> (p: RunPlan)
    ensures
        p.bulk_mode == (reindex_threshold == 0 || total_bytes >= BULK_MODE_BYTES),
        p.fast == (fast || p.bulk_mode),
        p.depth == (if p.bulk_mode {
            None
        } else {
            max_position_depth
        }),
        text::texts(p.logs@) == opening_logs(kind, count as nat, p.bulk_mode, max_position_depth),
{
    let bulk_mode: bool = bulk_mode_for_size(total_bytes, reindex_threshold);
    let mut logs: Vec<String> = Vec::new();
    let mut first: String = "Importing ".to_owned();
    append_num(&mut first, count as u64);
    first.append(
        match kind {
            RunKind::Issues => " issue(s)...",
            RunKind::Files => " PGN file(s)...",
        },
    );
    logs.push(first);
    if bulk_mode {
        logs.push("Bulk mode: indexes dropped for faster import. Positions skipped.".to_owned());
    } else if let Some(depth) = max_position_depth {
        let mut s: String = "Position indexing enabled (depth: ".to_owned();
        let d: String = signed_decimal(depth as i64);
        s.append(d.as_str());
        s.append(" half-moves).");
        logs.push(s);
    }
    assert(text::texts(logs@) =~= opening_logs(
        kind,
        count as nat,
        bulk_mode,
        max_position_depth,
    ));
    RunPlan {
        bulk_mode,
        fast: fast || bulk_mode,
        depth: if bulk_mode {
            None
        } else {
            max_position_depth
        },
        logs,
    }
}

/// How far a run has come.
pub struct ImportRun {
    pub kind: RunKind,
    pub total: u64,
    pub completed: u64,
    pub counts: GameCounts,
    /// The issues that were skipped because of errors.
    pub failed: Vec<i32>,
}

/// What became of one file.
pub enum FileOutcome {
    Imported(GameCounts),
    Failed(String),
}

/// What to do once a file is over.
pub struct FileStep {
    /// Note the issue as imported, with so many games, and put its games into the
    /// collection.
    pub mark_imported: Option<i32>,
    pub report: Report,
    pub progress: Option<Report>,
    /// Go no further.
    pub stop: bool,
}

/// The counts of a run after those of one more file.
pub open spec fn added(a: GameCounts, b: GameCounts) -> GameCounts {
    GameCounts {
        imported: (a.imported + b.imported) as usize,
        duplicates: (a.duplicates + b.duplicates) as usize,
        nonstandard: (a.nonstandard + b.nonstandard) as usize,
        outside_window: (a.outside_window + b.outside_window) as usize,
    }
}

/// Whether the counts of a run stay within the numbers.
pub open spec fn fits(a: GameCounts, b: GameCounts) -> bool {
    a.imported + b.imported <= usize::MAX && skipped(a) + skipped(b) <= usize::MAX
}

pub open spec fn is_progress(r: Option<Report>, current: int, total: int, message: Seq<char>) -> bool {
    r matches Some(Report::Progress { current: c, total: t, message: m }) && c == current && t
        == total && m@ == message
}

/// The progress after a file: issues count in their shares of the overall progress.
pub open spec fn file_progress(run: ImportRun, r: Option<Report>) -> bool {
    let units: int = if run.kind is Issues {
        PROGRESS_UNITS_PER_ISSUE as int
    } else {
        1
    };
    is_progress(
        r,
        run.completed * units,
        run.total * units,
        "Imported "@ + text::dec(run.completed as nat) + " / "@ + text::dec(run.total as nat) + (
        if run.kind is Issues {
            " issues"@
        } else {
            " files"@
        }),
    )
}

pub open spec fn issue_label(id: i32) -> Seq<char> {
    "  Issue "@ + text::signed_dec(id as int) + ": "@
}

fn issue_text(id: i32) -> (s: String)
    ensures
        s@ == issue_label(id),
{
    let mut s: String = "  Issue ".to_owned();
    let n: String = signed_decimal(id as i64);
    s.append(n.as_str());
    s.append(": ");
    s
}

fn file_text(name: &str, what: &str) -> (s: String)
    ensures
        s@ == "  "@ + name@ + what@,
{
    let mut s: String = "  ".to_owned();
    s.append(name);
    s.append(what);
    s
}

impl ImportRun {
    /// A run's files are counted within its total, and their shares within the numbers.
    pub open spec fn wf(&self) -> bool {
        &&& self.completed <= self.total
        &&& self.total * PROGRESS_UNITS_PER_ISSUE <= u64::MAX
        &&& skipped(self.counts) <= usize::MAX
    }

    pub fn new(kind: RunKind, total: u64) -> (r: Self)
        requires
            total * PROGRESS_UNITS_PER_ISSUE <= u64::MAX,
        ensures
            r.wf(),
            r.kind == kind,
            r.total == total,
            r.completed == 0,
            r.counts == (GameCounts {
                imported: 0,
                duplicates: 0,
                nonstandard: 0,
                outside_window: 0,
            }),
            r.failed@.len() == 0,
    {
        ImportRun {
            kind,
            total,
            completed: 0,
            counts: GameCounts { imported: 0, duplicates: 0, nonstandard: 0, outside_window: 0 },
            failed: Vec::new(),
        }
    }

    /// Where the share of the next issue in the overall progress begins.
    pub fn progress_base(&self) -> (b: u64)
        requires
            self.wf(),
        ensures
            b == self.completed * PROGRESS_UNITS_PER_ISSUE,
    {
        assert(self.completed * 10_000 <= self.total * 10_000) by (nonlinear_arith)
            requires
                self.completed <= self.total,
        ;
        self.completed * PROGRESS_UNITS_PER_ISSUE
    }

    fn progress_report(&self) -> (r: Option<Report>)
        requires
            self.wf(),
        ensures
            file_progress(*self, r),
    {
        let issues: bool = match self.kind {
            RunKind::Issues => true,
            RunKind::Files => false,
        };
        let mut message: String = "Imported ".to_owned();
        append_num(&mut message, self.completed);
        message.append(" / ");
        append_num(&mut message, self.total);
        message.append(
            if issues {
                " issues"
            } else {
                " files"
            },
        );
        assert(self.completed * 10_000 <= self.total * 10_000) by (nonlinear_arith)
            requires
                self.completed <= self.total,
        ;
        if issues {
            Some(
                Report::Progress {
                    current: self.completed * PROGRESS_UNITS_PER_ISSUE,
                    total: self.total * PROGRESS_UNITS_PER_ISSUE,
                    message,
                },
            )
        } else {
            Some(Report::Progress { current: self.completed, total: self.total, message })
        }
    }

    /// The file of an issue is not there: it is passed over.
    pub fn missing(&mut self, path: &str) -> (r: Report)
        requires
            old(self).wf(),
            old(self).completed < old(self).total,
        ensures
            final(self).wf(),
            final(self).completed == old(self).completed + 1,
            final(self).kind == old(self).kind,
            final(self).total == old(self).total,
            final(self).counts == old(self).counts,
            final(self).failed == old(self).failed,
            r matches Report::Log { message } && message@ == "  Zip not found: "@ + path@,
    {
        self.completed = self.completed + 1;
        let mut message: String = "  Zip not found: ".to_owned();
        message.append(path);
        Report::Log { message }
    }

    /// A file cannot be read: it is passed over, with an error.
    pub fn unreadable(&mut self, name: &str, error: &str) -> (r: Report)
        requires
            old(self).wf(),
            old(self).completed < old(self).total,
        ensures
            final(self).wf(),
            final(self).completed == old(self).completed + 1,
            final(self).kind == old(self).kind,
            final(self).total == old(self).total,
            final(self).counts == old(self).counts,
            final(self).failed == old(self).failed,
            r matches Report::Error { message } && message@ == "  "@ + name@ + ": read error: "@
                + error@,
    {
        self.completed = self.completed + 1;
        let mut message: String = file_text(name, ": read error: ");
        message.append(error);
        Report::Error { message }
    }

    /// An issue is over. One that was cancelled on the way counts as not imported, so that
    /// it is imported whole another time. An error does not end the run: the issue is
    /// noted, and left for another time.
    pub fn issue_over(&mut self, id: i32, outcome: FileOutcome, cancelled: bool) -> (step: FileStep)
        requires
            old(self).wf(),
            old(self).kind is Issues,
            old(self).completed < old(self).total,
            outcome matches FileOutcome::Imported(c) ==> fits(old(self).counts, c),
        ensures
            final(self).wf(),
            final(self).kind == old(self).kind,
            final(self).total == old(self).total,
            match outcome {
                FileOutcome::Imported(c) => if cancelled {
                    &&& step.stop
                    &&& step.mark_imported is None
                    &&& step.progress is None
                    &&& step.report matches Report::Log { message }
                    &&& message@ == issue_label(id)
                        + "cancelled mid-import — left unimported, will re-import on next sync."@
                    &&& final(self).completed == old(self).completed
                    &&& final(self).counts == old(self).counts
                    &&& final(self).failed == old(self).failed
                } else {
                    &&& !step.stop
                    &&& step.mark_imported == Some(c.imported as i32)
                    &&& step.report matches Report::Log { message }
                    &&& message@ == issue_label(id) + summary(c)
                    &&& file_progress(*final(self), step.progress)
                    &&& final(self).completed == old(self).completed + 1
                    &&& final(self).counts == added(old(self).counts, c)
                    &&& final(self).failed == old(self).failed
                },
                FileOutcome::Failed(e) => {
                    &&& !step.stop
                    &&& step.mark_imported is None
                    &&& step.report matches Report::Log { message }
                    &&& message@ == issue_label(id) + "skipped — "@ + e@
                    &&& file_progress(*final(self), step.progress)
                    &&& final(self).completed == old(self).completed + 1
                    &&& final(self).counts == old(self).counts
                    &&& final(self).failed@ == old(self).failed@.push(id)
                },
            },
    {
        let mut message: String = issue_text(id);
        match outcome {
            FileOutcome::Imported(c) => {
                if cancelled {
                    message.append(
                        "cancelled mid-import — left unimported, will re-import on next sync.",
                    );
                    return FileStep {
                        mark_imported: None,
                        report: Report::Log { message },
                        progress: None,
                        stop: true,
                    };
                }
                self.add_counts(c);
                let line: String = import_summary(c);
                message.append(line.as_str());
                self.completed = self.completed + 1;
                let progress: Option<Report> = self.progress_report();
                FileStep {
                    mark_imported: Some(c.imported as i32),
                    report: Report::Log { message },
                    progress,
                    stop: false,
                }
            },
            FileOutcome::Failed(e) => {
                self.failed.push(id);
                message.append("skipped — ");
                message.append(e.as_str());
                self.completed = self.completed + 1;
                let progress: Option<Report> = self.progress_report();
                FileStep {
                    mark_imported: None,
                    report: Report::Log { message },
                    progress,
                    stop: false,
                }
            },
        }
    }

    fn add_counts(&mut self, c: GameCounts)
        requires
            old(self).wf(),
            fits(old(self).counts, c),
        ensures
            final(self).wf(),
            final(self).counts == added(old(self).counts, c),
            final(self).kind == old(self).kind,
            final(self).total == old(self).total,
            final(self).completed == old(self).completed,
            final(self).failed == old(self).failed,
    {
        self.counts =
        GameCounts {
            imported: self.counts.imported + c.imported,
            duplicates: self.counts.duplicates + c.duplicates,
            nonstandard: self.counts.nonstandard + c.nonstandard,
            outside_window: self.counts.outside_window + c.outside_window,
        };
    }

    /// A file given by hand is over.
    pub fn file_over(&mut self, name: &str, outcome: FileOutcome) -> (step: FileStep)
        requires
            old(self).wf(),
            old(self).kind is Files,
            old(self).completed < old(self).total,
            outcome matches FileOutcome::Imported(c) ==> fits(old(self).counts, c),
        ensures
            final(self).wf(),
            final(self).kind == old(self).kind,
            final(self).total == old(self).total,
            final(self).completed == old(self).completed + 1,
            final(self).failed == old(self).failed,
            !step.stop,
            file_progress(*final(self), step.progress),
            match outcome {
                FileOutcome::Imported(c) => {
                    &&& step.mark_imported == Some(c.imported as i32)
                    &&& step.report matches Report::Log { message }
                    &&& message@ == "  "@ + name@ + ": "@ + summary(c)
                    &&& final(self).counts == added(old(self).counts, c)
                },
                FileOutcome::Failed(e) => {
                    &&& step.mark_imported is None
                    &&& step.report matches Report::Error { message }
                    &&& message@ == "  "@ + name@ + ": error: "@ + e@
                    &&& final(self).counts == old(self).counts
                },
            },
    {
        match outcome {
            FileOutcome::Imported(c) => {
                self.add_counts(c);
                let mut message: String = file_text(name, ": ");
                let line: String = import_summary(c);
                message.append(line.as_str());
                self.completed = self.completed + 1;
                let progress: Option<Report> = self.progress_report();
                FileStep {
                    mark_imported: Some(c.imported as i32),
                    report: Report::Log { message },
                    progress,
                    stop: false,
                }
            },
            FileOutcome::Failed(e) => {
                let mut message: String = file_text(name, ": error: ");
                message.append(e.as_str());
                self.completed = self.completed + 1;
                let progress: Option<Report> = self.progress_report();
                FileStep {
                    mark_imported: None,
                    report: Report::Error { message },
                    progress,
                    stop: false,
                }
            },
        }
    }

    /// Tells which issues failed, if any did.
    pub fn failures(&self) -> (r: Option<Report>)
        ensures
            if self.failed@.len() == 0 {
                r is None
            } else {
                r matches Some(Report::Log { message }) && message@ == text::dec(
                    self.failed@.len(),
                ) + " issue(s) skipped due to errors, left unimported — re-run to retry: "@
                    + text::join(number_texts(self.failed@), ", "@)
            },
    {
        if self.failed.len() == 0 {
            return None;
        }
        let mut ids: Vec<String> = Vec::new();
        let mut i: usize = 0;
        while i < self.failed.len()
            invariant
                i <= self.failed.len(),
                text::texts(ids@) == number_texts(self.failed@).take(i as int),
            decreases self.failed.len() - i,
        {
            let ghost had = text::texts(ids@);
            ids.push(signed_decimal(self.failed[i] as i64));
            i += 1;
            assert(text::texts(ids@) =~= had.push(
                text::signed_dec(self.failed@[i - 1] as int),
            ));
            assert(text::texts(ids@) =~= number_texts(self.failed@).take(i as int));
        }
        assert(text::texts(ids@) =~= number_texts(self.failed@));
        let mut message: String = String::new();
        append_num(&mut message, self.failed.len() as u64);
        assert(message@ =~= text::dec(self.failed@.len()));
        message.append(
            " issue(s) skipped due to errors, left unimported — re-run to retry: ",
        );
        let list: String = joined(&ids, ", ");
        message.append(list.as_str());
        Some(Report::Log { message })
    }

    /// The report at the end.
    pub fn done(&self, collection: &str) -> (r: Report)
        requires
            self.wf(),
        ensures
            r matches Report::Done { message } && message@ == summary(self.counts) + " into "@
                + collection@ + "."@,
    {
        let mut message: String = import_summary(self.counts);
        message.append(" into ");
        message.append(collection);
        message.append(".");
        Report::Done { message }
    }
}

pub open spec fn number_texts(v: Seq<i32>) -> Seq<Seq<char>> {
    v.map_values(|n: i32| text::signed_dec(n as int))
}

// ── Laws of imported games ───────────────────────────────────────────────────

/// The row of a game holds what is known of the game, each in its own column.
pub proof fn law_rows_hold_the_game(
    g: GameData,
    id: u32,
    issue_id: i32,
    visibility: Visibility,
    white_id: u32,
    black_id: u32,
)
    ensures
        ({
            let row = row_of(g, id, issue_id, visibility, white_id, black_id);
            &&& row.id == id
            &&& row.issue_id == issue_id
            &&& row.visibility == visibility
            &&& row.white_id == white_id
            &&& row.black_id == black_id
            &&& row.white_elo == g.white_elo
            &&& row.black_elo == g.black_elo
            &&& row.event == g.event
            &&& row.site == g.site
            &&& row.date == g.date
            &&& row.round == g.round
            &&& row.result == g.result
            &&& row.eco == g.eco
            &&& row.move_count == g.move_count
            &&& row.pgn == g.pgn
            &&& row.opening_line == g.opening_line
            &&& row.chessbase_id == g.chessbase_id
        }),
{
}

/// The ratings in the tags of a game are those of its row: White's is White's, and Black's is
/// Black's.
pub proof fn law_ratings_reach_the_row(
    t: visitor::TagsView,
    white: i16,
    black: i16,
    m: visitor::MovetextView,
    fallback: Option<Seq<char>>,
    current_year: u32,
    g: GameData,
    id: u32,
    issue_id: i32,
    visibility: Visibility,
    white_id: u32,
    black_id: u32,
)
    requires
        white > 0,
        black > 0,
        text::trim(text::signed_dec(white as int)) == text::signed_dec(white as int),
        text::trim(text::signed_dec(black as int)) == text::signed_dec(black as int),
        m.tags == visitor::tagged(
            visitor::tagged(t, "WhiteElo"@, text::signed_dec(white as int)),
            "BlackElo"@,
            text::signed_dec(black as int),
        ),
        visitor::is_game(Some(g), m, fallback, current_year),
    ensures
        row_of(g, id, issue_id, visibility, white_id, black_id).white_elo == Some(white),
        row_of(g, id, issue_id, visibility, white_id, black_id).black_elo == Some(black),
{
    let first = visitor::tagged(t, "WhiteElo"@, text::signed_dec(white as int));
    visitor::law_players_have_their_own_tags(t, text::signed_dec(white as int));
    visitor::law_players_have_their_own_tags(first, text::signed_dec(black as int));
    visitor::law_ratings_read_back(white as int);
    visitor::law_ratings_read_back(black as int);
}

/// What the tags of a game say is what its row says.
pub proof fn law_tags_reach_the_row(
    m: visitor::MovetextView,
    fallback: Option<Seq<char>>,
    current_year: u32,
    g: GameData,
    id: u32,
    issue_id: i32,
    visibility: Visibility,
    white_id: u32,
    black_id: u32,
)
    requires
        visitor::is_game(Some(g), m, fallback, current_year),
    ensures
        ({
            let row = row_of(g, id, issue_id, visibility, white_id, black_id);
            &&& row.white_elo == m.tags.white_elo
            &&& row.black_elo == m.tags.black_elo
            &&& reporter::opt_text(row.event) == m.tags.event
            &&& reporter::opt_text(row.site) == m.tags.site
            &&& reporter::opt_text(row.round) == m.tags.round
            &&& reporter::opt_text(row.result) == m.tags.result
            &&& reporter::opt_text(row.eco) == m.tags.eco
            &&& row.chessbase_id == m.tags.chessbase_id
            &&& row.move_count == m.move_count
            &&& row.pgn@ == m.tags.pgn_headers + "\n"@ + m.moves_buf
        }),
{
}

/// The index rows of a game are its positions in order, all under its number.
pub proof fn law_index_rows_hold_the_positions(id: u32, v: Seq<PositionEntry>, i: int)
    requires
        0 <= i < v.len(),
    ensures
        index_rows(id, v).len() == v.len(),
        index_rows(id, v)[i].game_id == id,
        index_rows(id, v)[i].move_number == v[i].0,
        index_rows(id, v)[i].zobrist_hash == v[i].1,
        index_rows(id, v)[i].next_move == v[i].2,
{
}

/// White is looked up first, then Black, each under their own name and FIDE ID.
pub proof fn law_players_are_looked_up(v: import_context::PlayersView, g: GameData)
    ensures
        players_of(v, g).0 == import_context::resolve(v, g.white->0@, g.white_fide_id),
        players_of(v, g).1 == import_context::resolve(
            import_context::after_resolve(v, g.white->0@, g.white_fide_id),
            g.black->0@,
            g.black_fide_id,
        ),
{
}

/// A game whose players have one name is a game of one player against themselves.
pub proof fn law_one_name_is_one_player(v: import_context::PlayersView, g: GameData)
    requires
        g.white->0@ == g.black->0@,
    ensures
        import_context::resolved_id(players_of(v, g).0) == import_context::resolved_id(
            players_of(v, g).1,
        ),
{
    import_context::law_a_name_stays_the_same_player(
        v,
        g.white->0@,
        g.white_fide_id,
        g.black_fide_id,
    );
}

/// A game that was added is a duplicate when it comes again, unless duplicates are taken.
pub proof fn law_a_game_that_comes_again_is_a_duplicate(ctx: ImportContext, later: ImportContext, g: GameData)
    requires
        !ctx.skip_dedup,
        fate(ctx, g, true) is Added,
        later.players() == players_of(ctx.players(), g).2,
        later.games() == import_context::after_new_game(
            ctx.games(),
            g.chessbase_id,
            import_context::fingerprint_of(
                key_of(
                    g,
                    import_context::resolved_id(players_of(ctx.players(), g).0),
                    import_context::resolved_id(players_of(ctx.players(), g).1),
                ),
            ),
        ),
    ensures
        fate(later, g, true) == Taken::Duplicate(ctx.next_game_id),
{
    let v = ctx.players();
    let w = g.white->0@;
    let b = g.black->0@;
    let v2 = import_context::after_resolve(v, w, g.white_fide_id);
    let v3 = import_context::after_resolve(v2, b, g.black_fide_id);
    import_context::law_a_name_stays_the_same_player(v, w, g.white_fide_id, g.white_fide_id);
    import_context::law_other_names_keep_their_player(v2, b, g.black_fide_id, w);
    import_context::law_a_name_stays_the_same_player(v2, b, g.black_fide_id, g.black_fide_id);
    import_context::law_other_names_keep_their_player(v3, w, g.white_fide_id, b);
}

/// Why a game is not taken: a game that is not standard chess, one outside the window, or one
/// without a player's name; every other game is added or is a duplicate.
pub proof fn law_why_games_are_left_out(ctx: ImportContext, g: GameData, admitted: bool)
    ensures
        fate(ctx, g, admitted) is NonStandard <==> g.non_standard,
        fate(ctx, g, admitted) is OutsideWindow <==> !g.non_standard && !admitted,
        fate(ctx, g, admitted) is Unnamed <==> !g.non_standard && admitted && !(is_named(g.white)
            && is_named(g.black)),
        fate(ctx, g, admitted) matches Taken::Added(id) ==> id == ctx.next_game_id,
        is_wanted(g, admitted) && ctx.skip_dedup ==> fate(ctx, g, admitted) is Added,
        is_wanted(g, admitted) <==> fate(ctx, g, admitted) is Added || fate(
            ctx,
            g,
            admitted,
        ) is Duplicate,
{
}

/// Games are told apart by their players, date, result, opening and length.
pub proof fn law_a_game_is_known_by(g: GameData, h: GameData, white_id: u32, black_id: u32)
    ensures
        key_of(g, white_id, black_id).white_id == white_id,
        key_of(g, white_id, black_id).black_id == black_id,
        key_of(g, white_id, black_id) == key_of(h, white_id, black_id) ==> {
            &&& reporter::opt_text(g.date) == reporter::opt_text(h.date)
            &&& reporter::opt_text(g.result) == reporter::opt_text(h.result)
            &&& g.opening_line@ == h.opening_line@
            &&& g.move_count == h.move_count
        },
{
}

/// Both ends of a window belong to it, and without ends it takes every dated game.
pub proof fn law_windows_have_their_ends(w: Window, date: Seq<char>)
    ensures
        w.from is Some && w.to is None && w.from->0@ == date ==> w.has(Some(date)),
        w.to is Some && w.from is None && w.to->0@ == date ==> w.has(Some(date)),
        w.from is None && w.to is None ==> w.has(Some(date)),
        w.from is Some && is_before(date, w.from->0@) ==> !w.has(Some(date)),
        w.to is Some && is_before(w.to->0@, date) ==> !w.has(Some(date)),
        w.has(None) <==> !w.exclude_undated,
{
    sorting::law_order_is_strict(sorting::codes(date), sorting::codes(date), sorting::codes(date));
}

/// The counts of a run are the sums of those of its files, each reason for itself.
pub proof fn law_counts_add_up(a: GameCounts, b: GameCounts)
    requires
        fits(a, b),
    ensures
        added(a, b).imported == a.imported + b.imported,
        added(a, b).duplicates == a.duplicates + b.duplicates,
        added(a, b).nonstandard == a.nonstandard + b.nonstandard,
        added(a, b).outside_window == a.outside_window + b.outside_window,
        skipped(added(a, b)) == skipped(a) + skipped(b),
{
}

/// A run without skipped games names none, and each reason is named with its count.
pub proof fn law_reasons_are_named(c: GameCounts)
    ensures
        skip_reasons(c).len() == 0 <==> skipped(c) == 0,
        c.duplicates > 0 ==> skip_reasons(c).contains(
            text::dec(c.duplicates as nat) + " duplicates"@,
        ),
        c.nonstandard > 0 ==> skip_reasons(c).contains(
            text::dec(c.nonstandard as nat) + " non-standard (Chess960/fragments)"@,
        ),
        c.outside_window > 0 ==> skip_reasons(c).contains(
            text::dec(c.outside_window as nat) + " outside date window"@,
        ),
{
    let a = if c.duplicates > 0 {
        seq![text::dec(c.duplicates as nat) + " duplicates"@]
    } else {
        Seq::empty()
    };
    let x = text::dec(c.nonstandard as nat) + " non-standard (Chess960/fragments)"@;
    let y = text::dec(c.outside_window as nat) + " outside date window"@;
    let b = if c.nonstandard > 0 {
        a.push(x)
    } else {
        a
    };
    let r = skip_reasons(c);
    if c.duplicates > 0 {
        assert(r[0] == a[0]);
    }
    if c.nonstandard > 0 {
        assert(r[a.len() as int] == x);
    }
    if c.outside_window > 0 {
        assert(r[b.len() as int] == y);
    }
}

/// The kinds of files are told by their endings.
pub proof fn law_files_are_told_by_their_endings(stem: Seq<char>)
    requires
        stem.len() > 0,
    ensures
        kind_of(extension(stem + ".pgn"@)) == Some(InputKind::Plain),
        kind_of(extension(stem + ".PGN"@)) == Some(InputKind::Plain),
        kind_of(extension(stem + ".zst"@)) == Some(InputKind::Zstd),
        kind_of(extension(stem + ".zip"@)) == Some(InputKind::Zip),
        kind_of(extension(stem + ".7z"@)) == Some(InputKind::SevenZip),
        kind_of(extension(stem + ".txt"@)) is None,
{
    reveal_strlit(".pgn");
    reveal_strlit(".PGN");
    reveal_strlit(".zst");
    reveal_strlit(".zip");
    reveal_strlit(".7z");
    reveal_strlit(".txt");
    reveal_strlit("pgn");
    reveal_strlit("zst");
    reveal_strlit("zstd");
    reveal_strlit("zip");
    reveal_strlit("7z");
    reveal_strlit("");
    lemma_extension(stem, "pgn"@);
    lemma_extension(stem, seq!['P', 'G', 'N']);
    lemma_extension(stem, "zst"@);
    lemma_extension(stem, "zip"@);
    lemma_extension(stem, "7z"@);
    lemma_extension(stem, seq!['t', 'x', 't']);
    assert(stem + ".pgn"@ =~= stem + seq!['.'] + "pgn"@);
    assert(stem + ".PGN"@ =~= stem + seq!['.'] + seq!['P', 'G', 'N']);
    assert(stem + ".zst"@ =~= stem + seq!['.'] + "zst"@);
    assert(stem + ".zip"@ =~= stem + seq!['.'] + "zip"@);
    assert(stem + ".7z"@ =~= stem + seq!['.'] + "7z"@);
    assert(stem + ".txt"@ =~= stem + seq!['.'] + seq!['t', 'x', 't']);
    assert("zst"@[0] == 'z' && "zst"@[1] == 's' && "zip"@[1] == 'i' && "pgn"@[0] == 'p');
    assert(text::ascii_lowercase("pgn"@) =~= "pgn"@);
    assert(text::ascii_lowercase(seq!['P', 'G', 'N']) =~= "pgn"@);
    assert(text::ascii_lowercase("zst"@) =~= "zst"@);
    assert(text::ascii_lowercase("zip"@) =~= "zip"@);
    assert(text::ascii_lowercase("7z"@) =~= "7z"@);
    assert(text::ascii_lowercase(seq!['t', 'x', 't']) =~= seq!['t', 'x', 't']);
}

proof fn lemma_extension(stem: Seq<char>, ext: Seq<char>)
    requires
        stem.len() > 0,
        !ext.contains('.'),
    ensures
        extension(stem + seq!['.'] + ext) == text::ascii_lowercase(ext),
{
    let name = stem + seq!['.'] + ext;
    let n = stem.len() as int;
    assert(name[n] == '.');
    assert(name.skip(n + 1) =~= ext);
    assert(0 < n < name.len() && name[n] == '.' && !name.skip(n + 1).contains('.'));
    let k = choose|i: int|
        0 < i < name.len() && #[trigger] name[i] == '.' && !name.skip(i + 1).contains('.');
    if k < n {
        assert(name.skip(k + 1)[n - k - 1] == '.');
        assert(name.skip(k + 1).contains('.'));
    } else if k > n {
        assert(ext[k - n - 1] == '.');
        assert(ext.contains('.'));
    }
    assert(k == n);
}

/// A new player is added at the end, and a FIDE ID that fills a gap is noted with its player;
/// anything else changes neither list.
pub proof fn law_new_players_are_noted(
    s: Seq<import_context::NewPlayerView>,
    t: Seq<(u32, u32)>,
    r: import_context::Resolution,
)
    ensures
        r matches import_context::Resolution::Created { player } ==> with_created(s, r) == s.push(
            player,
        ) && with_filled(t, r) == t,
        r matches import_context::Resolution::Filled { id, fide_id } ==> with_filled(t, r)
            == t.push((id, fide_id)) && with_created(s, r) == s,
        r is Known ==> with_created(s, r) == s && with_filled(t, r) == t,
{
}

/// What is told at the end says how many games came in, and how many were left out and why,
/// if any were.
pub proof fn law_summaries_tell_the_counts(c: GameCounts)
    ensures
        skipped(c) == 0 ==> summary(c) == text::dec(c.imported as nat) + " games imported"@,
        skipped(c) > 0 ==> summary(c) == text::dec(c.imported as nat) + " games imported, "@
            + text::dec(skipped(c) as nat) + " skipped ("@ + text::join(skip_reasons(c), ", "@)
            + ")"@,
{
    law_reasons_are_named(c);
}

/// Files are taken for what their endings say; one without an ending is not taken.
pub proof fn law_which_files_are_taken(stem: Seq<char>)
    requires
        stem.len() > 0,
        !stem.contains('.'),
    ensures
        is_supported(stem + ".pgn"@),
        is_supported(stem + ".zst"@),
        is_supported(stem + ".zip"@),
        is_supported(stem + ".7z"@),
        !is_supported(stem + ".txt"@),
        !is_supported(stem),
        is_pgn_entry(stem + ".pgn"@),
        is_pgn_entry(stem + ".PGN"@),
{
    law_files_are_told_by_their_endings(stem);
    reveal_strlit(".pgn");
    reveal_strlit(".PGN");
    reveal_strlit(".zst");
    reveal_strlit(".zip");
    reveal_strlit(".7z");
    reveal_strlit("");
    lemma_extension(stem, seq!['p', 'g', 'n']);
    lemma_extension(stem, seq!['z', 's', 't']);
    lemma_extension(stem, seq!['z', 'i', 'p']);
    lemma_extension(stem, seq!['7', 'z']);
    assert(stem + ".pgn"@ =~= stem + seq!['.'] + seq!['p', 'g', 'n']);
    assert(stem + ".zst"@ =~= stem + seq!['.'] + seq!['z', 's', 't']);
    assert(stem + ".zip"@ =~= stem + seq!['.'] + seq!['z', 'i', 'p']);
    assert(stem + ".7z"@ =~= stem + seq!['.'] + seq!['7', 'z']);
    assert forall|i: int| 0 <= i < stem.len() implies #[trigger] stem[i] != '.' by {
        assert(stem.contains(stem[i]));
    }
    assert(dot_of(stem) is None);
    assert(extension(stem) =~= ""@);
    let n = stem.len() as int;
    assert(text::ascii_lowercase(stem + ".pgn"@).skip(n) =~= ".pgn"@);
    assert(text::ascii_lowercase(stem + ".PGN"@).skip(n) =~= ".pgn"@);
}

/// Of two dates the one with the lower digit, in the first place where they differ, comes
/// before the other.
pub proof fn law_dates_follow_each_other(a: Seq<char>, c: char, d: char, x: Seq<char>, y: Seq<char>)
    requires
        (c as u32) < (d as u32),
    ensures
        is_before(a + seq![c] + x, a + seq![d] + y),
        !is_before(a + seq![d] + y, a + seq![c] + x),
{
    sorting::law_texts_are_ordered_by_their_characters(a, c, d, x, y);
    let p = sorting::codes(a + seq![c] + x);
    let q = sorting::codes(a + seq![d] + y);
    sorting::law_order_is_strict(p, q, p);
}

/// A run tells at the beginning how much it imports, and what it does about positions.
pub proof fn law_runs_tell_what_they_do(count: nat, depth: i16)
    ensures
        opening_logs(RunKind::Issues, count, false, None) == seq![
            "Importing "@ + text::dec(count) + " issue(s)..."@,
        ],
        opening_logs(RunKind::Files, count, false, None) == seq![
            "Importing "@ + text::dec(count) + " PGN file(s)..."@,
        ],
        opening_logs(RunKind::Files, count, true, Some(depth)).len() == 2,
        opening_logs(RunKind::Files, count, true, Some(depth))[1]
            == "Bulk mode: indexes dropped for faster import. Positions skipped."@,
        opening_logs(RunKind::Files, count, false, Some(depth))[1]
            == "Position indexing enabled (depth: "@ + text::signed_dec(depth as int)
            + " half-moves)."@,
{
}

} // verus!
