//! Changes to single games, players and collections: when they are made, and what is told.
use crate::csv_file;
use crate::csv_file::{field_text, read_sound};
use crate::render;
use crate::render::PlayerInfo;
use crate::reporter;
use crate::text;
use crate::text::{append_num, debug_text, same, signed_decimal, to_lower, trimmed};
use vstd::prelude::*;
use vstd::string::*;

verus! {

/// What comes of a request: whether something is changed, and what is told.
#[derive(Debug)]
pub struct Change {
    pub apply: bool,
    pub message: String,
}

pub open spec fn not_found(what: Seq<char>, id: u32) -> Seq<char> {
    what + " "@ + text::dec(id as nat) + " not found"@
}

fn not_found_text(what: &str, id: u32) -> (m: String)
    ensures
        m@ == not_found(what@, id),
{
    let mut m: String = what.to_owned();
    m.append(" ");
    append_num(&mut m, id as u64);
    m.append(" not found");
    m
}

fn game_text(id: u32, what: &str) -> (m: String)
    ensures
        m@ == "Game "@ + text::dec(id as nat) + what@,
{
    let mut m: String = "Game ".to_owned();
    append_num(&mut m, id as u64);
    m.append(what);
    m
}

// ── Players ──────────────────────────────────────────────────────────────────

/// Decides whether a player gets a FIDE number. `other` is another player that has it.
pub fn set_fide_id(player_id: u32, fide_id: u32, exists: bool, other: Option<u32>) -> (r: Result<
    String,
    String,
>)
    ensures
        match r {
            Ok(m) => fide_id != 0 && exists && other is None && m@ == "Player "@ + text::dec(
                player_id as nat,
            ) + " updated with FIDE ID "@ + text::dec(fide_id as nat) + "."@,
            Err(m) => if fide_id == 0 {
                m@ == "fide_id must be a positive integer"@
            } else if !exists {
                m@ == not_found("player"@, player_id)
            } else {
                other is Some && m@ == "FIDE ID "@ + text::dec(fide_id as nat)
                    + " is already assigned to player "@ + text::dec(other->0 as nat)
                    + "; merge them instead"@
            },
        },
{
    if fide_id == 0 {
        return Err("fide_id must be a positive integer".to_owned());
    }
    if !exists {
        return Err(not_found_text("player", player_id));
    }
    match other {
        Some(o) => {
            let mut m: String = "FIDE ID ".to_owned();
            append_num(&mut m, fide_id as u64);
            m.append(" is already assigned to player ");
            append_num(&mut m, o as u64);
            m.append("; merge them instead");
            Err(m)
        },
        None => {
            let mut m: String = "Player ".to_owned();
            append_num(&mut m, player_id as u64);
            m.append(" updated with FIDE ID ");
            append_num(&mut m, fide_id as u64);
            m.append(".");
            Ok(m)
        },
    }
}

/// What is told before two players become one.
pub fn merge_preview(keep: &PlayerInfo, drop: &PlayerInfo) -> (out: Vec<String>)
    ensures
        text::texts(out@) == seq![
            "Keep: "@ + render::player_row(*keep),
            "Drop: "@ + render::player_row(*drop),
            text::signed_dec(drop.game_count as int) + " game(s) will be reassigned; player ["@
                + text::dec(drop.id as nat) + "] will be deleted."@,
        ],
{
    let mut out: Vec<String> = Vec::new();
    let mut a: String = "Keep: ".to_owned();
    let row: String = keep.row();
    a.append(row.as_str());
    out.push(a);
    let mut b: String = "Drop: ".to_owned();
    let row: String = drop.row();
    b.append(row.as_str());
    out.push(b);
    let mut c: String = signed_decimal(drop.game_count);
    c.append(" game(s) will be reassigned; player [");
    append_num(&mut c, drop.id as u64);
    c.append("] will be deleted.");
    out.push(c);
    assert(text::texts(out@) =~= seq![a@, b@, c@]);
    out
}

pub open spec fn bracketed(id: u32) -> Seq<char> {
    "["@ + text::dec(id as nat) + "]"@
}

fn append_bracketed(out: &mut String, id: u32)
    ensures
        final(out)@ == old(out)@ + bracketed(id),
{
    let ghost before = out@;
    out.append("[");
    append_num(out, id as u64);
    out.append("]");
    assert(out@ =~= before + bracketed(id));
}

pub open spec fn games_note(n: Option<i64>) -> Seq<char> {
    match n {
        Some(n) => "  games: "@ + text::signed_dec(n as int),
        None => ""@,
    }
}

/// What is told at the end of such a preview by number.
pub open spec fn fate_text(keep: u32, drop: u32) -> Seq<char> {
    "All of "@ + bracketed(drop) + "'s games move to "@ + bracketed(keep) + ", and player "@
        + bracketed(drop) + " is deleted."@
}

fn fate(keep: u32, drop: u32) -> (m: String)
    ensures
        m@ == fate_text(keep, drop),
{
    let mut m: String = "All of ".to_owned();
    append_bracketed(&mut m, drop);
    m.append("'s games move to ");
    append_bracketed(&mut m, keep);
    m.append(", and player ");
    append_bracketed(&mut m, drop);
    m.append(" is deleted.");
    m
}

fn numbered(label: &str, id: u32, games: Option<i64>) -> (m: String)
    ensures
        m@ == label@ + bracketed(id) + games_note(games),
{
    let mut m: String = label.to_owned();
    append_bracketed(&mut m, id);
    let mut note: String = "".to_owned();
    match games {
        Some(n) => {
            note = "  games: ".to_owned();
            let d: String = signed_decimal(n);
            note.append(d.as_str());
        },
        None => {},
    }
    m.append(note.as_str());
    m
}

/// What is told before a server makes two players one, known by their numbers and, where
/// the server said so, by how many games they have.
pub fn merge_preview_by_id(keep: u32, drop: u32, keep_games: Option<i64>, drop_games: Option<i64>) -> (out:
    Vec<String>)
    ensures
        text::texts(out@) == seq![
            "Keep: "@ + bracketed(keep) + games_note(keep_games),
            "Drop: "@ + bracketed(drop) + games_note(drop_games),
            fate_text(keep, drop),
        ],
{
    let mut out: Vec<String> = Vec::new();
    let a: String = numbered("Keep: ", keep, keep_games);
    let b: String = numbered("Drop: ", drop, drop_games);
    let c: String = fate(keep, drop);
    out.push(a);
    out.push(b);
    out.push(c);
    assert(text::texts(out@) =~= seq![a@, b@, c@]);
    out
}

/// What is told before a server makes two players one that were found by their names, or
/// that both names are one player's.
pub fn merge_preview_by_name(keep: &PlayerInfo, drop: &PlayerInfo) -> (r: Result<Vec<String>, String>)
    ensures
        match r {
            Ok(out) => keep.id != drop.id && text::texts(out@) == seq![
                "Keep: "@ + render::player_row(*keep),
                "Drop: "@ + render::player_row(*drop),
                fate_text(keep.id, drop.id),
            ],
            Err(m) => keep.id == drop.id && m@ == "both names resolve to the same player "@
                + bracketed(keep.id),
        },
{
    if keep.id == drop.id {
        let mut m: String = "both names resolve to the same player ".to_owned();
        append_bracketed(&mut m, keep.id);
        return Err(m);
    }
    let mut out: Vec<String> = Vec::new();
    let mut a: String = "Keep: ".to_owned();
    let row: String = keep.row();
    a.append(row.as_str());
    let mut b: String = "Drop: ".to_owned();
    let row: String = drop.row();
    b.append(row.as_str());
    let c: String = fate(keep.id, drop.id);
    out.push(a);
    out.push(b);
    out.push(c);
    assert(text::texts(out@) =~= seq![a@, b@, c@]);
    Ok(out)
}

/// What is told when two players have become one.
pub fn merged_message(keep: u32, drop: u32) -> (m: String)
    ensures
        m@ == "Done. Player "@ + bracketed(drop) + " merged into "@ + bracketed(keep) + "."@,
{
    let mut m: String = "Done. Player ".to_owned();
    append_bracketed(&mut m, drop);
    m.append(" merged into ");
    append_bracketed(&mut m, keep);
    m.append(".");
    m
}

/// Whether an answer to a question before a change of the database itself is yes.
pub fn is_confirmed(line: &str) -> (b: bool)
    ensures
        b == (text::lowercase(text::trim(line@)) == "y"@),
        text::is_ascii_text(text::trim(line@)) ==> b == (text::ascii_lowercase(text::trim(line@))
            == "y"@),
{
    let t: String = trimmed(line);
    let l: String = to_lower(t.as_str());
    same(l.as_str(), "y")
}

/// A correction: the name that stays and the one that goes, if a row has both.
pub open spec fn correction_in(f: Seq<Seq<char>>) -> Option<(Seq<char>, Seq<char>)> {
    let keep = csv_file::trimmed_field(f, 0);
    let drop = csv_file::trimmed_field(f, 1);
    if keep.len() == 0 || drop.len() == 0 {
        None
    } else {
        Some((keep, drop))
    }
}

/// Reads a correction from a row.
pub fn read_correction(fields: &[String]) -> (r: Option<(String, String)>)
    ensures
        match r {
            Some(c) => correction_in(text::texts(fields@)) == Some((c.0@, c.1@)),
            None => correction_in(text::texts(fields@)) is None,
        },
{
    let a: String = field_text(fields, 0);
    let b: String = field_text(fields, 1);
    if a.as_str().is_empty() || b.as_str().is_empty() {
        None
    } else {
        Some((a, b))
    }
}

/// The corrections in some rows, in order.
pub open spec fn corrections_in(rows: Seq<Seq<Seq<char>>>) -> Seq<(Seq<char>, Seq<char>)>
    decreases rows.len(),
{
    if rows.len() == 0 {
        Seq::empty()
    } else {
        let front = corrections_in(rows.drop_last());
        match correction_in(rows.last()) {
            Some(c) => front.push(c),
            None => front,
        }
    }
}

pub open spec fn pair_views(v: Seq<(String, String)>) -> Seq<(Seq<char>, Seq<char>)> {
    v.map_values(|p: (String, String)| (p.0@, p.1@))
}

/// The corrections of a file before its first broken row, and what is wrong with that row.
pub struct Corrections {
    pub pairs: Vec<(String, String)>,
    pub broken: Option<String>,
}

/// Reads a file of corrections.
pub fn read_corrections(bytes: &[u8]) -> (r: Corrections)
    ensures
        pair_views(r.pairs@) == corrections_in(csv_file::sound(csv_file::csv_rows_in(bytes@))),
        reporter::opt_text(r.broken) == csv_file::first_fault(csv_file::csv_rows_in(bytes@)),
{
    let (rows, broken) = read_sound(bytes);
    let ghost all = csv_file::record_views(rows@);
    let mut pairs: Vec<(String, String)> = Vec::new();
    let mut i: usize = 0;
    assert(all.take(0) =~= Seq::empty());
    assert(pair_views(pairs@) =~= Seq::empty());
    while i < rows.len()
        invariant
            i <= rows.len(),
            all == csv_file::record_views(rows@),
            pair_views(pairs@) == corrections_in(all.take(i as int)),
        decreases rows.len() - i,
    {
        proof {
            assert(all[i as int] == text::texts(rows@[i as int]@));
            assert(all.take(i + 1).drop_last() =~= all.take(i as int));
        }
        if let Some(c) = read_correction(&rows[i]) {
            let ghost had = pair_views(pairs@);
            pairs.push(c);
            assert(pair_views(pairs@) =~= had.push((c.0@, c.1@)));
        }
        i += 1;
    }
    assert(all.take(i as int) =~= all);
    Corrections { pairs, broken }
}

/// What is told when all corrections are made.
pub fn corrections_message(merged: u64, skipped: u64) -> (m: String)
    ensures
        m@ == "Corrections applied: "@ + text::dec(merged as nat) + " merged, "@ + text::dec(
            skipped as nat,
        ) + " skipped."@,
{
    let mut m: String = "Corrections applied: ".to_owned();
    append_num(&mut m, merged);
    m.append(" merged, ");
    append_num(&mut m, skipped);
    m.append(" skipped.");
    m
}

// ── Games ────────────────────────────────────────────────────────────────────

/// Whether a word in small letters is a visibility.
pub open spec fn is_visibility(v: Seq<char>) -> bool {
    v == "public"@ || v == "private"@
}

/// The visibility that a text asks for.
pub open spec fn visibility_in(s: Seq<char>) -> Option<Seq<char>> {
    let v = text::lowercase(text::trim(s));
    if is_visibility(v) {
        Some(v)
    } else {
        None
    }
}

/// Takes a word in small letters as a visibility, or refuses it; `shown` is what was
/// asked for.
pub fn take_visibility(word: String, shown: &str) -> (r: Result<String, String>)
    ensures
        match r {
            Ok(v) => is_visibility(word@) && v@ == word@,
            Err(m) => !is_visibility(word@) && m@
                == "visibility must be 'public' or 'private', got "@ + shown@,
        },
{
    if same(word.as_str(), "public") || same(word.as_str(), "private") {
        return Ok(word);
    }
    let mut m: String = "visibility must be 'public' or 'private', got ".to_owned();
    m.append(shown);
    Err(m)
}

/// Reads a visibility.
pub fn read_visibility(s: &str) -> (r: Result<String, String>)
    ensures
        match r {
            Ok(v) => visibility_in(s@) == Some(v@),
            Err(m) => visibility_in(s@) is None && m@
                == "visibility must be 'public' or 'private', got "@ + text::debug_form(s@),
        },
        text::is_ascii_text(text::trim(s@)) ==> (r is Ok) == is_visibility(
            text::ascii_lowercase(text::trim(s@)),
        ),
{
    let t: String = trimmed(s);
    let word: String = to_lower(t.as_str());
    let shown: String = debug_text(s);
    take_visibility(word, shown.as_str())
}

/// Decides whether a game's visibility is changed. `current` is what it is now, `None` if
/// there is no such game.
pub fn set_visibility(id: u32, visibility: &str, current: Option<Option<String>>) -> (r: Result<
    Change,
    String,
>)
    ensures
        match r {
            Ok(c) => current is Some && c.apply == !(current->0 is Some && current->0->0@
                == visibility@) && c.message@ == "Game "@ + text::dec(id as nat) + (if c.apply {
                " set to "@
            } else {
                " is already "@
            }) + visibility@ + "."@,
            Err(m) => current is None && m@ == not_found("game"@, id),
        },
{
    match current {
        None => Err(not_found_text("game", id)),
        Some(now) => {
            let already: bool = match &now {
                Some(v) => same(v.as_str(), visibility),
                None => false,
            };
            let mut m: String = game_text(
                id,
                if already {
                    " is already "
                } else {
                    " set to "
                },
            );
            m.append(visibility);
            m.append(".");
            Ok(Change { apply: !already, message: m })
        },
    }
}

/// Decides whether a game is set aside. `deleted` says whether it is already, `None` if
/// there is no such game.
pub fn soft_delete(id: u32, deleted: Option<bool>) -> (r: Result<Change, String>)
    ensures
        match r {
            Ok(c) => deleted is Some && c.apply == !deleted->0 && c.message@ == "Game "@
                + text::dec(id as nat) + (if deleted->0 {
                " already soft-deleted."@
            } else {
                " soft-deleted."@
            }),
            Err(m) => deleted is None && m@ == not_found("game"@, id),
        },
{
    match deleted {
        None => Err(not_found_text("game", id)),
        Some(true) => Ok(
            Change { apply: false, message: game_text(id, " already soft-deleted.") },
        ),
        Some(false) => Ok(Change { apply: true, message: game_text(id, " soft-deleted.") }),
    }
}

/// Decides whether a game is brought back.
pub fn restore(id: u32, deleted: Option<bool>) -> (r: Result<Change, String>)
    ensures
        match r {
            Ok(c) => deleted is Some && c.apply == deleted->0 && c.message@ == "Game "@ + text::dec(
                id as nat,
            ) + (if deleted->0 {
                " restored."@
            } else {
                " is not deleted."@
            }),
            Err(m) => deleted is None && m@ == not_found("game"@, id),
        },
{
    match deleted {
        None => Err(not_found_text("game", id)),
        Some(true) => Ok(Change { apply: true, message: game_text(id, " restored.") }),
        Some(false) => Ok(Change { apply: false, message: game_text(id, " is not deleted.") }),
    }
}

/// The players whose games are counted anew when a game comes or goes.
pub fn players_to_recount(white_id: u32, black_id: u32) -> (v: Vec<u32>)
    ensures
        v@ == (if white_id == black_id {
            seq![white_id]
        } else {
            seq![white_id, black_id]
        }),
{
    let mut v: Vec<u32> = Vec::new();
    v.push(white_id);
    if black_id != white_id {
        v.push(black_id);
        assert(v@ =~= seq![white_id, black_id]);
    } else {
        assert(v@ =~= seq![white_id]);
    }
    v
}

/// What is done about games that are set aside.
pub fn purge(count: i64, dry_run: bool) -> (c: Change)
    ensures
        c.apply == (count != 0 && !dry_run),
        c.message@ == (if count == 0 {
            "No soft-deleted games to purge."@
        } else if dry_run {
            "Would purge "@ + text::signed_dec(count as int) + " soft-deleted game(s) (dry run)."@
        } else {
            "Purged "@ + text::signed_dec(count as int) + " soft-deleted game(s)."@
        }),
{
    if count == 0 {
        return Change { apply: false, message: "No soft-deleted games to purge.".to_owned() };
    }
    let n: String = signed_decimal(count);
    if dry_run {
        let mut m: String = "Would purge ".to_owned();
        m.append(n.as_str());
        m.append(" soft-deleted game(s) (dry run).");
        return Change { apply: false, message: m };
    }
    let mut m: String = "Purged ".to_owned();
    m.append(n.as_str());
    m.append(" soft-deleted game(s).");
    Change { apply: true, message: m }
}

/// The deletion of games by a server, one after another.
pub struct DeleteRun {
    pub deleted: u32,
}

impl DeleteRun {
    pub fn new() -> (r: Self)
        ensures
            r.deleted == 0,
    {
        DeleteRun { deleted: 0 }
    }

    /// Takes the answer for a game: its HTTP status, as a number and as it is written. Gives
    /// what is told, if it is not gone now.
    pub fn answered(&mut self, id: u32, status: u16, written: &str) -> (m: Option<String>)
        requires
            old(self).deleted < u32::MAX,
        ensures
            match m {
                None => 200 <= status < 300 && final(self).deleted == old(self).deleted + 1,
                Some(t) => !(200 <= status < 300) && final(self).deleted == old(self).deleted && t@
                    == bracketed(id) + (if status == 404 {
                    " not found"@
                } else {
                    " error: "@ + written@
                }),
            },
    {
        if 200 <= status && status < 300 {
            self.deleted += 1;
            return None;
        }
        let mut m: String = String::new();
        append_bracketed(&mut m, id);
        assert(m@ =~= bracketed(id));
        if status == 404 {
            m.append(" not found");
        } else {
            m.append(" error: ");
            m.append(written);
            assert(m@ =~= bracketed(id) + (" error: "@ + written@));
        }
        Some(m)
    }

    /// What is told at the end.
    pub fn done(&self) -> (m: String)
        ensures
            m@ == text::dec(self.deleted as nat) + " game(s) deleted."@,
    {
        let mut m: String = text::decimal(self.deleted as u64);
        m.append(" game(s) deleted.");
        m
    }
}

/// The question before games are deleted.
pub fn delete_question(count: usize) -> (m: String)
    ensures
        m@ == "Delete "@ + text::dec(count as nat) + " game(s)?"@,
{
    let mut m: String = "Delete ".to_owned();
    append_num(&mut m, count as u64);
    m.append(" game(s)?");
    m
}

// ── Collections ──────────────────────────────────────────────────────────────

/// The name of a collection, if it is one.
pub fn collection_name(name: &str) -> (r: Result<String, String>)
    ensures
        match r {
            Ok(n) => text::trim(name@).len() > 0 && n@ == text::trim(name@),
            Err(m) => text::trim(name@).len() == 0 && m@ == "collection name must not be empty"@,
        },
{
    let t: String = trimmed(name);
    if t.as_str().is_empty() {
        Err("collection name must not be empty".to_owned())
    } else {
        Ok(t)
    }
}

/// A message on a game and a collection, whose name is shown in quotes.
pub open spec fn collection_text(id: u32, what: Seq<char>, shown: Seq<char>) -> Seq<char> {
    "Game "@ + text::dec(id as nat) + what + shown
}

fn collection_message(id: u32, what: &str, shown: &str) -> (m: String)
    ensures
        m@ == collection_text(id, what@, shown@),
{
    let mut m: String = game_text(id, what);
    m.append(shown);
    m
}

/// What is told when a game was put into the collection that is shown.
pub open spec fn added_text(id: u32, shown: Seq<char>, inserted: bool) -> Seq<char> {
    collection_text(
        id,
        if inserted {
            " added to collection "@
        } else {
            " is already in collection "@
        },
        shown,
    ) + "."@
}

/// What is told when a game was put into a collection whose name is shown so; `inserted`
/// says whether it was not in it before.
pub fn added_to_shown(id: u32, shown: &str, inserted: bool) -> (m: String)
    ensures
        m@ == added_text(id, shown@, inserted),
{
    let mut m: String = collection_message(
        id,
        if inserted {
            " added to collection "
        } else {
            " is already in collection "
        },
        shown,
    );
    m.append(".");
    m
}

/// What is told when a game was put into a collection; `inserted` says whether it was not
/// in it before.
pub fn added_message(id: u32, name: &str, inserted: bool) -> (m: String)
    ensures
        m@ == added_text(id, text::debug_form(name@), inserted),
{
    let shown: String = debug_text(name);
    added_to_shown(id, shown.as_str(), inserted)
}

/// What is known once a game was taken out of a collection.
#[derive(Clone, Copy, PartialEq, Eq, Structural, Debug)]
pub enum Removal {
    NoCollection,
    NotInIt,
    /// It was in it, and so many games still are.
    Removed { remaining: u64 },
}

/// What is told when a game was taken out of the collection that is shown.
pub open spec fn removed_text(id: u32, shown: Seq<char>, what: Removal) -> Seq<char> {
    match what {
        Removal::NoCollection => "Collection "@ + shown + " does not exist."@,
        Removal::NotInIt => collection_text(id, " was not in collection "@, shown) + "."@,
        Removal::Removed { remaining } => collection_text(
            id,
            " removed from collection "@,
            shown,
        ) + (if remaining == 0 {
            " — collection now empty, deleted."@
        } else {
            "."@
        }),
    }
}

/// What follows: whether the collection goes, since it is empty, and what is told.
pub fn removed_from(id: u32, name: &str, what: Removal) -> (c: Change)
    ensures
        c.apply == (what == Removal::Removed { remaining: 0 }),
        c.message@ == removed_text(id, text::debug_form(name@), what),
{
    let shown: String = debug_text(name);
    removed_from_shown(id, shown.as_str(), what)
}

/// What follows for a collection whose name is shown so.
pub fn removed_from_shown(id: u32, shown: &str, what: Removal) -> (c: Change)
    ensures
        c.apply == (what == Removal::Removed { remaining: 0 }),
        c.message@ == removed_text(id, shown@, what),
{
    match what {
        Removal::NoCollection => {
            let mut m: String = "Collection ".to_owned();
            m.append(shown);
            m.append(" does not exist.");
            Change { apply: false, message: m }
        },
        Removal::NotInIt => {
            let mut m: String = collection_message(id, " was not in collection ", shown);
            m.append(".");
            Change { apply: false, message: m }
        },
        Removal::Removed { remaining } => {
            let mut m: String = collection_message(id, " removed from collection ", shown);
            if remaining == 0 {
                m.append(" — collection now empty, deleted.");
            } else {
                m.append(".");
            }
            Change { apply: remaining == 0, message: m }
        },
    }
}

// ── Laws of corrections ──────────────────────────────────────────────────────

/// A correction says first which name stays, then which one goes; a row that lacks one of them
/// is none.
pub proof fn law_corrections_keep_the_first_name(keep: Seq<char>, gone: Seq<char>, more: Seq<Seq<char>>)
    requires
        text::trim(keep) == keep,
        text::trim(gone) == gone,
    ensures
        keep.len() > 0 && gone.len() > 0 ==> correction_in(seq![keep, gone] + more) == Some(
            (keep, gone),
        ),
        keep.len() == 0 || gone.len() == 0 ==> correction_in(seq![keep, gone] + more) is None,
        correction_in(seq![keep]) is None,
{
    let f = seq![keep, gone] + more;
    assert(f[0] == keep && f[1] == gone);
}

/// Corrections come in the order of their rows.
pub proof fn law_corrections_come_in_order(a: Seq<Seq<Seq<char>>>, b: Seq<Seq<Seq<char>>>)
    ensures
        corrections_in(a + b) == corrections_in(a) + corrections_in(b),
    decreases b.len(),
{
    if b.len() == 0 {
        assert(a + b =~= a);
        assert(corrections_in(a) + corrections_in(b) =~= corrections_in(a));
    } else {
        assert((a + b).drop_last() =~= a + b.drop_last());
        law_corrections_come_in_order(a, b.drop_last());
        assert(corrections_in(a + b) =~= corrections_in(a) + corrections_in(b));
    }
}

/// The preview of a merge says whose games go where: those of the player that is deleted, to
/// the one that stays.
pub proof fn law_previews_say_who_is_deleted(keep: u32, gone: u32)
    ensures
        fate_text(keep, gone) == "All of ["@ + text::dec(gone as nat) + "]'s games move to ["@
            + text::dec(keep as nat) + "], and player ["@ + text::dec(gone as nat)
            + "] is deleted."@,
{
    reveal_strlit("All of ");
    reveal_strlit("All of [");
    reveal_strlit("[");
    reveal_strlit("]");
    reveal_strlit("'s games move to ");
    reveal_strlit("]'s games move to [");
    reveal_strlit(", and player ");
    reveal_strlit("], and player [");
    reveal_strlit(" is deleted.");
    reveal_strlit("] is deleted.");
    let d = text::dec(gone as nat);
    let k = text::dec(keep as nat);
    assert("All of "@ + "["@ =~= "All of ["@);
    assert("]"@ + "'s games move to "@ + "["@ =~= "]'s games move to ["@);
    assert("]"@ + ", and player "@ + "["@ =~= "], and player ["@);
    assert("]"@ + " is deleted."@ =~= "] is deleted."@);
    assert(fate_text(keep, gone) =~= ("All of "@ + "["@) + d + ("]"@ + "'s games move to "@ + "["@)
        + k + ("]"@ + ", and player "@ + "["@) + d + ("]"@ + " is deleted."@));
}

/// A visibility is public or private, and nothing else is one.
pub proof fn law_visibilities(s: Seq<char>)
    ensures
        visibility_in(s) matches Some(v) ==> v == "public"@ || v == "private"@,
        text::lowercase(text::trim(s)) == "public"@ ==> visibility_in(s) == Some("public"@),
        text::lowercase(text::trim(s)) == "private"@ ==> visibility_in(s) == Some("private"@),
        text::lowercase(text::trim(s)) != "public"@ && text::lowercase(text::trim(s)) != "private"@
            ==> visibility_in(s) is None,
{
}

/// What is told of a game and a collection says what happened to it.
pub proof fn law_collections_are_told(id: u32, shown: Seq<char>, remaining: u64)
    ensures
        added_text(id, shown, true) == "Game "@ + text::dec(id as nat) + " added to collection "@
            + shown + "."@,
        added_text(id, shown, false) == "Game "@ + text::dec(id as nat)
            + " is already in collection "@ + shown + "."@,
        removed_text(id, shown, Removal::NotInIt) == "Game "@ + text::dec(id as nat)
            + " was not in collection "@ + shown + "."@,
        removed_text(id, shown, Removal::NoCollection) == "Collection "@ + shown
            + " does not exist."@,
{
}

} // verus!
