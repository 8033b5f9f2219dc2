//! Players' names that go out to a file and come back from one.
use crate::csv_file;
use crate::csv_file::{csv_bytes, csv_rows, CsvRow, RowView};
use crate::ids;
use crate::ids::IdMarks;
use crate::names;
use crate::names::normalize_name;
use crate::reporter;
use crate::text;
use crate::text::{append_num, chars_of, debug_text, decimal, parse_u32};
use vstd::prelude::*;
use vstd::string::*;

verus! {

/// After so many rows the progress is told.
pub const PROGRESS_STEP: u64 = 5000;

/// What is told of an export.
pub fn export_message(count: u64, path: &str) -> (m: String)
    ensures
        m@ == (if count == 0 {
            "No normalised players to export."@
        } else {
            "Exported "@ + text::dec(count as nat) + " normalised player(s) to "@ + path@ + "."@
        }),
{
    if count == 0 {
        return "No normalised players to export.".to_owned();
    }
    let mut m: String = "Exported ".to_owned();
    append_num(&mut m, count);
    m.append(" normalised player(s) to ");
    m.append(path);
    m.append(".");
    m
}

/// A field that may be missing, as it is shown.
pub open spec fn shown_field(f: Option<Seq<char>>) -> Seq<char> {
    match f {
        Some(t) => "Some("@ + text::debug_form(t) + ")"@,
        None => "None"@,
    }
}

fn show_field(f: Option<&str>) -> (r: String)
    ensures
        r@ == shown_field(
            match f {
                Some(t) => Some(t@),
                None => None,
            },
        ),
{
    match f {
        Some(t) => {
            let mut r: String = "Some(".to_owned();
            let d: String = debug_text(t);
            r.append(d.as_str());
            r.append(")");
            r
        },
        None => "None".to_owned(),
    }
}

/// What a row comes to.
pub enum RowStep {
    /// Nothing is stored, and this is told.
    Skip(String),
    /// A player.
    Player { fide_id: u32, name: String, name_normalized: String, progress: Option<String> },
}

/// The number in a row.
pub open spec fn id_in(f: Seq<Seq<char>>) -> Option<nat> {
    match csv_file::field(f, 0) {
        Some(t) => text::parse_nat(t, u32::MAX as nat),
        None => None,
    }
}

pub open spec fn has_name(f: Seq<Seq<char>>) -> bool {
    f.len() > 1 && f[1].len() > 0
}

/// The player that a row is of, if it is one.
pub open spec fn player_of(row: RowView) -> Option<(nat, Seq<char>)> {
    match row {
        Ok(f) => if id_in(f) is Some && has_name(f) {
            Some((id_in(f)->0, f[1]))
        } else {
            None
        },
        Err(_) => None,
    }
}

/// Why a row is skipped.
pub open spec fn complaint(row: RowView) -> Seq<char> {
    match row {
        Err(e) => "  CSV parse error: "@ + e,
        Ok(f) => if id_in(f) is None {
            "  Skipping row with invalid fide_id: "@ + shown_field(csv_file::field(f, 0))
        } else {
            "  Skipping fide_id="@ + text::dec(id_in(f)->0) + " with empty name"@
        },
    }
}

/// What is told at some rows of how far the import is.
pub open spec fn progress_at(n: nat, total: nat) -> Option<Seq<char>> {
    if n % (PROGRESS_STEP as nat) == 0 {
        Some("Imported "@ + text::dec(n) + " / "@ + text::dec(total) + " players"@)
    } else {
        None
    }
}

/// Whether this is what the row with a number comes to, of so many.
pub open spec fn is_step(s: RowStep, row: RowView, n: nat, total: nat) -> bool {
    match s {
        RowStep::Skip(m) => player_of(row) is None && m@ == complaint(row),
        RowStep::Player { fide_id, name, name_normalized, progress } => {
            &&& player_of(row) == Some((fide_id as nat, name@))
            &&& name_normalized@ == names::normalized(name@)
            &&& reporter::opt_text(progress) == progress_at(n, total)
        },
    }
}

/// Where a player is stored.
#[derive(Clone, Copy, PartialEq, Eq, Structural, Debug)]
pub enum Target {
    /// In a row that there is.
    Existing(u32),
    /// In a new row with this number.
    Fresh(u32),
}

/// The import of a file, row by row.
#[derive(Clone, Copy, Debug)]
pub struct PlayersImport {
    pub total: u64,
    pub processed: u64,
    pub updated: u64,
    pub inserted: u64,
    pub errors: u64,
}

impl PlayersImport {
    /// Every row that was taken is counted once.
    pub open spec fn wf(&self) -> bool {
        self.updated + self.inserted + self.errors <= self.processed
    }

    pub fn new(total: u64) -> (i: Self)
        ensures
            i.wf(),
            i.total == total,
            i.processed == 0,
            i.updated == 0,
            i.inserted == 0,
            i.errors == 0,
    {
        PlayersImport { total, processed: 0, updated: 0, inserted: 0, errors: 0 }
    }

    /// What is told at the beginning.
    pub fn start_message(&self) -> (m: String)
        ensures
            m@ == "Importing "@ + text::dec(self.total as nat) + " players..."@,
    {
        let mut m: String = "Importing ".to_owned();
        append_num(&mut m, self.total);
        m.append(" players...");
        m
    }

    /// Takes the next row.
    pub fn take(&mut self, row: &CsvRow) -> (s: RowStep)
        requires
            old(self).wf(),
            old(self).processed < u64::MAX,
        ensures
            final(self).wf(),
            final(self).total == old(self).total,
            final(self).processed == old(self).processed + 1,
            final(self).updated == old(self).updated,
            final(self).inserted == old(self).inserted,
            is_step(s, row@, final(self).processed as nat, final(self).total as nat),
            match s {
                RowStep::Skip(_) => final(self).errors == old(self).errors + 1,
                RowStep::Player { .. } => final(self).errors == old(self).errors && final(self).updated + final(self).inserted + final(self).errors < final(self).processed,
            },
    {
        self.processed += 1;
        let f: &Vec<String> = match row {
            CsvRow::Broken(e) => {
                self.errors += 1;
                let mut m: String = "  CSV parse error: ".to_owned();
                m.append(e.as_str());
                return RowStep::Skip(m);
            },
            CsvRow::Fields(f) => f,
        };
        let id: Option<u32> = if f.len() > 0 {
            parse_u32(&chars_of(f[0].as_str()))
        } else {
            None
        };
        let fide_id: u32 = match id {
            Some(id) => id,
            None => {
                self.errors += 1;
                let mut m: String = "  Skipping row with invalid fide_id: ".to_owned();
                let shown: String = if f.len() > 0 {
                    show_field(Some(f[0].as_str()))
                } else {
                    show_field(None)
                };
                m.append(shown.as_str());
                return RowStep::Skip(m);
            },
        };
        if f.len() < 2 || f[1].as_str().is_empty() {
            self.errors += 1;
            let mut m: String = "  Skipping fide_id=".to_owned();
            append_num(&mut m, fide_id as u64);
            m.append(" with empty name");
            return RowStep::Skip(m);
        }
        let progress: Option<String> = if self.processed % PROGRESS_STEP == 0 {
            let mut m: String = "Imported ".to_owned();
            append_num(&mut m, self.processed);
            m.append(" / ");
            append_num(&mut m, self.total);
            m.append(" players");
            Some(m)
        } else {
            None
        };
        let name: String = f[1].clone();
        let name_normalized: String = normalize_name(name.as_str());
        RowStep::Player { fide_id, name, name_normalized, progress }
    }

    /// Where the player of the last row is stored: in the row that has its FIDE number, or
    /// in a new one, whose number has never been given out and is remembered. `live_max` is
    /// the highest number of a player, 0 if there is none.
    pub fn place(&mut self, existing: Option<u32>, marks: &mut IdMarks, live_max: u32) -> (t:
        Target)
        requires
            old(self).wf(),
            old(self).updated + old(self).inserted + old(self).errors < old(self).processed,
            ids::max_of(live_max, old(marks).players) < u32::MAX,
        ensures
            final(self).wf(),
            final(self).total == old(self).total,
            final(self).processed == old(self).processed,
            final(self).errors == old(self).errors,
            final(marks).games == old(marks).games,
            final(marks).collections == old(marks).collections,
            match existing {
                Some(id) => t == Target::Existing(id) && final(self).updated == old(self).updated
                    + 1 && final(self).inserted == old(self).inserted && final(marks).players
                    == old(marks).players,
                None => final(marks).players == ids::max_of(live_max, old(marks).players) + 1 && t
                    == Target::Fresh(final(marks).players) && final(self).updated
                    == old(self).updated && final(self).inserted == old(self).inserted + 1,
            },
    {
        match existing {
            Some(id) => {
                self.updated += 1;
                Target::Existing(id)
            },
            None => {
                self.inserted += 1;
                let id: u32 = if live_max < marks.players {
                    marks.players + 1
                } else {
                    live_max + 1
                };
                marks.players = id;
                Target::Fresh(id)
            },
        }
    }

    /// What is told at the end.
    pub fn done(&self) -> (m: String)
        ensures
            m@ == "Done: "@ + text::dec(self.updated as nat) + " updated, "@ + text::dec(
                self.inserted as nat,
            ) + " inserted, "@ + text::dec(self.errors as nat) + " errors."@,
    {
        let mut m: String = "Done: ".to_owned();
        append_num(&mut m, self.updated);
        m.append(" updated, ");
        append_num(&mut m, self.inserted);
        m.append(" inserted, ");
        append_num(&mut m, self.errors);
        m.append(" errors.");
        m
    }
}

// ── The file ─────────────────────────────────────────────────────────────────

/// How many rows are not of a player.
pub open spec fn skipped(rows: Seq<RowView>) -> nat
    decreases rows.len(),
{
    if rows.len() == 0 {
        0
    } else {
        skipped(rows.drop_last()) + (if player_of(rows.last()) is None {
            1nat
        } else {
            0
        })
    }
}

/// Reads a file of players: what each of its rows comes to, and the import in which all of
/// them have been taken and none of their players is placed yet.
pub fn read_players(bytes: &[u8]) -> (r: (PlayersImport, Vec<RowStep>))
    ensures
        ({
            let rows = csv_file::csv_rows_in(bytes@);
            &&& r.0.wf()
            &&& r.0.total == rows.len()
            &&& r.0.processed == rows.len()
            &&& r.0.updated == 0
            &&& r.0.inserted == 0
            &&& r.0.errors == skipped(rows)
            &&& r.1@.len() == rows.len()
            &&& forall|i: int|
                0 <= i < rows.len() ==> is_step(
                    #[trigger] r.1@[i],
                    rows[i],
                    (i + 1) as nat,
                    rows.len(),
                )
        }),
{
    let rows: Vec<CsvRow> = csv_rows(bytes);
    let ghost all = csv_file::row_views(rows@);
    let mut run: PlayersImport = PlayersImport::new(rows.len() as u64);
    let mut steps: Vec<RowStep> = Vec::new();
    let mut i: usize = 0;
    assert(all.take(0) =~= Seq::empty());
    while i < rows.len()
        invariant
            i <= rows.len(),
            all == csv_file::row_views(rows@),
            run.wf(),
            run.total == rows.len(),
            run.processed == i,
            run.updated == 0,
            run.inserted == 0,
            run.errors == skipped(all.take(i as int)),
            steps@.len() == i,
            forall|k: int|
                0 <= k < i ==> is_step(#[trigger] steps@[k], all[k], (k + 1) as nat, all.len()),
        decreases rows.len() - i,
    {
        proof {
            assert(all[i as int] == rows@[i as int]@);
            assert(all.take(i + 1).drop_last() =~= all.take(i as int));
        }
        let step: RowStep = run.take(&rows[i]);
        steps.push(step);
        i += 1;
    }
    assert(all.take(i as int) =~= all);
    (run, steps)
}

/// The record of a player in a file.
pub open spec fn player_record(p: (u32, String)) -> Seq<Seq<char>> {
    seq![text::dec(p.0 as nat), p.1@]
}

pub open spec fn player_records(players: Seq<(u32, String)>) -> Seq<Seq<Seq<char>>> {
    players.map_values(|p: (u32, String)| player_record(p))
}

/// The file of some players: headings, and a row for each.
pub fn players_csv(players: &[(u32, String)]) -> (out: Vec<u8>)
    ensures
        out@ == csv_file::csv_of(
            seq![seq!["fide_id"@, "name"@]] + player_records(players@),
        ),
        csv_file::csv_rows_in(out@) == csv_file::all_sound(player_records(players@)),
{
    let mut records: Vec<Vec<String>> = Vec::new();
    let mut head: Vec<String> = Vec::new();
    head.push("fide_id".to_owned());
    head.push("name".to_owned());
    let ghost top = seq!["fide_id"@, "name"@];
    assert(text::texts(head@) =~= top);
    records.push(head);
    assert(csv_file::record_views(records@) =~= seq![top] + player_records(players@.take(0)));
    let mut i: usize = 0;
    while i < players.len()
        invariant
            i <= players.len(),
            top == seq!["fide_id"@, "name"@],
            csv_file::record_views(records@) == seq![top] + player_records(players@.take(i as int)),
        decreases players.len() - i,
    {
        let ghost had = csv_file::record_views(records@);
        let mut r: Vec<String> = Vec::new();
        r.push(decimal(players[i].0 as u64));
        r.push(players[i].1.clone());
        assert(text::texts(r@) =~= player_record(players@[i as int]));
        records.push(r);
        i += 1;
        proof {
            assert(csv_file::record_views(records@) =~= had.push(player_record(players@[i - 1])));
            assert(player_records(players@.take(i as int)) =~= player_records(
                players@.take(i - 1),
            ).push(player_record(players@[i - 1])));
            assert(csv_file::record_views(records@) =~= seq![top] + player_records(
                players@.take(i as int),
            ));
        }
    }
    proof {
        assert(players@.take(i as int) =~= players@);
        reveal_strlit("fide_id");
        let all = csv_file::record_views(records@);
        assert(all[0] == top);
        assert forall|k: int| 0 <= k < all.len() implies (#[trigger] all[k]).len() == all[0].len() by {
            if k > 0 {
                assert(all[k] == player_records(players@)[k - 1]);
            }
        }
        assert(all.skip(1) =~= player_records(players@));
    }
    csv_bytes(&records)
}

/// A player that goes out to a file is the one that comes back from it, whatever is in the
/// name: only one without a name does not come back.
pub proof fn law_players_come_back(players: Seq<(u32, String)>, i: int)
    requires
        0 <= i < players.len(),
    ensures
        player_of(csv_file::all_sound(player_records(players))[i]) == (if players[i].1@.len() > 0 {
            Some((players[i].0 as nat, players[i].1@))
        } else {
            None
        }),
{
    let p = players[i];
    text::law_decimal_reads_back(p.0 as nat, u32::MAX as nat);
    assert(csv_file::all_sound(player_records(players))[i] == Ok::<Seq<Seq<char>>, Seq<char>>(
        player_record(p),
    ));
    assert(player_record(p)[0] == text::dec(p.0 as nat));
}

/// A row with a number and a name is that player, whatever other fields it has; a row
/// without a name, or without a number, is none.
pub proof fn law_rows_are_players(id: u32, name: Seq<char>, more: Seq<Seq<char>>, bad: Seq<char>)
    requires
        text::parse_nat(bad, u32::MAX as nat) is None,
    ensures
        name.len() > 0 ==> player_of(Ok(seq![text::dec(id as nat), name] + more)) == Some(
            (id as nat, name),
        ),
        name.len() == 0 ==> player_of(Ok(seq![text::dec(id as nat), name] + more)) is None,
        player_of(Ok(seq![bad, name] + more)) is None,
        player_of(Ok(seq![text::dec(id as nat)])) is None,
        player_of(Err(bad)) is None,
{
    text::law_decimal_reads_back(id as nat, u32::MAX as nat);
    let f = seq![text::dec(id as nat), name] + more;
    assert(f[0] == text::dec(id as nat) && f[1] == name);
    let g = seq![bad, name] + more;
    assert(g[0] == bad);
}

/// The rows that are skipped are counted one by one.
pub proof fn law_skipped_rows_add_up(a: Seq<RowView>, b: Seq<RowView>)
    ensures
        skipped(a + b) == skipped(a) + skipped(b),
    decreases b.len(),
{
    if b.len() == 0 {
        assert(a + b =~= a);
    } else {
        assert((a + b).drop_last() =~= a + b.drop_last());
        law_skipped_rows_add_up(a, b.drop_last());
    }
}

/// Progress is told at every five thousandth row, and at no other.
pub proof fn law_progress_is_told_now_and_then(n: nat, total: nat)
    ensures
        n % 5000 == 0 <==> progress_at(n, total) is Some,
        n % 5000 == 0 ==> progress_at(n, total) == Some(
            "Imported "@ + text::dec(n) + " / "@ + text::dec(total) + " players"@,
        ),
{
}

/// Why a row is skipped: it cannot be read, its number is none, or it has no name.
pub proof fn law_why_rows_are_skipped(id: u32, bad: Seq<char>, e: Seq<char>)
    requires
        text::parse_nat(bad, u32::MAX as nat) is None,
    ensures
        complaint(Err(e)) == "  CSV parse error: "@ + e,
        complaint(Ok(seq![bad])) == "  Skipping row with invalid fide_id: "@ + shown_field(
            Some(bad),
        ),
        complaint(Ok(seq![text::dec(id as nat)])) == "  Skipping fide_id="@ + text::dec(id as nat)
            + " with empty name"@,
        shown_field(None) == "None"@,
        shown_field(Some(bad)) == "Some("@ + text::debug_form(bad) + ")"@,
{
    text::law_decimal_reads_back(id as nat, u32::MAX as nat);
    let a = seq![bad];
    let b = seq![text::dec(id as nat)];
    assert(a[0] == bad && b[0] == text::dec(id as nat));
}

} // verus!
