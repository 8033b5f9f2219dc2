//! The safety copy of a database: the steps that make it, put it back and remove it.
use crate::paths::{
    setup_sentinel_path, snapshot_path, snapshot_tmp_path, snapshot_wal_path, wal_path,
};
use vstd::prelude::*;
use vstd::string::*;

verus! {

/// The files of one database.
#[derive(Clone, Copy, PartialEq, Eq, Structural, Debug)]
pub enum DbFile {
    Database,
    /// Its write-ahead log.
    Wal,
    Snapshot,
    SnapshotWal,
    /// The safety copy while it is being written.
    Partial,
    /// The mark of a first load.
    Sentinel,
}

pub open spec fn file_path(f: DbFile, db: Seq<char>) -> Seq<char> {
    match f {
        DbFile::Database => db,
        DbFile::Wal => db + ".wal"@,
        DbFile::Snapshot => db + ".snapshot"@,
        DbFile::SnapshotWal => db + ".snapshot.wal"@,
        DbFile::Partial => db + ".snapshot.tmp"@,
        DbFile::Sentinel => db + ".setup-in-progress"@,
    }
}

impl DbFile {
    /// Where the file lies, for the database at `db`.
    pub fn path(self, db: &str) -> (r: String)
        ensures
            r@ == file_path(self, db@),
    {
        match self {
            DbFile::Database => db.to_owned(),
            DbFile::Wal => wal_path(db),
            DbFile::Snapshot => snapshot_path(db),
            DbFile::SnapshotWal => snapshot_wal_path(db),
            DbFile::Partial => snapshot_tmp_path(db),
            DbFile::Sentinel => setup_sentinel_path(db),
        }
    }
}

#[derive(Clone, Copy, PartialEq, Eq, Structural, Debug)]
pub enum FileStep {
    Remove(DbFile),
    Duplicate { from: DbFile, to: DbFile },
    Rename { from: DbFile, to: DbFile },
}

/// The files that are there, each with what it holds, after a step that succeeded or had
/// nothing to work on.
pub open spec fn stepped(disk: Map<DbFile, Seq<u8>>, s: FileStep) -> Map<DbFile, Seq<u8>> {
    match s {
        FileStep::Remove(f) => disk.remove(f),
        FileStep::Duplicate { from, to } => if disk.contains_key(from) {
            disk.insert(to, disk[from])
        } else {
            disk
        },
        FileStep::Rename { from, to } => if disk.contains_key(from) {
            disk.remove(from).insert(to, disk[from])
        } else {
            disk
        },
    }
}

/// The files after all the steps.
pub open spec fn walked(disk: Map<DbFile, Seq<u8>>, steps: Seq<FileStep>) -> Map<DbFile, Seq<u8>>
    decreases steps.len(),
{
    if steps.len() == 0 {
        disk
    } else {
        stepped(walked(disk, steps.drop_last()), steps.last())
    }
}

// ── Making the copy ──────────────────────────────────────────────────────────

/// What was done last.
#[derive(Clone, Copy, PartialEq, Eq, Structural, Debug)]
pub enum SnapshotStage {
    Cleared,
    Copied,
    Published,
    WalCopied,
}

#[derive(Debug)]
pub enum SnapshotNext {
    Step { step: FileStep, stage: SnapshotStage },
    /// The copy is there, or will not be; a step that still cleans up, and what is logged.
    Over { made: bool, cleanup: Option<FileStep>, log: String },
}

pub enum SnapshotNextView {
    Step { step: FileStep, stage: SnapshotStage },
    Over { made: bool, cleanup: Option<FileStep>, log: Seq<char> },
}

impl View for SnapshotNext {
    type V = SnapshotNextView;

    open spec fn view(&self) -> SnapshotNextView {
        match self {
            SnapshotNext::Step { step, stage } => SnapshotNextView::Step {
                step: *step,
                stage: *stage,
            },
            SnapshotNext::Over { made, cleanup, log } => SnapshotNextView::Over {
                made: *made,
                cleanup: *cleanup,
                log: log@,
            },
        }
    }
}

pub const CREATING: &'static str =
    "Creating a safety snapshot of the database before rebuilding…";

/// The copy could not be made: the work goes on without one.
pub open spec fn snapshot_failed(what: Seq<char>, error: Seq<char>) -> SnapshotNextView {
    SnapshotNextView::Over {
        made: false,
        cleanup: Some(FileStep::Remove(DbFile::Partial)),
        log: what + error + "); proceeding without one."@,
    }
}

pub open spec fn snapshot_made() -> SnapshotNextView {
    SnapshotNextView::Over { made: true, cleanup: None, log: "Safety snapshot created."@ }
}

/// What comes after a stage. The database is copied under another name first, and gets the
/// name of the copy when it is complete; a write-ahead log that is there is copied last,
/// and whether that succeeds does not matter.
pub open spec fn next_of(
    stage: SnapshotStage,
    error: Option<Seq<char>>,
    wal: bool,
) -> SnapshotNextView {
    match stage {
        SnapshotStage::Cleared => SnapshotNextView::Step {
            step: FileStep::Duplicate { from: DbFile::Database, to: DbFile::Partial },
            stage: SnapshotStage::Copied,
        },
        SnapshotStage::Copied => match error {
            Some(e) => snapshot_failed("Could not create safety snapshot ("@, e),
            None => SnapshotNextView::Step {
                step: FileStep::Rename { from: DbFile::Partial, to: DbFile::Snapshot },
                stage: SnapshotStage::Published,
            },
        },
        SnapshotStage::Published => match error {
            Some(e) => snapshot_failed("Could not finalise safety snapshot ("@, e),
            None => if wal {
                SnapshotNextView::Step {
                    step: FileStep::Duplicate { from: DbFile::Wal, to: DbFile::SnapshotWal },
                    stage: SnapshotStage::WalCopied,
                }
            } else {
                snapshot_made()
            },
        },
        SnapshotStage::WalCopied => snapshot_made(),
    }
}

pub open spec fn error_text(e: Option<&str>) -> Option<Seq<char>> {
    match e {
        Some(t) => Some(t@),
        None => None,
    }
}

fn failed(what: &str, error: &str) -> (n: SnapshotNext)
    ensures
        n@ == snapshot_failed(what@, error@),
{
    let mut log = what.to_owned();
    log.append(error);
    log.append("); proceeding without one.");
    SnapshotNext::Over { made: false, cleanup: Some(FileStep::Remove(DbFile::Partial)), log }
}

/// The first step of a safety copy: what an earlier attempt left behind goes.
pub fn make_safety_snapshot() -> (r: (FileStep, SnapshotStage))
    ensures
        r == (FileStep::Remove(DbFile::Partial), SnapshotStage::Cleared),
{
    (FileStep::Remove(DbFile::Partial), SnapshotStage::Cleared)
}

/// The step after a stage that ended with `error`; `wal` says whether there is a
/// write-ahead log.
pub fn snapshot_next(stage: SnapshotStage, error: Option<&str>, wal: bool) -> (n: SnapshotNext)
    ensures
        n@ == next_of(stage, error_text(error), wal),
{
    match stage {
        SnapshotStage::Cleared => SnapshotNext::Step {
            step: FileStep::Duplicate { from: DbFile::Database, to: DbFile::Partial },
            stage: SnapshotStage::Copied,
        },
        SnapshotStage::Copied => match error {
            Some(e) => failed("Could not create safety snapshot (", e),
            None => SnapshotNext::Step {
                step: FileStep::Rename { from: DbFile::Partial, to: DbFile::Snapshot },
                stage: SnapshotStage::Published,
            },
        },
        SnapshotStage::Published => match error {
            Some(e) => failed("Could not finalise safety snapshot (", e),
            None => if wal {
                SnapshotNext::Step {
                    step: FileStep::Duplicate { from: DbFile::Wal, to: DbFile::SnapshotWal },
                    stage: SnapshotStage::WalCopied,
                }
            } else {
                SnapshotNext::Over {
                    made: true,
                    cleanup: None,
                    log: "Safety snapshot created.".to_owned(),
                }
            },
        },
        SnapshotStage::WalCopied => SnapshotNext::Over {
            made: true,
            cleanup: None,
            log: "Safety snapshot created.".to_owned(),
        },
    }
}

pub open spec fn rank(stage: SnapshotStage) -> nat {
    match stage {
        SnapshotStage::Cleared => 3,
        SnapshotStage::Copied => 2,
        SnapshotStage::Published => 1,
        SnapshotStage::WalCopied => 0,
    }
}

/// The steps that follow a stage when all goes well.
pub open spec fn steps_after(stage: SnapshotStage, wal: bool) -> Seq<FileStep>
    decreases rank(stage),
{
    match next_of(stage, None, wal) {
        SnapshotNextView::Step { step, stage: next } => if rank(next) < rank(stage) {
            seq![step] + steps_after(next, wal)
        } else {
            Seq::empty()
        },
        SnapshotNextView::Over { .. } => Seq::empty(),
    }
}

/// All the steps of a safety copy that succeeds.
pub open spec fn snapshot_steps(wal: bool) -> Seq<FileStep> {
    seq![FileStep::Remove(DbFile::Partial)] + steps_after(SnapshotStage::Cleared, wal)
}

// ── Putting it back ──────────────────────────────────────────────────────────

pub const RESTORING: &'static str =
    "A previous index rebuild did not finish cleanly — restoring the database from its safety snapshot…";

pub const RESTORED: &'static str = "Database restored from snapshot.";

/// A copy that is still there takes the place of the database.
pub open spec fn restore_steps(snapshot: bool, snapshot_wal: bool) -> Seq<FileStep> {
    let first = seq![FileStep::Remove(DbFile::Partial)];
    if !snapshot {
        first
    } else {
        let back = first + seq![
            FileStep::Remove(DbFile::Database),
            FileStep::Remove(DbFile::Wal),
            FileStep::Rename { from: DbFile::Snapshot, to: DbFile::Database },
        ];
        if snapshot_wal {
            back + seq![FileStep::Rename { from: DbFile::SnapshotWal, to: DbFile::Wal }]
        } else {
            back
        }
    }
}

/// The steps of a start: the copy of a rebuild that did not end is put back.
pub fn restore_snapshot_if_present(snapshot: bool, snapshot_wal: bool) -> (steps: Vec<FileStep>)
    ensures
        steps@ == restore_steps(snapshot, snapshot_wal),
{
    let mut steps: Vec<FileStep> = Vec::new();
    steps.push(FileStep::Remove(DbFile::Partial));
    if snapshot {
        steps.push(FileStep::Remove(DbFile::Database));
        steps.push(FileStep::Remove(DbFile::Wal));
        steps.push(FileStep::Rename { from: DbFile::Snapshot, to: DbFile::Database });
        if snapshot_wal {
            steps.push(FileStep::Rename { from: DbFile::SnapshotWal, to: DbFile::Wal });
        }
    }
    assert(steps@ =~= restore_steps(snapshot, snapshot_wal));
    steps
}

/// Whether the rest is given up when this step of a restoration fails.
pub fn is_needed(step: FileStep) -> (b: bool)
    ensures
        b == (step is Rename),
{
    match step {
        FileStep::Rename { .. } => true,
        _ => false,
    }
}

// ── Removing it ──────────────────────────────────────────────────────────────

pub open spec fn removal_steps() -> Seq<FileStep> {
    seq![
        FileStep::Remove(DbFile::Snapshot),
        FileStep::Remove(DbFile::SnapshotWal),
        FileStep::Remove(DbFile::Partial),
    ]
}

/// The steps that remove the copy, finished or not.
pub fn remove_snapshot() -> (steps: Vec<FileStep>)
    ensures
        steps@ == removal_steps(),
{
    let steps = vec![
        FileStep::Remove(DbFile::Snapshot),
        FileStep::Remove(DbFile::SnapshotWal),
        FileStep::Remove(DbFile::Partial),
    ];
    assert(steps@ =~= removal_steps());
    steps
}

pub open spec fn deletion_steps() -> Seq<FileStep> {
    seq![FileStep::Remove(DbFile::Database), FileStep::Remove(DbFile::Wal)] + removal_steps()
        + seq![FileStep::Remove(DbFile::Sentinel)]
}

/// The steps that remove the database and everything beside it.
pub fn delete_db_files() -> (steps: Vec<FileStep>)
    ensures
        steps@ == deletion_steps(),
{
    let steps = vec![
        FileStep::Remove(DbFile::Database),
        FileStep::Remove(DbFile::Wal),
        FileStep::Remove(DbFile::Snapshot),
        FileStep::Remove(DbFile::SnapshotWal),
        FileStep::Remove(DbFile::Partial),
        FileStep::Remove(DbFile::Sentinel),
    ];
    assert(steps@ =~= deletion_steps());
    steps
}

// ── What holds of them together ──────────────────────────────────────────────

/// Whether two states agree on a file.
pub open spec fn agree(a: Map<DbFile, Seq<u8>>, b: Map<DbFile, Seq<u8>>, f: DbFile) -> bool {
    &&& a.contains_key(f) == b.contains_key(f)
    &&& a.contains_key(f) ==> a[f] == b[f]
}

proof fn lemma_walk_last(disk: Map<DbFile, Seq<u8>>, steps: Seq<FileStep>, s: FileStep)
    ensures
        walked(disk, steps.push(s)) == stepped(walked(disk, steps), s),
{
    assert(steps.push(s).drop_last() =~= steps);
}

proof fn lemma_walk_none(disk: Map<DbFile, Seq<u8>>, steps: Seq<FileStep>)
    requires
        steps.len() == 0,
    ensures
        walked(disk, steps) == disk,
{
}

/// The state after one to four steps, written out.
proof fn lemma_snapshot_walk(disk: Map<DbFile, Seq<u8>>, wal: bool, k: int)
    requires
        0 <= k <= snapshot_steps(wal).len(),
    ensures
        snapshot_steps(wal).len() == if wal {
            4int
        } else {
            3int
        },
        ({
            let s0 = FileStep::Remove(DbFile::Partial);
            let s1 = FileStep::Duplicate { from: DbFile::Database, to: DbFile::Partial };
            let s2 = FileStep::Rename { from: DbFile::Partial, to: DbFile::Snapshot };
            let s3 = FileStep::Duplicate { from: DbFile::Wal, to: DbFile::SnapshotWal };
            let d1 = stepped(disk, s0);
            let d2 = stepped(d1, s1);
            let d3 = stepped(d2, s2);
            walked(disk, snapshot_steps(wal).take(k)) == if k == 0 {
                disk
            } else if k == 1 {
                d1
            } else if k == 2 {
                d2
            } else if k == 3 {
                d3
            } else {
                stepped(d3, s3)
            }
        }),
{
    reveal_with_fuel(steps_after, 4);
    let all = snapshot_steps(wal);
    let s0 = FileStep::Remove(DbFile::Partial);
    let s1 = FileStep::Duplicate { from: DbFile::Database, to: DbFile::Partial };
    let s2 = FileStep::Rename { from: DbFile::Partial, to: DbFile::Snapshot };
    let s3 = FileStep::Duplicate { from: DbFile::Wal, to: DbFile::SnapshotWal };
    if wal {
        assert(all =~= seq![s0, s1, s2, s3]);
    } else {
        assert(all =~= seq![s0, s1, s2]);
    }
    lemma_walk_none(disk, all.take(0));
    assert(all.take(1) =~= all.take(0).push(s0));
    lemma_walk_last(disk, all.take(0), s0);
    assert(all.take(2) =~= all.take(1).push(s1));
    lemma_walk_last(disk, all.take(1), s1);
    assert(all.take(3) =~= all.take(2).push(s2));
    lemma_walk_last(disk, all.take(2), s2);
    if wal {
        assert(all.take(4) =~= all.take(3).push(s3));
        lemma_walk_last(disk, all.take(3), s3);
    }
}

/// What a restoration leaves.
proof fn lemma_restored(disk: Map<DbFile, Seq<u8>>)
    ensures
        ({
            let snapshot = disk.contains_key(DbFile::Snapshot);
            let snapshot_wal = disk.contains_key(DbFile::SnapshotWal);
            let d = walked(disk, restore_steps(snapshot, snapshot_wal));
            &&& !d.contains_key(DbFile::Partial)
            &&& !d.contains_key(DbFile::Snapshot)
            &&& agree(d, disk, DbFile::Sentinel)
            &&& !snapshot ==> agree(d, disk, DbFile::Database) && agree(d, disk, DbFile::Wal)
            &&& snapshot ==> {
                &&& d.contains_key(DbFile::Database)
                &&& d[DbFile::Database] == disk[DbFile::Snapshot]
                &&& !d.contains_key(DbFile::SnapshotWal)
                &&& d.contains_key(DbFile::Wal) == snapshot_wal
                &&& snapshot_wal ==> d[DbFile::Wal] == disk[DbFile::SnapshotWal]
            }
        }),
{
    let snapshot = disk.contains_key(DbFile::Snapshot);
    let snapshot_wal = disk.contains_key(DbFile::SnapshotWal);
    let all = restore_steps(snapshot, snapshot_wal);
    lemma_walk_none(disk, all.take(0));
    assert(all.take(1) =~= all.take(0).push(all[0]));
    lemma_walk_last(disk, all.take(0), all[0]);
    if snapshot {
        assert(all.take(2) =~= all.take(1).push(all[1]));
        lemma_walk_last(disk, all.take(1), all[1]);
        assert(all.take(3) =~= all.take(2).push(all[2]));
        lemma_walk_last(disk, all.take(2), all[2]);
        assert(all.take(4) =~= all.take(3).push(all[3]));
        lemma_walk_last(disk, all.take(3), all[3]);
        if snapshot_wal {
            assert(all.take(5) =~= all.take(4).push(all[4]));
            lemma_walk_last(disk, all.take(4), all[4]);
            assert(all.take(5) =~= all);
        } else {
            assert(all.take(4) =~= all);
        }
    } else {
        assert(all.take(1) =~= all);
    }
}

/// A safety copy brings the database back: whatever happened to the database and its log
/// since, a restoration leaves them as they were when the copy was made.
pub proof fn law_snapshot_restores(disk: Map<DbFile, Seq<u8>>, later: Map<DbFile, Seq<u8>>)
    requires
        disk.contains_key(DbFile::Database),
        !disk.contains_key(DbFile::SnapshotWal),
        ({
            let made = walked(disk, snapshot_steps(disk.contains_key(DbFile::Wal)));
            agree(later, made, DbFile::Snapshot) && agree(later, made, DbFile::SnapshotWal)
        }),
    ensures
        ({
            let d = walked(
                later,
                restore_steps(
                    later.contains_key(DbFile::Snapshot),
                    later.contains_key(DbFile::SnapshotWal),
                ),
            );
            &&& agree(d, disk, DbFile::Database)
            &&& agree(d, disk, DbFile::Wal)
            &&& !d.contains_key(DbFile::Snapshot)
            &&& !d.contains_key(DbFile::SnapshotWal)
            &&& !d.contains_key(DbFile::Partial)
        }),
{
    let wal = disk.contains_key(DbFile::Wal);
    let n = snapshot_steps(wal).len() as int;
    assert(snapshot_steps(wal).take(n) =~= snapshot_steps(wal));
    lemma_snapshot_walk(disk, wal, n);
    lemma_restored(later);
}

/// A safety copy that is interrupted harms nothing: however far it came, and whatever the
/// unfinished file holds, the next start finds the database as it was. The log too, unless
/// the interruption came between the copy of the database and that of the log.
pub proof fn law_interrupted_snapshot_harms_nothing(
    disk: Map<DbFile, Seq<u8>>,
    k: int,
    left: Map<DbFile, Seq<u8>>,
)
    requires
        disk.contains_key(DbFile::Database),
        !disk.contains_key(DbFile::Snapshot),
        !disk.contains_key(DbFile::SnapshotWal),
        0 <= k <= snapshot_steps(disk.contains_key(DbFile::Wal)).len(),
        forall|f: DbFile|
            f !is Partial ==> #[trigger] agree(
                left,
                walked(disk, snapshot_steps(disk.contains_key(DbFile::Wal)).take(k)),
                f,
            ),
    ensures
        ({
            let d = walked(
                left,
                restore_steps(
                    left.contains_key(DbFile::Snapshot),
                    left.contains_key(DbFile::SnapshotWal),
                ),
            );
            &&& agree(d, disk, DbFile::Database)
            &&& !disk.contains_key(DbFile::Wal) || k != 3 ==> agree(d, disk, DbFile::Wal)
            &&& !d.contains_key(DbFile::Partial)
        }),
{
    let wal = disk.contains_key(DbFile::Wal);
    lemma_snapshot_walk(disk, wal, k);
    let w = walked(disk, snapshot_steps(wal).take(k));
    assert(agree(left, w, DbFile::Database));
    assert(agree(left, w, DbFile::Wal));
    assert(agree(left, w, DbFile::Snapshot));
    assert(agree(left, w, DbFile::SnapshotWal));
    lemma_restored(left);
}

/// Work that succeeded stays: once the copy is removed, a start changes neither the
/// database nor its log.
pub proof fn law_removed_snapshot_is_not_restored(disk: Map<DbFile, Seq<u8>>)
    ensures
        ({
            let kept = walked(disk, removal_steps());
            let d = walked(
                kept,
                restore_steps(
                    kept.contains_key(DbFile::Snapshot),
                    kept.contains_key(DbFile::SnapshotWal),
                ),
            );
            agree(d, disk, DbFile::Database) && agree(d, disk, DbFile::Wal)
        }),
{
    let all = removal_steps();
    lemma_walk_none(disk, all.take(0));
    assert(all.take(1) =~= all.take(0).push(all[0]));
    lemma_walk_last(disk, all.take(0), all[0]);
    assert(all.take(2) =~= all.take(1).push(all[1]));
    lemma_walk_last(disk, all.take(1), all[1]);
    assert(all.take(3) =~= all.take(2).push(all[2]));
    lemma_walk_last(disk, all.take(2), all[2]);
    assert(all.take(3) =~= all);
    lemma_restored(walked(disk, all));
}

/// Of a database that is deleted nothing is left.
pub proof fn law_nothing_is_left(disk: Map<DbFile, Seq<u8>>)
    ensures
        walked(disk, deletion_steps()) =~= Map::<DbFile, Seq<u8>>::empty(),
{
    let all = deletion_steps();
    lemma_walk_none(disk, all.take(0));
    assert(all.take(1) =~= all.take(0).push(all[0]));
    lemma_walk_last(disk, all.take(0), all[0]);
    assert(all.take(2) =~= all.take(1).push(all[1]));
    lemma_walk_last(disk, all.take(1), all[1]);
    assert(all.take(3) =~= all.take(2).push(all[2]));
    lemma_walk_last(disk, all.take(2), all[2]);
    assert(all.take(4) =~= all.take(3).push(all[3]));
    lemma_walk_last(disk, all.take(3), all[3]);
    assert(all.take(5) =~= all.take(4).push(all[4]));
    lemma_walk_last(disk, all.take(4), all[4]);
    assert(all.take(6) =~= all.take(5).push(all[5]));
    lemma_walk_last(disk, all.take(5), all[5]);
    assert(all.take(6) =~= all);
    let d = walked(disk, all);
    assert forall|f: DbFile| !d.contains_key(f) by {
        match f {
            DbFile::Database => {},
            DbFile::Wal => {},
            DbFile::Snapshot => {},
            DbFile::SnapshotWal => {},
            DbFile::Partial => {},
            DbFile::Sentinel => {},
        }
    }
}

/// Every file of a database lies beside it, under a name of its own.
pub proof fn law_files_lie_beside_the_database(db: Seq<char>, f: DbFile)
    ensures
        file_path(DbFile::Database, db) == db,
        file_path(DbFile::Wal, db) == db + ".wal"@,
        file_path(DbFile::Snapshot, db) == db + ".snapshot"@,
        file_path(DbFile::SnapshotWal, db) == db + ".snapshot.wal"@,
        file_path(DbFile::Partial, db) == db + ".snapshot.tmp"@,
        file_path(DbFile::Sentinel, db) == db + ".setup-in-progress"@,
        file_path(f, db).take(db.len() as int) == db,
{
    assert(file_path(f, db).take(db.len() as int) =~= db);
}

/// Removing takes one file away, copying leaves the source, renaming does not; and no step
/// touches another file.
pub proof fn law_steps_touch_their_files(disk: Map<DbFile, Seq<u8>>, from: DbFile, to: DbFile, other: DbFile)
    requires
        from != to,
    ensures
        !stepped(disk, FileStep::Remove(from)).contains_key(from),
        disk.contains_key(from) ==> {
            let c = stepped(disk, FileStep::Duplicate { from, to });
            let r = stepped(disk, FileStep::Rename { from, to });
            &&& c.contains_key(to) && c[to] == disk[from]
            &&& c.contains_key(from) && c[from] == disk[from]
            &&& r.contains_key(to) && r[to] == disk[from]
            &&& !r.contains_key(from)
        },
        other != from && other != to ==> {
            &&& agree(stepped(disk, FileStep::Remove(from)), disk, other)
            &&& agree(stepped(disk, FileStep::Duplicate { from, to }), disk, other)
            &&& agree(stepped(disk, FileStep::Rename { from, to }), disk, other)
        },
{
}

/// A copy that fails leaves the work to go on without one, and nothing half made behind.
pub proof fn law_failed_copies_are_cleared(error: Seq<char>, wal: bool)
    ensures
        next_of(SnapshotStage::Copied, Some(error), wal) matches SnapshotNextView::Over {
            made,
            cleanup,
            log,
        } && !made && cleanup == Some(FileStep::Remove(DbFile::Partial)),
        next_of(SnapshotStage::Published, Some(error), wal) matches SnapshotNextView::Over {
            made,
            cleanup,
            log,
        } && !made && cleanup == Some(FileStep::Remove(DbFile::Partial)),
        next_of(SnapshotStage::WalCopied, Some(error), wal) == next_of(
            SnapshotStage::WalCopied,
            None,
            wal,
        ),
{
}

/// What is told of the next step is what it holds.
pub proof fn law_next_steps_hold_what_is_told(step: FileStep, stage: SnapshotStage, made: bool, cleanup: Option<FileStep>, log: String)
    ensures
        (SnapshotNext::Step { step, stage })@ == (SnapshotNextView::Step { step, stage }),
        (SnapshotNext::Over { made, cleanup, log })@ == (SnapshotNextView::Over {
            made,
            cleanup,
            log: log@,
        }),
{
}

} // verus!
