use chess_db::snapshot::{
    delete_db_files, is_needed, make_safety_snapshot, remove_snapshot, restore_snapshot_if_present,
    snapshot_next, DbFile, FileStep, SnapshotNext, SnapshotStage,
};

type Disk = Vec<(DbFile, &'static str)>;

fn held(disk: &Disk, f: DbFile) -> Option<&'static str> {
    disk.iter().find(|x| x.0 == f).map(|x| x.1)
}

fn remove(disk: &mut Disk, f: DbFile) {
    disk.retain(|x| x.0 != f);
}

fn apply(disk: &mut Disk, s: FileStep) {
    match s {
        FileStep::Remove(f) => remove(disk, f),
        FileStep::Duplicate { from, to } => {
            if let Some(c) = held(disk, from) {
                remove(disk, to);
                disk.push((to, c));
            }
        }
        FileStep::Rename { from, to } => {
            if let Some(c) = held(disk, from) {
                remove(disk, from);
                remove(disk, to);
                disk.push((to, c));
            }
        }
    }
}

/// Makes a copy, as far as the given number of steps.
fn copy(disk: &mut Disk, limit: usize) -> bool {
    let (mut step, mut stage) = make_safety_snapshot();
    let mut done = 0;
    loop {
        if done == limit {
            return false;
        }
        apply(disk, step);
        done += 1;
        match snapshot_next(stage, None, held(disk, DbFile::Wal).is_some()) {
            SnapshotNext::Step { step: s, stage: t } => {
                step = s;
                stage = t;
            }
            SnapshotNext::Over { made, cleanup, log } => {
                assert!(cleanup.is_none());
                assert_eq!(log, "Safety snapshot created.");
                return made;
            }
        }
    }
}

fn restore(disk: &mut Disk) {
    let snapshot = held(disk, DbFile::Snapshot).is_some();
    let wal = held(disk, DbFile::SnapshotWal).is_some();
    for s in restore_snapshot_if_present(snapshot, wal) {
        apply(disk, s);
    }
}

#[test]
fn a_copy_brings_the_database_back() {
    let mut disk: Disk = vec![(DbFile::Database, "good"), (DbFile::Wal, "log")];
    assert!(copy(&mut disk, 9));
    remove(&mut disk, DbFile::Database);
    remove(&mut disk, DbFile::Wal);
    disk.push((DbFile::Database, "broken"));
    restore(&mut disk);
    assert_eq!(held(&disk, DbFile::Database), Some("good"));
    assert_eq!(held(&disk, DbFile::Wal), Some("log"));
    assert_eq!(disk.len(), 2);
}

#[test]
fn an_unfinished_copy_harms_nothing() {
    for limit in 0..4 {
        let mut disk: Disk = vec![(DbFile::Database, "good"), (DbFile::Partial, "old")];
        copy(&mut disk, limit);
        restore(&mut disk);
        assert_eq!(disk, vec![(DbFile::Database, "good")], "after {limit} steps");
    }
}

#[test]
fn a_removed_copy_is_not_restored() {
    let mut disk: Disk = vec![(DbFile::Database, "good")];
    copy(&mut disk, 9);
    remove(&mut disk, DbFile::Database);
    disk.push((DbFile::Database, "better"));
    for s in remove_snapshot() {
        apply(&mut disk, s);
    }
    restore(&mut disk);
    assert_eq!(disk, vec![(DbFile::Database, "better")]);
}

#[test]
fn a_deleted_database_leaves_nothing() {
    let mut disk: Disk = vec![
        (DbFile::Database, "a"),
        (DbFile::Wal, "b"),
        (DbFile::Snapshot, "c"),
        (DbFile::SnapshotWal, "d"),
        (DbFile::Partial, "e"),
        (DbFile::Sentinel, "f"),
    ];
    for s in delete_db_files() {
        apply(&mut disk, s);
    }
    assert!(disk.is_empty());
}

#[test]
fn copies_that_fail_are_told() {
    match snapshot_next(SnapshotStage::Copied, Some("disk full"), true) {
        SnapshotNext::Over { made, cleanup, log } => {
            assert!(!made && cleanup == Some(FileStep::Remove(DbFile::Partial)));
            assert_eq!(log, "Could not create safety snapshot (disk full); proceeding without one.");
        }
        _ => panic!(),
    }
    match snapshot_next(SnapshotStage::Published, Some("x"), true) {
        SnapshotNext::Over { made, log, .. } => {
            assert!(!made);
            assert_eq!(log, "Could not finalise safety snapshot (x); proceeding without one.");
        }
        _ => panic!(),
    }
    assert!(matches!(
        snapshot_next(SnapshotStage::WalCopied, Some("x"), true),
        SnapshotNext::Over { made: true, .. }
    ));
    assert!(is_needed(FileStep::Rename { from: DbFile::Snapshot, to: DbFile::Database }));
    assert!(!is_needed(FileStep::Remove(DbFile::Partial)));
}

#[test]
fn files_lie_beside_the_database() {
    assert_eq!(DbFile::Database.path("/x/a.db"), "/x/a.db");
    assert_eq!(DbFile::Wal.path("/x/a.db"), "/x/a.db.wal");
    assert_eq!(DbFile::Snapshot.path("/x/a.db"), "/x/a.db.snapshot");
    assert_eq!(DbFile::SnapshotWal.path("/x/a.db"), "/x/a.db.snapshot.wal");
    assert_eq!(DbFile::Partial.path("/x/a.db"), "/x/a.db.snapshot.tmp");
    assert_eq!(DbFile::Sentinel.path("/x/a.db"), "/x/a.db.setup-in-progress");
}
