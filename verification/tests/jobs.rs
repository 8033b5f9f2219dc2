use chess_db::jobs::{
    finish_import, finish_index, import_wants_snapshot, index_wants_snapshot, offline_gate_blocks,
    read_setup_sentinel, remove_setup_sentinel, set_setup_sentinel, setup_load_is_disposable,
    setup_sentinel_present, write_setup_sentinel,
    SnapshotFate,
};
use chess_db::paths::setup_sentinel_path;
use chess_db::reopen_gate::{Arrival, ReopenGate};

const NET_LEADER_S: (u64, &str, bool) = (1, "S", true);

#[test]
fn solo_nonnetwork_job_skips_a_paused_network_cluster() {
    assert!(!offline_gate_blocks(9, "job-9", false, &[NET_LEADER_S]));
}

#[test]
fn second_network_job_holds_behind_the_paused_leader() {
    assert!(offline_gate_blocks(9, "M", true, &[NET_LEADER_S]));
}

#[test]
fn same_cluster_nonnetwork_job_waits_for_its_paused_network_sibling() {
    let stuck = [(1u64, "M", true)];
    assert!(offline_gate_blocks(2, "M", false, &stuck));
}

#[test]
fn the_leader_reruns_itself_on_retry() {
    assert!(!offline_gate_blocks(1, "S", true, &[NET_LEADER_S]));
}

#[test]
fn nonnetwork_stuck_job_does_not_block_a_foreign_network_job() {
    let stuck = [(1u64, "M", false)];
    assert!(!offline_gate_blocks(9, "S", true, &stuck));
}

#[test]
fn a_later_stuck_job_never_blocks_an_earlier_one() {
    assert!(!offline_gate_blocks(1, "S", true, &[(5, "S", true)]));
}

#[test]
fn round_trips_attempts_and_imported_count() {
    assert!(!setup_sentinel_present(None));
    assert_eq!(read_setup_sentinel(None), (0, 0), "absent sentinel reads as (0, 0)");

    let (path, content) = write_setup_sentinel("/x/t.db");
    assert_eq!(path, setup_sentinel_path("/x/t.db"));
    assert_eq!(path, "/x/t.db.setup-in-progress");
    assert!(setup_sentinel_present(Some(&content)));
    assert_eq!(read_setup_sentinel(Some(&content)), (0, 0));

    let (_, content) = set_setup_sentinel("/x/t.db", 2, 12_345);
    assert_eq!(read_setup_sentinel(Some(&content)), (2, 12_345));
    assert_eq!(remove_setup_sentinel("/x/t.db"), path);
}

#[test]
fn legacy_single_value_sentinel_parses() {
    assert_eq!(read_setup_sentinel(Some("1")), (1, 0));
    assert_eq!(read_setup_sentinel(Some("x y")), (0, 0));
}

#[test]
fn populated_db_is_not_a_disposable_load_even_with_sentinel() {
    assert!(!setup_load_is_disposable(false, false));
    assert!(setup_load_is_disposable(true, false));
    assert!(!setup_load_is_disposable(true, true));
}

#[test]
fn bulk_success_removes_snapshot() {
    let snapshotted = import_wants_snapshot(true, false, true);
    assert!(snapshotted);
    let (fate, log) = finish_import(snapshotted, None);
    assert_eq!(fate, SnapshotFate::Removed, "snapshot removed after a successful bulk import");
    assert_eq!(log.as_deref(), Some("Safety snapshot removed."));
}

#[test]
fn bulk_fatal_leaves_snapshot_for_reopen() {
    let (fate, log) = finish_import(
        true,
        Some("FATAL Error: database has been invalidated because of a previous fatal error"),
    );
    assert_eq!(fate, SnapshotFate::Kept, "a fatal invalidation must leave the snapshot so reopen rolls the import back");
    assert!(log.is_some());
}

#[test]
fn bulk_nonfatal_removes_snapshot() {
    let (fate, _) = finish_import(true, Some("a corrupt PGN — ordinary, non-fatal import error"));
    assert_eq!(fate, SnapshotFate::Removed);
}

#[test]
fn non_bulk_never_snapshots() {
    let snapshotted = import_wants_snapshot(false, false, true);
    assert!(!snapshotted, "a non-bulk import doesn't snapshot at all");
    let (fate, log) = finish_import(snapshotted, Some("boom"));
    assert_eq!((fate, log), (SnapshotFate::Absent, None));
}

#[test]
fn only_large_fast_indexes_take_a_safety_copy() {
    assert!(index_wants_snapshot(true, true, 0, false, true));
    assert!(index_wants_snapshot(true, false, 200_000, false, true));
    assert!(!index_wants_snapshot(true, false, 199_999, false, true));
    assert!(!index_wants_snapshot(false, true, 200_000, false, true));
    assert!(!index_wants_snapshot(true, true, 200_000, true, false));
    assert_eq!(finish_index(true, false).0, SnapshotFate::Kept);
    assert_eq!(finish_index(true, true).0, SnapshotFate::Removed);
    assert_eq!(finish_index(false, false), (SnapshotFate::Absent, None));
}

#[test]
fn a_reopening_gives_each_party_one_connection() {
    for reset in [false, true] {
        let mut g = ReopenGate::new(3, reset);
        assert_eq!(g.arrive(), Arrival::Wait);
        assert_eq!(g.arrive(), Arrival::Wait);
        assert_eq!(g.arrive(), Arrival::Reopen { discard: reset });
        g.opened();
        assert!(!g.take());
        assert!(!g.take());
        assert!(!g.is_over());
        assert!(g.take());
        assert!(g.is_over());
        assert_eq!(g.fresh, 0);
    }
}
