use chess_db::ids::IdMarks;

#[test]
fn deleted_top_id_is_never_reissued() {
    let mut m = IdMarks::new();
    m.raise_high_water("players", 2).unwrap();
    // Player 2 is deleted: the highest number is 1 again.
    assert_eq!(m.next_id("players", 1).unwrap(), 3, "id 2 must stay retired");
}

#[test]
fn live_rows_win_when_mark_is_behind() {
    let mut m = IdMarks::new();
    assert_eq!(m.next_id("players", 7).unwrap(), 8);
    m.raise_high_water("players", 3).unwrap();
    assert_eq!(m.next_id("players", 7).unwrap(), 8);
}

#[test]
fn raise_is_monotonic() {
    let mut m = IdMarks::new();
    m.raise_high_water("games", 100).unwrap();
    m.raise_high_water("games", 50).unwrap();
    assert_eq!(m.next_id("games", 0).unwrap(), 101);
    assert_eq!(m.next_id("collections", 0).unwrap(), 1, "tables are counted apart");
}

#[test]
fn unknown_entity_is_rejected() {
    let mut m = IdMarks::new();
    assert!(m.next_id("positions; DROP TABLE players", 0).is_err());
    assert_eq!(m.raise_high_water("x", 1).unwrap_err(), "unknown id entity: x");
}
