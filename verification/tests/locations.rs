use chess_db::locations::{
    data_root, default_backup_dir, default_db_path, default_dir, expand_home, source_dir,
};

#[test]
fn data_paths_honor_lpdo_data_dir() {
    let set = Some("/var/lib/lpdo");
    let home = Some("/home/x");
    assert_eq!(default_db_path(set, home), "/var/lib/lpdo/chess.db");
    assert_eq!(default_dir(set, home), "/var/lib/lpdo/twic");
    assert_eq!(default_backup_dir(set, home), "/var/lib/lpdo/backup");

    assert!(default_db_path(Some(""), home).ends_with(".chess-db/chess.db"));
    assert!(default_dir(Some(""), home).ends_with(".chess-db/twic"));

    assert!(default_db_path(None, home).ends_with(".chess-db/chess.db"));
}

#[test]
fn without_a_home_things_are_here() {
    assert_eq!(data_root(None, None), "./.chess-db");
    assert_eq!(source_dir(None, Some("/h"), "lichess"), "/h/.chess-db/lichess");
    assert_eq!(default_backup_dir(None, Some("/h")), "/h/lpdo/backup");
}

#[test]
fn tildes_are_expanded() {
    assert_eq!(expand_home("~", Some("/h")), "/h");
    assert_eq!(expand_home("~", None), ".");
    assert_eq!(expand_home("~/a/b", Some("/h")), "/h/a/b");
    assert_eq!(expand_home("~/a", None), "~/a");
    assert_eq!(expand_home("~x", Some("/h")), "~x");
    assert_eq!(expand_home("/a/~", Some("/h")), "/a/~");
}
