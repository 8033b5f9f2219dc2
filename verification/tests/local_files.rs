use chess_db::local_files::{
    appended_text, check_content, destination_of, directory_of, ends_browsably, ends_uploadably,
    files_to_upload, is_browsable_pgn,
    is_too_large, is_uploadable, listing, pgn_arg, service_url, temp_name, DirEntry,
    ProgressTicker, MAX_FILE_SIZE,
};
use chess_db::pgn_sessions::PgnSessions;

fn texts(v: &[&str]) -> Vec<String> {
    v.iter().map(|s| s.to_string()).collect()
}

#[test]
fn files_are_known_by_their_names() {
    assert!(is_browsable_pgn("A.PGN") && is_browsable_pgn("a.gz") && !is_browsable_pgn("a.7z"));
    assert!(is_uploadable("a.7Z") && !is_uploadable("a.gz"));
    assert!(ends_browsably("a.pgn") && !ends_browsably("a.PGN") && !ends_browsably("pgn"));
    assert!(ends_uploadably("a.zstd") && !ends_uploadably("a.gzip"));
    assert_eq!(pgn_arg(&texts(&["prog", "--x", "/a/b.pgn"])).as_deref(), Some("/a/b.pgn"));
    assert_eq!(pgn_arg(&texts(&["prog.pgn", "x"])), None);
}

#[test]
fn directories_start_at_home() {
    assert_eq!(directory_of("", Some("/h")).unwrap(), "/h");
    assert_eq!(directory_of("~", Some("/h")).unwrap(), "/h");
    assert_eq!(directory_of("~/a", Some("/h")).unwrap(), "/h/a");
    assert_eq!(directory_of("/x", None).unwrap(), "/x");
    assert_eq!(directory_of("~", None).err().unwrap(), "Cannot determine home directory");
    assert_eq!(destination_of("/x/y.pgn", None).unwrap(), "/x/y.pgn");
}

#[test]
fn listings_are_sorted_folders_first() {
    let e = |name: &str, is_dir: bool, size: u64| DirEntry { name: name.into(), is_dir, size };
    let all = [
        e("b.pgn", false, 3),
        e(".hidden.pgn", false, 1),
        e("Z", true, 0),
        e("A.zip", false, 2),
        e("notes.txt", false, 9),
        e("a", true, 4096),
        e(".git", true, 0),
    ];
    let l = listing("/x".into(), Some("/".into()), &all);
    let names: Vec<&str> = l.entries.iter().map(|x| x.name.as_str()).collect();
    assert_eq!(names, vec!["a", "Z", "A.zip", "b.pgn"]);
    assert_eq!((l.entries[0].size, l.entries[3].size), (0, 3));
    assert_eq!((l.path.as_str(), l.parent.as_deref()), ("/x", Some("/")));
}

#[test]
fn uploads_expand_folders() {
    let names = texts(&["/d/b.pgn", "/d/x.txt", "/d/a.7z"]);
    assert_eq!(files_to_upload("/d/one", true, false, &[]).unwrap(), vec!["/d/one"]);
    assert_eq!(files_to_upload("/d", false, true, &texts(&["b.pgn", "x.txt", "a.7z", "B.pgn"])).unwrap(), vec!["/d/B.pgn", "/d/a.7z", "/d/b.pgn"]);
    assert_eq!(files_to_upload("/d", false, false, &names).err().unwrap(), "/d: not a file or folder");
    assert_eq!(
        files_to_upload("/d", false, true, &texts(&["x.txt"])).err().unwrap(),
        "/d: no .pgn/.zip/.zst/.7z files in folder"
    );
    assert_eq!(service_url("http://h:1//", "/import/upload"), "http://h:1/import/upload");
}

#[test]
fn games_are_appended_after_a_blank_line() {
    assert_eq!(appended_text("1. e4 *\r\n\n", None).unwrap(), "1. e4 *\n");
    assert_eq!(appended_text("1. e4 *", Some("*\n")).unwrap(), "\n\n1. e4 *\n");
    assert_eq!(appended_text("1. e4 *", Some("*\n\n")).unwrap(), "1. e4 *\n");
    assert_eq!(appended_text("1. e4 *", Some("\r\n\r\n")).unwrap(), "1. e4 *\n");
    assert_eq!(appended_text(" \n", None).err().unwrap(), "PGN content is empty");
    assert!(check_content("x").is_ok());
    assert_eq!(check_content(" ").err().unwrap(), "PGN content is empty");
    assert_eq!(temp_name(Some("a.pgn")), ".a.pgn.tmp");
}

#[test]
fn large_files_are_refused() {
    assert!(!is_too_large(MAX_FILE_SIZE));
    assert!(is_too_large(MAX_FILE_SIZE + 1));
}

#[test]
fn tickers_tick_a_hundred_times() {
    let mut t = ProgressTicker::new(100_000_000);
    let mut ticks = 0;
    let mut at = 0;
    while at <= 100_000_000 {
        if t.tick(at) {
            ticks += 1;
        }
        at += 65_536;
    }
    assert!(ticks > 50 && ticks <= 201, "{ticks}");
}

#[test]
fn sessions_are_numbered_and_forgotten() {
    let mut s = PgnSessions::new();
    let a = s.pgn_open(10);
    let b = s.pgn_open(20);
    assert_ne!(a.session, b.session);
    assert_eq!((b.count, s.find(b.session)), (20, Ok(20)));
    s.pgn_close(a.session);
    assert_eq!(s.find(a.session).err().unwrap(), "pgn session not found");
    s.pgn_close(a.session);
    assert_eq!(s.find(b.session), Ok(20));
}
