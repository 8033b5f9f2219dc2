use chess_db::ids::IdMarks;
use chess_db::import_context::{game_fingerprint, GameKey, ImportContext, PlayerName, StoredGame};
use chess_db::importer::{
    bulk_mode_for_size, extension_of, first_pgn_entry, import_summary, input_kind, is_bulk_size,
    is_supported_input, next_issue_id, not_importable, pending_files, plan_run, position_rows,
    ratchet, FileOutcome, GameCounts, GameStream, ImportRun, ImportSpec, InputKind, RunKind, Taken,
    Visibility, Window, BULK_MODE_BYTES,
};
use chess_db::reporter::Report;
use chess_db::visitor::{GameData, GameVisitor};

fn texts(v: &[&str]) -> Vec<String> {
    v.iter().map(|s| s.to_string()).collect()
}

fn message(r: Report) -> String {
    match r {
        Report::Log { message } | Report::Done { message } | Report::Error { message } => message,
        Report::Progress { message, .. } => message,
        _ => String::new(),
    }
}

/// A game as the visitor makes it.
fn game(white: &str, black: &str, moves: &[&str], tags: &[(&str, &str)]) -> GameData {
    let mut v = GameVisitor::new(Some(4));
    let mut t = v.begin_tags();
    v.tag(&mut t, "White", white);
    v.tag(&mut t, "Black", black);
    for (n, x) in tags {
        v.tag(&mut t, n, x);
    }
    let mut m = v.begin_movetext(t);
    for s in moves {
        v.san(&mut m, s);
    }
    v.end_game(m, 2026).unwrap()
}

fn context(skip_dedup: bool) -> ImportContext {
    ImportContext::new(
        vec![PlayerName { id: 7, normalized: "doe john".into() }],
        &[(7, 1234)],
        9,
        &[],
        &[],
        0,
        &IdMarks::new(),
        skip_dedup,
    )
}

#[test]
fn players_are_found_by_name_or_number() {
    let mut ctx = context(false);
    let (mut new, mut fill) = (Vec::new(), Vec::new());
    assert_eq!(ctx.get_or_create_player(&mut new, &mut fill, "Doe, John", None), 7);
    assert_eq!(ctx.get_or_create_player(&mut new, &mut fill, "J. Doe", Some(1234)), 7);
    assert_eq!(ctx.get_or_create_player(&mut new, &mut fill, "Roe, Jane", None), 10);
    assert_eq!(ctx.get_or_create_player(&mut new, &mut fill, "Roe, Jane", Some(55)), 10);
    assert_eq!(fill, vec![(10, 55)], "the number is filled in");
    assert_eq!(ctx.get_or_create_player(&mut new, &mut fill, "Roe, J", Some(55)), 10);
    assert_eq!(new.len(), 1);
    assert_eq!((new[0].id, new[0].normalized.as_str()), (10, "roe jane"));
    assert_eq!(ctx.take_player(&mut new, &mut fill, "ROE", "roe jane".into(), None), 10);
    assert_eq!(ctx.take_player(&mut new, &mut fill, "ROE", "roe".into(), None), 11);
    assert_eq!((new[1].name.as_str(), new[1].normalized.as_str()), ("ROE", "roe"));
}

#[test]
fn an_import_reissues_no_number() {
    let mut marks = IdMarks::new();
    marks.raise_high_water("players", 2).unwrap();
    marks.raise_high_water("games", 50).unwrap();
    let rows = vec![PlayerName { id: 1, normalized: "keep".into() }];
    let ctx = ImportContext::new(rows, &[], 1, &[], &[], 40, &marks, false);
    assert_eq!((ctx.next_player_id, ctx.next_game_id), (3, 51));
    let behind = ImportContext::new(vec![], &[], 7, &[], &[], 60, &marks, true);
    assert_eq!((behind.next_player_id, behind.next_game_id), (8, 61));
}

#[test]
fn what_is_loaded_is_told() {
    assert_eq!(context(true).loaded_message(), "Initialised: 1 players. Duplicate detection disabled.");
    assert_eq!(context(false).loaded_message(), "Initialised: 1 players, 0 game fingerprints loaded.");
}

#[test]
fn streams_take_games_and_skip_copies() {
    let mut ctx = context(false);
    let mut s = GameStream::new(3, Visibility::Public, Some(4));
    let g = |result: &'static str| {
        game("A", "B", &["e4", "e5"], &[("Date", "2024.01.02"), ("Result", result)])
    };
    assert!(matches!(s.take(&mut ctx, g("1-0"), true), Taken::Added(1)));
    assert!(matches!(s.take(&mut ctx, g("1-0"), true), Taken::Duplicate(1)));
    assert!(matches!(s.take(&mut ctx, g("0-1"), true), Taken::Added(2)));
    assert!(matches!(s.take(&mut ctx, g("1/2-1/2"), false), Taken::OutsideWindow));
    let fragment = game("A", "B", &[], &[("FEN", "8/8/8/8/8/8/8/K1k4R w - - 0 1"), ("SetUp", "1")]);
    assert!(matches!(s.take(&mut ctx, fragment, true), Taken::NonStandard));
    assert_eq!(s.game_batch.len(), 2);
    assert_eq!(s.game_batch[0].white_id, 10);
    assert_eq!(s.position_batch.len(), 6);
    assert_eq!(s.new_players.len(), 2);
    let c = s.counts();
    assert_eq!((c.imported, c.duplicates, c.nonstandard, c.outside_window), (2, 1, 1, 1));
    assert!(!s.flush_due());
    match s.batch_progress(50, 100, 10_000, 20_000) {
        Report::Progress { current, total, message } => {
            assert_eq!((current, total, message.as_str()), (15_000, 20_000, "Imported 2 games…"));
        }
        _ => panic!(),
    }
    s.flushed();
    assert!(s.game_batch.is_empty() && s.new_players.is_empty());
    assert_eq!(s.counts().imported, 2);
}

#[test]
fn known_games_are_known_again() {
    let stored = StoredGame {
        id: 4,
        white_id: 7,
        black_id: 8,
        date: Some("2024-01-02".into()),
        result: Some("1-0".into()),
        opening_line: "e4 e5".into(),
        move_count: 2,
    };
    let key = GameKey {
        white_id: 7,
        black_id: 8,
        date: Some("2024-01-02"),
        result: Some("1-0"),
        opening_line: "e4 e5",
        move_count: 2,
    };
    let mut ctx = ImportContext::new(vec![], &[], 0, &[stored], &[(4, 77)], 4, &IdMarks::new(), false);
    assert_eq!(ctx.number_game(None, &key).err(), Some(4));
    let other = GameKey { move_count: 3, ..key };
    assert_eq!(ctx.number_game(Some(77), &other).err(), Some(4), "by the number in the source");
    assert_eq!(ctx.number_game(None, &other).ok(), Some(5));
    assert_ne!(game_fingerprint(&key), game_fingerprint(&other));
}

#[test]
fn summaries_name_what_was_skipped() {
    let c = |i, d, n, w| GameCounts { imported: i, duplicates: d, nonstandard: n, outside_window: w };
    assert_eq!(import_summary(c(5, 0, 0, 0)), "5 games imported");
    assert_eq!(
        import_summary(c(5, 1, 2, 3)),
        "5 games imported, 6 skipped (1 duplicates, 2 non-standard (Chess960/fragments), 3 outside date window)"
    );
}

#[test]
fn inputs_are_known_by_their_extension() {
    assert_eq!(extension_of("a.b.PGN"), "pgn");
    assert_eq!(extension_of("noext"), "");
    assert!(matches!(input_kind("a.pgn", "a.pgn"), Ok(InputKind::Plain)));
    assert!(matches!(input_kind("a.zst", "a.zst"), Ok(InputKind::Zstd)));
    assert!(matches!(input_kind("a.zip", "a.zip"), Ok(InputKind::Zip)));
    assert!(matches!(input_kind("a.7z", "a.7z"), Ok(InputKind::SevenZip)));
    assert_eq!(input_kind("a.txt", "/x/a.txt").err().unwrap(), "unsupported file type '.txt': /x/a.txt");
    assert!(is_supported_input("A.7Z") && !is_supported_input("a.txt"));
    assert_eq!(not_importable("/x", true), "not a .pgn/.zip/.zst/.7z file: /x");
    assert_eq!(not_importable("/x", false), "not a file or directory: /x");
    assert_eq!(first_pgn_entry(&texts(&["a.txt", "B.PGN", "c.pgn"])), Some(1));
    assert_eq!(pending_files(&texts(&["a", "b", "c"]), &texts(&["b"])), vec!["a", "c"]);
}

#[test]
fn policies_come_from_the_flags() {
    let spec = |d: &str, v: &str| ImportSpec {
        collection: "c".into(),
        visibility: v.into(),
        on_duplicate: d.into(),
    };
    assert!(spec("always", "public").policy(false).unwrap().skip_dedup);
    assert!(!spec("skip", "public").policy(false).unwrap().skip_dedup);
    assert!(spec("skip", "private").policy(true).unwrap().skip_dedup);
    assert!(matches!(spec("skip", "private").policy(false).unwrap().visibility, Visibility::Private));
    assert_eq!(spec("replace", "public").policy(false).err().unwrap(), "--on-duplicate=replace is not implemented yet");
    assert_eq!(spec("x", "public").policy(false).err().unwrap(), "invalid --on-duplicate value: x");
    assert_eq!(spec("skip", "x").policy(false).err().unwrap(), "invalid visibility: x");
    assert!(matches!(ratchet(Visibility::Private, Visibility::Public), Visibility::Public));
    assert!(matches!(ratchet(Visibility::Private, Visibility::Private), Visibility::Private));
    assert!(matches!(ratchet(Visibility::Public, Visibility::Private), Visibility::Public));
}

#[test]
fn large_inputs_are_imported_in_bulk() {
    assert!(is_bulk_size(BULK_MODE_BYTES) || is_bulk_size(BULK_MODE_BYTES + 1));
    assert!(!is_bulk_size(0));
    assert!(bulk_mode_for_size(0, 0));
    let p = plan_run(RunKind::Files, 2, 0, 10, false, Some(40));
    assert!(!p.bulk_mode && !p.fast);
    assert_eq!(p.logs, vec!["Importing 2 PGN file(s)...", "Position indexing enabled (depth: 40 half-moves)."]);
    let p = plan_run(RunKind::Issues, 2, u64::MAX, 10, false, Some(40));
    assert!(p.bulk_mode && p.fast && p.depth.is_none());
    assert_eq!(
        p.logs,
        vec!["Importing 2 issue(s)...", "Bulk mode: indexes dropped for faster import. Positions skipped."]
    );
}

#[test]
fn numbers_for_files_start_high() {
    assert_eq!(next_issue_id(None), 1_000_001);
    assert_eq!(next_issue_id(Some(1649)), 1_000_001);
    assert_eq!(next_issue_id(Some(1_000_004)), 1_000_005);
}

#[test]
fn runs_over_issues() {
    let mut r = ImportRun::new(RunKind::Issues, 3);
    let counts = GameCounts { imported: 5, duplicates: 0, nonstandard: 0, outside_window: 0 };
    let s = r.issue_over(11, FileOutcome::Imported(counts), false);
    assert_eq!((s.mark_imported, s.stop), (Some(5), false));
    assert_eq!(message(s.report), "  Issue 11: 5 games imported");
    match s.progress {
        Some(Report::Progress { current, total, message }) => {
            assert_eq!((current, total, message.as_str()), (10_000, 30_000, "Imported 1 / 3 issues"));
        }
        _ => panic!(),
    }
    assert_eq!(r.progress_base(), 10_000);
    let s = r.issue_over(12, FileOutcome::Failed("bad".into()), false);
    assert_eq!((s.mark_imported, s.stop), (None, false));
    assert_eq!(message(s.report), "  Issue 12: skipped — bad");
    assert_eq!(
        r.failures().map(message).as_deref(),
        Some("1 issue(s) skipped due to errors, left unimported — re-run to retry: 12")
    );
    let s = r.issue_over(13, FileOutcome::Imported(GameCounts { imported: 1, duplicates: 0, nonstandard: 0, outside_window: 0 }), true);
    assert_eq!((s.mark_imported, s.stop), (None, true));
    assert_eq!(
        message(s.report),
        "  Issue 13: cancelled mid-import — left unimported, will re-import on next sync."
    );
    assert!(message(r.done("TWIC")).ends_with(" into TWIC."));
}

#[test]
fn runs_over_files() {
    let mut r = ImportRun::new(RunKind::Files, 2);
    assert_eq!(message(r.unreadable("a.pgn", "denied")), "  a.pgn: read error: denied");
    let mut r = ImportRun::new(RunKind::Files, 2);
    let s = r.file_over("b.pgn", FileOutcome::Failed("bad".into()));
    assert_eq!(message(s.report), "  b.pgn: error: bad");
    let c = GameCounts { imported: 2, duplicates: 1, nonstandard: 0, outside_window: 0 };
    let s = r.file_over("c.pgn", FileOutcome::Imported(c));
    assert_eq!(message(s.report), "  c.pgn: 2 games imported, 1 skipped (1 duplicates)");
    assert_eq!(message(r.done("My games")), "2 games imported, 1 skipped (1 duplicates) into My games.");
    let mut m = ImportRun::new(RunKind::Issues, 1);
    assert_eq!(message(m.missing("/x/a.zip")), "  Zip not found: /x/a.zip");
}

#[test]
fn rows_carry_the_number_of_the_game() {
    let g = game("A", "B", &["e4"], &[]);
    let rows = position_rows(9, g.positions);
    assert_eq!(rows.len(), 2);
    assert_eq!((rows[0].game_id, rows[0].move_number, rows[0].next_move.as_deref()), (9, 0, Some("e4")));
    assert_eq!((rows[1].move_number, rows[1].next_move.as_deref()), (1, None));
}

#[test]
fn windows_admit_their_dates() {
    let w = Window { from: Some("2024-01-01".into()), to: Some("2024-12-31".into()), exclude_undated: true };
    assert!(w.admits(Some("2024-01-01")) && w.admits(Some("2024-12-31")) && w.admits(Some("2024-05-06")));
    assert!(!w.admits(Some("2023-12-31")) && !w.admits(Some("2025-01-01")) && !w.admits(None));
    assert!(Window::unbounded().admits(None) && Window::unbounded().admits(Some("1851-05-27")));
    let w = Window { from: Some("2024-01-01".into()), to: None, exclude_undated: false };
    assert!(w.admits(None) && w.admits(Some("9999-01-01")) && !w.admits(Some("2023")));
}
