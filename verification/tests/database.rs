use chess_db::backup::{
    backup_done, backup_entry, backup_names, backup_refusal, done_with_shown,
    refusal_of_shown, sanitize_for_filename, tells_progress,
};
use chess_db::inputs::{input_files, LineCounter};
use chess_db::ids::IdMarks;
use chess_db::memory::{memory_limit_str, read_meminfo, read_memsize};
use chess_db::migrations::{
    dashed_date, first_step, ledger_source, migration, next_step, Change, Check, OpenStep, FIRST_MANUAL_ID,
};
use chess_db::csv_file::{read_sound, CsvRow};
use chess_db::players::{export_message, players_csv, read_players, PlayersImport, RowStep, Target};
use chess_db::position_index::{
    index_start, pending_report, start_report, BatchStep, IndexRun, IndexStart,
};
use chess_db::queries::{format_opening_line, opening_columns, position_moves, MovesFilter, SqlValue};
use chess_db::reporter::Report;

fn texts(v: &[&str]) -> Vec<String> {
    v.iter().map(|s| s.to_string()).collect()
}

fn message(r: Report) -> String {
    match r {
        Report::Log { message } | Report::Done { message } | Report::Error { message } => message,
        Report::Progress { message, .. } => message,
        _ => String::new(),
    }
}

#[test]
fn migrates_legacy_issues_ledger_tagging_by_id_convention() {
    let m = migration(Check::Ledger { old_name: true, new_name: false }).unwrap();
    assert_eq!(
        m.before.as_deref(),
        Some("Migrating the import ledger (issues → source_items) for multi-source support…")
    );
    assert_eq!(m.change, Change::RenameLedger);
    assert!(migration(Check::Ledger { old_name: false, new_name: true }).is_none(), "once");
    assert_eq!(ledger_source(1649), "twic");
    assert_eq!(ledger_source(1_000_001), "manual");
    assert_eq!(ledger_source(FIRST_MANUAL_ID), "manual");
    // The imports of an earlier version keep their source enabled.
    let twic = migration(Check::Twic { known: false, imported: true }).unwrap();
    assert_eq!(twic.change, Change::EnableTwic);
    assert!(migration(Check::Twic { known: true, imported: true }).is_none(), "a choice stays");
}

#[test]
fn fresh_databases_need_no_migration() {
    assert!(migration(Check::Ledger { old_name: false, new_name: false }).is_none());
    assert!(migration(Check::Twic { known: false, imported: false }).is_none());
    assert!(migration(Check::DottedDates(0)).is_none());
    assert_eq!(
        migration(Check::DottedDates(3)).unwrap().before.as_deref(),
        Some("Normalising 3 dotted date(s) → ISO 8601…")
    );
    assert_eq!(dashed_date("2024.05.??"), "2024-05-??");
    assert_eq!(dashed_date(&dashed_date("2024.05.06")), "2024-05-06");
}

#[test]
fn a_database_is_opened_step_by_step() {
    let mut steps = vec![first_step()];
    while let Some(s) = next_step(*steps.last().unwrap()) {
        steps.push(s);
    }
    let at = |s: OpenStep| steps.iter().position(|t| *t == s).unwrap();
    assert_eq!((steps[0], steps.len()), (OpenStep::Ledger, 14));
    assert!(at(OpenStep::PositionsKey) < at(OpenStep::DottedDates));
    assert!(at(OpenStep::PositionsKey) < at(OpenStep::Openings));
    assert!(at(OpenStep::Visibility) < at(OpenStep::OldSources));
    assert!(at(OpenStep::OldSources) < at(OpenStep::SeedSources));
    assert!(at(OpenStep::LookForTwic) < at(OpenStep::SeedSources));
    assert_eq!(steps.last(), Some(&OpenStep::Twic));
}

#[test]
fn four_fifths_of_the_memory() {
    assert_eq!(memory_limit_str(None), "8GiB");
    assert_eq!(memory_limit_str(Some(0)), "8GiB");
    assert_eq!(memory_limit_str(Some(64 * 1024 * 1024)), "51GiB");
    assert_eq!(memory_limit_str(Some(1024)), "1GiB");
    assert_eq!(read_meminfo("Foo: 1\nMemTotal:       65536 kB\n"), Some(Some(65536)));
    assert_eq!(read_meminfo("MemTotal: x kB\n"), Some(None));
    assert_eq!(read_meminfo("MemFree: 1 kB\n"), None);
    assert_eq!(read_memsize("17179869184\n"), Some(16_777_216));
    assert_eq!(read_memsize("x"), None);
}

fn filter() -> MovesFilter {
    MovesFilter {
        player_id: None,
        name_pattern: None,
        fide_id: None,
        color: "any".into(),
        white_pattern: None,
        black_pattern: None,
        white_fide_id: None,
        black_fide_id: None,
        from: None,
        to: None,
        visibility: None,
        collection_id: None,
    }
}

#[test]
fn every_place_in_a_query_has_its_value() {
    let q = position_moves(5, &filter());
    assert_eq!(q.values.len(), 1);
    assert!(matches!(q.values[0], SqlValue::Hash(5)));
    let q = position_moves(
        5,
        &MovesFilter {
            player_id: Some(3),
            fide_id: Some(4),
            white_pattern: Some("%a%".into()),
            black_fide_id: Some(9),
            from: Some("2020".into()),
            collection_id: Some(2),
            ..filter()
        },
    );
    assert_eq!(q.conditions.matches('?').count() + 1, q.values.len());
    assert!(q.conditions.contains("AND (g.white_id = ? OR g.black_id = ?)"));
    assert!(!q.conditions.contains("(pw.fide_id"), "the player's number comes first");
    assert!(matches!(q.values[1], SqlValue::Id(3)) && matches!(q.values[2], SqlValue::Id(3)));
    assert!(matches!(&q.values[3], SqlValue::Text(t) if t == "%a%"));
    assert!(matches!(q.values[4], SqlValue::Id(9)));
    assert!(matches!(q.values[6], SqlValue::Collection(2)));
    let w = position_moves(5, &MovesFilter { fide_id: Some(4), color: "white".into(), ..filter() });
    assert!(w.conditions.contains("AND pw.fide_id = ?") && w.values.len() == 2);
}

#[test]
fn openings_are_numbered() {
    assert_eq!(format_opening_line("e4 e5 Nf3"), "1.e4 e5 2.Nf3");
    assert_eq!(format_opening_line(""), "");
    assert_ne!(opening_columns(true), opening_columns(false));
}

#[test]
fn lists_of_players_are_imported() {
    let mut i = PlayersImport::new(4);
    assert_eq!(i.start_message(), "Importing 4 players...");
    match i.take(&CsvRow::Fields(texts(&["5", "Doe, Jane"]))) {
        RowStep::Player { fide_id, name, name_normalized, progress } => {
            assert_eq!((fide_id, name.as_str(), name_normalized.as_str()), (5, "Doe, Jane", "doe jane"));
            assert!(progress.is_none());
        }
        _ => panic!(),
    }
    let mut marks = IdMarks::new();
    assert!(matches!(i.place(Some(3), &mut marks, 9), Target::Existing(3)));
    i.take(&CsvRow::Fields(texts(&["6", "Roe"])));
    assert!(matches!(i.place(None, &mut marks, 9), Target::Fresh(10)));
    match i.take(&CsvRow::Fields(texts(&["x", "Roe"]))) {
        RowStep::Skip(m) => assert_eq!(m, "  Skipping row with invalid fide_id: Some(\"x\")"),
        _ => panic!(),
    }
    match i.take(&CsvRow::Fields(texts(&["6", ""]))) {
        RowStep::Skip(m) => assert_eq!(m, "  Skipping fide_id=6 with empty name"),
        _ => panic!(),
    }
    match i.take(&CsvRow::Fields(vec![])) {
        RowStep::Skip(m) => assert_eq!(m, "  Skipping row with invalid fide_id: None"),
        _ => panic!(),
    }
    match i.take(&CsvRow::Broken("oops".into())) {
        RowStep::Skip(m) => assert_eq!(m, "  CSV parse error: oops"),
        _ => panic!(),
    }
    assert_eq!(i.done(), "Done: 1 updated, 1 inserted, 4 errors.");
    assert_eq!(export_message(2, "/p"), "Exported 2 normalised player(s) to /p.");
    assert_eq!(export_message(0, "/p"), "No normalised players to export.");
}

#[test]
fn backups_are_named_after_their_collection() {
    assert_eq!(sanitize_for_filename("My games"), "My_games");
    assert_eq!(sanitize_for_filename("__é/ö!"), "é_ö");
    assert_eq!(sanitize_for_filename("//"), "collection");
    let n = backup_names("20260603-084231", "My games");
    assert_eq!(n.entry, "20260603-084231-My_games.pgn");
    assert_eq!(n.file, "20260603-084231-My_games.pgn.zip");
    assert_eq!(backup_refusal("X", None).as_deref(), Some("collection \"X\" not found"));
    assert_eq!(backup_refusal("X", Some(0)).as_deref(), Some("collection \"X\" has no games to back up"));
    assert_eq!(backup_refusal("X", Some(1)), None);
    assert_eq!(refusal_of_shown("<X>", None).as_deref(), Some("collection <X> not found"));
    assert_eq!(done_with_shown(2, "<T>", "/b"), "Backed up 2 game(s) from <T> to /b");
    let entries = backup_entry("1. e4 e5 *\n\n") + &backup_entry("1. d4 d5 *");
    assert_eq!(entries, "1. e4 e5 *\n\n1. d4 d5 *\n\n");
    assert!(tells_progress(3, 3) && tells_progress(1, 99) && !tells_progress(1, 250) && tells_progress(2, 250));
    assert_eq!(backup_done(2, "T", "/b.zip"), "Backed up 2 game(s) from \"T\" to /b.zip");
}

#[test]
fn positions_are_indexed_in_chunks() {
    assert!(matches!(index_start(None, false), IndexStart::Clear));
    assert!(matches!(index_start(Some(40), true), IndexStart::Rebuild));
    assert!(matches!(index_start(Some(40), false), IndexStart::Extend));
    assert!(start_report(IndexStart::Extend).is_none());
    assert_eq!(
        message(pending_report(0, 40)),
        "All games are already indexed. Use --rebuild to reprocess with a different depth."
    );
    let mut r = IndexRun::new(4500);
    let ids: Vec<u32> = (1..=4500).collect();
    match r.take(&ids, false) {
        BatchStep::Work(chunks) => assert_eq!(chunks, vec![(0, 2000), (2000, 4000), (4000, 4500)]),
        _ => panic!(),
    }
    assert_eq!(r.last_id, 4500);
    assert_eq!(message(r.chunk_done(2000)), "Indexed 2000 / 4500 games");
    assert!(matches!(r.take(&[], false), BatchStep::Over));
    assert!(matches!(r.take(&ids, true), BatchStep::Over));
    assert_eq!(message(r.done(false)), "Indexing complete. 4500 games indexed.");
}

#[test]
fn inputs_are_sorted_and_lines_counted() {
    assert_eq!(input_files(&texts(&["b.pgn", "x.txt", "a.7z"])), vec!["a.7z", "b.pgn"]);
    let mut c = LineCounter::new();
    c.read(b"a\nb");
    c.read(b"\n\n");
    assert_eq!(c.line, 4);
}

#[test]
fn players_are_read_from_a_file() {
    let file = b"fide_id,name\n5,\"Doe, Jane\"\nx,Roe\n6\n7,\"A \"\"B\"\"\"\n";
    let (run, steps) = read_players(file);
    assert_eq!((run.total, run.processed, run.errors, run.updated, run.inserted), (4, 4, 2, 0, 0));
    assert!(matches!(&steps[0], RowStep::Player { fide_id: 5, name, name_normalized, progress: None }
        if name == "Doe, Jane" && name_normalized == "doe jane"));
    assert!(matches!(&steps[1], RowStep::Skip(m) if m == "  Skipping row with invalid fide_id: Some(\"x\")"));
    assert!(matches!(&steps[2], RowStep::Skip(m) if m.starts_with("  CSV parse error: CSV error: record 3 (line: 4")));
    assert!(matches!(&steps[3], RowStep::Player { fide_id: 7, name, .. } if name == "A \"B\""));
    assert_eq!(read_players(b"").1.len(), 0);
}

#[test]
fn players_that_go_out_come_back() {
    let players: Vec<(u32, String)> = vec![
        (5, "Doe, Jane".into()),
        (6, "A \"B\"".into()),
        (7, " x\r\ny ".into()),
        (8, "\u{feff}é".into()),
        (9, String::new()),
    ];
    let file = players_csv(&players);
    assert!(file.starts_with(b"fide_id,name\n5,\"Doe, Jane\"\n6,\"A \"\"B\"\"\"\n"));
    let (run, steps) = read_players(&file);
    assert_eq!((run.total, run.errors), (5, 1), "one has no name");
    for (i, p) in players[..4].iter().enumerate() {
        assert!(matches!(&steps[i], RowStep::Player { fide_id, name, .. } if (*fide_id, name) == (p.0, &p.1)));
    }
    assert_eq!(players_csv(&[]), b"fide_id,name\n");
}

#[test]
fn rows_are_read_up_to_a_broken_one() {
    let (rows, fault) = read_sound(b"a,b\n1,2\n3\n4,5\n");
    assert_eq!(rows, vec![vec!["1".to_string(), "2".to_string()]]);
    assert!(fault.unwrap().contains("found record with 1 fields"));
    assert_eq!(read_sound(b"a,b\n1,2\n").1, None);
}
