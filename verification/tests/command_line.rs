use chess_db::admin::{
    added_message, added_to_shown, collection_name, corrections_message, delete_question, is_confirmed,
    merge_preview, merge_preview_by_id, merge_preview_by_name, merged_message, players_to_recount,
    purge, read_correction, read_corrections, read_visibility, removed_from, removed_from_shown, restore, set_fide_id, set_visibility,
    soft_delete, take_visibility, DeleteRun, Removal,
};
use chess_db::cli::{
    choose_access, force_local, index_depth, job_spec_for, mutation_for, mutation_with, route,
    search_query,
    server_port, warn_dropped_flags, Access, Command, GamesSearch, Payload, Route, LOCKED,
};
use chess_db::proxy::{
    base_url, draw, end_of, is_yes, mutation_reply, rejected, settle, tell_reply, version_note,
    DaemonInfo, Drawing, JobEnd, JobReply, SseDecoder, StreamEvent,
};
use chess_db::render::{
    database_status, exact_matches, list_games, list_places, list_players, only_match,
    resolve_exact_player, source_line, status_lines,
    DatabaseCounts, GameSummary, PlayerInfo, SourceStatus, StatusInfo,
};

fn import_pgn(depth: u16, threshold: usize, skip_dedup: bool) -> Command {
    Command::ImportPgn {
        path: "/g.pgn".into(),
        collection: "C".into(),
        private: true,
        on_duplicate: "skip".into(),
        max_position_depth: depth,
        reindex_threshold: threshold,
        fast: true,
        skip_dedup,
    }
}

#[test]
fn long_commands_become_jobs() {
    let j = job_spec_for(&import_pgn(40, 10, false)).unwrap();
    assert_eq!(j.job_type, "import_pgn");
    assert_eq!(j.params.text("path").as_deref(), Some("/g.pgn"));
    assert_eq!(j.params.text("collection").as_deref(), Some("C"));
    assert!(j.params.flag("private") && j.params.flag("fast"));
    let j = job_spec_for(&Command::IndexPositions { max_position_depth: 40, rebuild: false, safe: false }).unwrap();
    assert!(j.params.flag("fast") && !j.params.flag("rebuild"));
    let j = job_spec_for(&Command::Download { from: 5, to: Some(9), dir: "/d".into() }).unwrap();
    assert_eq!((j.params.number("from"), j.params.number("to")), (Some(5), Some(9)));
    let j = job_spec_for(&Command::EnableSource { key: "twic".into(), enabled: true }).unwrap();
    assert_eq!(j.job_type, "sources_set_enabled");
    assert!(job_spec_for(&Command::Status).is_none());
}

#[test]
fn flags_that_are_ignored_are_named() {
    assert!(warn_dropped_flags(&import_pgn(40, 10, false)).is_empty());
    assert_eq!(
        warn_dropped_flags(&import_pgn(39, 10, true)),
        vec![
            "note: --max-position-depth is ignored when proxying to the daemon (it uses its built-in default)",
            "note: --skip-dedup is ignored when proxying to the daemon (it uses its built-in default)",
        ]
    );
}

#[test]
fn short_commands_become_requests() {
    let m = mutation_for(&Command::SetFideId { player_id: 3, fide_id: 9 }).unwrap().unwrap();
    assert_eq!(m.path, "/players/3/fide-id");
    assert!(matches!(m.payload, Payload::Number { ref name, value: 9 } if name == "fide_id"));
    let m = mutation_for(&Command::SoftDelete { id: 7 }).unwrap().unwrap();
    assert!(m.path == "/games/7/soft-delete" && matches!(m.payload, Payload::Nothing));
    let m = mutation_for(&Command::RemoveCollection { id: 7, name: "X".into() }).unwrap().unwrap();
    assert_eq!(m.path, "/games/7/collections/remove");
    assert!(matches!(m.payload, Payload::Text { ref name, ref value } if name == "name" && value == "X"));
    assert!(mutation_for(&Command::Status).is_none());
}

#[test]
fn tags_have_to_be_json() {
    let set = |tags: &str| Command::SetHeaders { id: 7, tags: tags.into() };
    let m = mutation_for(&set("[{\"name\":\"White\",\"value\":\"A\"}]")).unwrap().unwrap();
    assert_eq!(m.path, "/games/7/headers");
    assert!(matches!(m.payload, Payload::Json { ref name, ref value } if name == "tags" && value.starts_with("[{")));
    assert!(mutation_for(&set("3")).unwrap().is_ok(), "the server looks at what is in it");
    assert_eq!(
        mutation_for(&set("[")).unwrap().err().unwrap(),
        "--tags must be a JSON array: EOF while parsing a list at line 1 column 1"
    );
    let e = mutation_with(&set("[]"), Some("bad".into())).unwrap().err().unwrap();
    assert_eq!(e, "--tags must be a JSON array: bad");
    assert!(mutation_with(&set("["), None).unwrap().is_ok());
    assert!(mutation_with(&Command::SoftDelete { id: 7 }, Some("bad".into())).unwrap().is_ok());
    assert!(mutation_with(&Command::Status, Some("bad".into())).is_none());
}

fn search(moves_stats: bool) -> GamesSearch {
    GamesSearch {
        name: Some("doe".into()),
        fide_id: None,
        white: None,
        black: None,
        white_fide_id: Some(4),
        black_fide_id: None,
        event: None,
        eco: None,
        first_moves: None,
        from: None,
        to: None,
        fen: None,
        moves_stats,
        show_moves: false,
        limit: 50,
        pgn: true,
        count: false,
    }
}

#[test]
fn searches_become_queries() {
    let q = search_query(&search(false));
    let want: Vec<(String, String)> = [("name", "doe"), ("white_fide_id", "4"), ("limit", "50"), ("pgn", "true")]
        .iter()
        .map(|(a, b)| (a.to_string(), b.to_string()))
        .collect();
    assert_eq!(q, want);
}

#[test]
fn a_running_server_owns_the_database() {
    let job = import_pgn(40, 10, false);
    assert!(matches!(route(&job), Route::Job));
    assert!(matches!(route(&Command::SearchGames(search(true))), Route::Nowhere));
    assert!(matches!(route(&Command::SearchGames(search(false))), Route::Question));
    assert!(matches!(choose_access(&job, false, false, true, 7777), Access::Server(Route::Job)));
    assert!(matches!(choose_access(&job, true, false, true, 7777), Access::Database));
    assert!(matches!(choose_access(&job, false, false, false, 7777), Access::Database));
    match choose_access(&job, false, true, false, 1234) {
        Access::Refused(m) => assert_eq!(m, "--remote: no lpdo-server daemon reachable on 127.0.0.1:1234"),
        _ => panic!(),
    }
    match choose_access(&Command::Direct, false, false, true, 7777) {
        Access::Refused(m) => assert_eq!(m, LOCKED),
        _ => panic!(),
    }
    assert!(LOCKED.starts_with("the lpdo-server daemon is running and holds the database lock, so this command can't run directly"));
    assert!(force_local(false, Some("1")) && force_local(false, Some("true")) && !force_local(false, Some("yes")));
    assert_eq!(server_port(None, Some("81")), 81);
    assert_eq!(server_port(Some(5), Some("81")), 5);
    assert_eq!(server_port(None, Some("x")), 7777);
    assert_eq!(index_depth(0), None);
    assert_eq!(index_depth(40), Some(40));
}

#[test]
fn streams_may_arrive_in_any_pieces() {
    let bytes = "data: {\"a\":\"é\"}\r\n: ping\n\ndata:x\ndata: tail".as_bytes();
    let mut whole = SseDecoder::new();
    let all = whole.push(bytes);
    assert_eq!(all, vec!["{\"a\":\"é\"}", "x"]);
    for cut in 0..bytes.len() {
        let mut d = SseDecoder::new();
        let mut got = d.push(&bytes[..cut]);
        got.extend(d.push(&bytes[cut..]));
        assert_eq!(got, all, "cut at {cut}");
        assert_eq!(d.buf, whole.buf);
    }
    let mut broken = SseDecoder::new();
    assert!(broken.push(b"data: \xff\n").is_empty());
}

fn event(kind: &str, message: &str, value: Option<u64>, total: Option<u64>) -> StreamEvent {
    StreamEvent { kind: kind.into(), message: message.into(), value, total }
}

#[test]
fn events_are_drawn() {
    assert!(matches!(end_of(&event("done", "", None, None)), Some(JobEnd::Finished)));
    assert!(matches!(end_of(&event("error", "", None, None)), Some(JobEnd::Failed(m)) if m == "job failed"));
    assert!(matches!(end_of(&event("error", "x", None, None)), Some(JobEnd::Failed(m)) if m == "x"));
    assert!(end_of(&event("log", "x", None, None)).is_none());
    assert!(matches!(draw(&event("log", "x", None, None)), Drawing::Line(m) if m == "x"));
    assert!(matches!(
        draw(&event("progress", "", Some(3), Some(9))),
        Drawing::Bar { length: 9, position: 3, message: None }
    ));
    assert!(matches!(draw(&event("progress", "m", Some(3), Some(0))), Drawing::Nothing));
    assert!(matches!(draw(&event("done", "", None, None)), Drawing::End(None)));
    assert!(matches!(draw(&event("error", "e", None, None)), Drawing::Fail(Some(m)) if m == "e"));
}

#[test]
fn replies_of_the_server_are_told() {
    let known = |s: &str, e: Option<&str>| JobReply::Known { status: s.into(), error: e.map(String::from) };
    assert!(settle("job-1", &known("done", None), None).is_ok());
    assert_eq!(settle("job-1", &known("error", Some("e")), None).err().unwrap(), "e");
    assert_eq!(settle("job-1", &known("error", None), None).err().unwrap(), "job failed");
    assert_eq!(
        settle("job-1", &known("running", None), None).err().unwrap(),
        "lost the stream to job job-1 (status: running)"
    );
    assert_eq!(
        settle("job-1", &JobReply::Unreadable("x".into()), None).err().unwrap(),
        "could not read job status: x"
    );
    assert_eq!(settle("job-1", &JobReply::Lost, Some("x")).err().unwrap(), "event stream failed: x");
    assert_eq!(settle("job-1", &JobReply::Lost, None).err().unwrap(), "lost contact with job job-1");
    assert_eq!(rejected("400 Bad Request", "no"), "daemon rejected the job (400 Bad Request): no");
    assert_eq!(
        mutation_reply(true, "200 OK", "{\"message\":\"Fine.\"}", Some("usual")).unwrap().as_deref(),
        Some("Fine.")
    );
    assert_eq!(mutation_reply(true, "200 OK", "{}", Some("usual")).unwrap().as_deref(), Some("usual"));
    assert_eq!(mutation_reply(true, "200 OK", "not json", None).unwrap(), None);
    assert_eq!(
        tell_reply(false, "404 Not Found", " gone \n", None, None).err().unwrap(),
        "daemon returned 404 Not Found: gone"
    );
    assert_eq!(base_url(7777), "http://127.0.0.1:7777");
    let d = DaemonInfo { version: "2".into(), api_version: 3 };
    assert_eq!(
        version_note("1", &d).as_deref(),
        Some("note: this CLI is v1 but the daemon is v2 (API v3) — they may disagree on behaviour")
    );
    assert_eq!(version_note("2", &d), None);
    assert!(is_yes(" yes\n") && is_yes("Y") && !is_yes("YES") && !is_yes(""));
}

fn player(id: u32, name: &str, fide_id: Option<u32>) -> PlayerInfo {
    PlayerInfo { id, name: name.into(), fide_id, game_count: 12 }
}

#[test]
fn players_are_listed() {
    let ps = [player(1, "Doe, Jane", Some(5)), player(2, "doe  jane", None), player(3, "Roe", None)];
    assert_eq!(ps[0].row(), "[1] Doe, Jane  FIDE: 5  games: 12");
    assert_eq!(ps[1].row(), "[2] doe  jane  FIDE: -  games: 12");
    assert_eq!(exact_matches(&ps, "DOE, jane"), vec![0, 1]);
    assert_eq!(resolve_exact_player(&ps, "roe").unwrap(), 2);
    assert_eq!(resolve_exact_player(&ps, "Nobody").err().unwrap(), "no player exactly named \"Nobody\"");
    assert_eq!(
        resolve_exact_player(&ps, "Doe, Jane").err().unwrap(),
        "2 players exactly named \"Doe, Jane\" — merge by id instead"
    );
    assert_eq!(only_match(&[4], "\"X\"").unwrap(), 4);
    assert_eq!(only_match(&[], "X").err().unwrap(), "no player exactly named X");
    assert_eq!(only_match(&[1, 2], "X").err().unwrap(), "2 players exactly named X — merge by id instead");
    assert_eq!(list_places(&ps, &[2], true).unwrap(), vec!["3"]);
    assert_eq!(list_places(&ps, &[2, 0], false).unwrap(), vec![ps[2].row(), ps[0].row()]);
    assert_eq!(list_places(&ps, &[], false).unwrap(), vec!["No players found."]);
    assert_eq!(list_places(&ps, &[], true).err().unwrap(), "no player matched");
    assert_eq!(list_players(&ps[2..], "roe", false, true).unwrap(), vec!["3"]);
    assert_eq!(list_players(&[], "roe", false, true).err().unwrap(), "no player matched");
    assert_eq!(
        list_players(&ps, "d", false, true).err().unwrap(),
        "3 players matched — narrow the search for --id-only"
    );
    assert_eq!(list_players(&[], "x", false, false).unwrap(), vec!["No players found."]);
    assert_eq!(list_players(&ps, "doe jane", true, false).unwrap().len(), 2);
}

fn summary() -> GameSummary {
    GameSummary {
        id: 9,
        white: "A".into(),
        black: "B".into(),
        white_elo: Some(2500),
        black_elo: None,
        event: None,
        date: Some("2024-01-02".into()),
        result: Some("1-0".into()),
        eco: None,
        move_count: None,
        opening_line: Some("e4 e5".into()),
        pgn: Some("1. e4 *".into()),
    }
}

#[test]
fn games_are_listed() {
    assert_eq!(summary().row(), "[9] A (2500) vs B (-)  1-0  2024-01-02  -  -  0 moves");
    assert_eq!(
        list_games(&[summary()], false, true, 100),
        vec![
            "[9] A (2500) vs B (-)  1-0  2024-01-02  -  -  0 moves",
            "  e4 e5",
            "\n1 game(s) found (limit 100)",
        ]
    );
    assert_eq!(list_games(&[summary()], true, true, 100), vec!["1. e4 *\n"]);
}

#[test]
fn the_status_is_told() {
    let s = StatusInfo {
        version: "1".into(),
        games: 12_345,
        players: 2,
        positions: 3,
        issues: 4,
        local_imports: None,
        deleted_games: Some(6),
        last_twic_issue: Some(1600),
        last_twic_published: Some("2025-07-07".into()),
    };
    assert_eq!(
        status_lines(&s),
        vec![
            "=== Chess DB Status (server v1) ===",
            "Games:           12,345",
            "Players:         2",
            "Positions:       3",
            "TWIC issues:     4",
            "Local imports:   0",
            "Latest TWIC:     #1600 (2025-07-07)",
            "Soft-deleted:    6",
        ]
    );
    let src = SourceStatus {
        key: "twic".into(),
        name: "TWIC".into(),
        kind: "feed".into(),
        enabled: true,
        items: 7,
        last_status: None,
    };
    assert_eq!(source_line(&src, None), format!("{:<10} {:<22} {:<5} {:<8} items={:<7} ", "twic", "TWIC", "feed", "on", 7));
}

#[test]
fn a_database_read_directly_is_told() {
    let c = DatabaseCounts { listed: 1, downloaded: 2, imported: 3, games: 12345, players: 5, positions: 6 };
    assert_eq!(
        database_status(Some("1.5 MB"), &c),
        vec![
            "=== Chess DB Status ===",
            "Database size:     1.5 MB",
            "Issues tracked:    1",
            "  Downloaded:      2",
            "  Imported:        3",
            "Games:             12345",
            "Players:           5",
            "Positions indexed: 6",
        ]
    );
    assert_eq!(database_status(None, &c)[1], "Database size:     unknown");
}

#[test]
fn changes_say_what_they_do() {
    assert_eq!(set_fide_id(1, 0, true, None).err().unwrap(), "fide_id must be a positive integer");
    assert_eq!(set_fide_id(1, 5, false, None).err().unwrap(), "player 1 not found");
    assert_eq!(
        set_fide_id(1, 5, true, Some(2)).err().unwrap(),
        "FIDE ID 5 is already assigned to player 2; merge them instead"
    );
    assert_eq!(set_fide_id(1, 5, true, None).unwrap(), "Player 1 updated with FIDE ID 5.");
    assert_eq!(read_visibility(" Public ").unwrap(), "public");
    assert_eq!(read_visibility("Shared").err().unwrap(), "visibility must be 'public' or 'private', got \"Shared\"");
    assert_eq!(take_visibility("private".into(), "P").unwrap(), "private");
    assert_eq!(take_visibility("p".into(), "'P'").err().unwrap(), "visibility must be 'public' or 'private', got 'P'");
    let c = set_visibility(3, "private", Some(Some("public".into()))).unwrap();
    assert_eq!((c.apply, c.message.as_str()), (true, "Game 3 set to private."));
    let c = set_visibility(3, "private", Some(Some("private".into()))).unwrap();
    assert_eq!((c.apply, c.message.as_str()), (false, "Game 3 is already private."));
    assert_eq!(set_visibility(3, "private", None).err().unwrap(), "game 3 not found");
    assert_eq!(soft_delete(3, None).err().unwrap(), "game 3 not found");
    assert_eq!(soft_delete(3, Some(true)).unwrap().message, "Game 3 already soft-deleted.");
    assert_eq!(soft_delete(3, Some(false)).unwrap().message, "Game 3 soft-deleted.");
    assert_eq!(restore(3, Some(false)).unwrap().message, "Game 3 is not deleted.");
    assert_eq!(restore(3, Some(true)).unwrap().message, "Game 3 restored.");
    assert_eq!(purge(0, false).message, "No soft-deleted games to purge.");
    assert_eq!(purge(2, true).message, "Would purge 2 soft-deleted game(s) (dry run).");
    let p = purge(2, false);
    assert_eq!((p.apply, p.message.as_str()), (true, "Purged 2 soft-deleted game(s)."));
    assert_eq!(collection_name("  ").err().unwrap(), "collection name must not be empty");
    assert_eq!(collection_name(" X ").unwrap(), "X");
    assert_eq!(added_message(3, "X", true), "Game 3 added to collection \"X\".");
    assert_eq!(added_message(3, "X", false), "Game 3 is already in collection \"X\".");
    assert_eq!(removed_from(3, "X", Removal::NoCollection).message, "Collection \"X\" does not exist.");
    assert_eq!(removed_from(3, "X", Removal::NotInIt).message, "Game 3 was not in collection \"X\".");
    assert_eq!(
        removed_from(3, "X", Removal::Removed { remaining: 1 }).message,
        "Game 3 removed from collection \"X\"."
    );
    assert_eq!(added_to_shown(3, "<X>", true), "Game 3 added to collection <X>.");
    let gone = removed_from_shown(3, "<X>", Removal::Removed { remaining: 0 });
    assert_eq!(
        (gone.apply, gone.message.as_str()),
        (true, "Game 3 removed from collection <X> — collection now empty, deleted.")
    );
    let mut both = players_to_recount(1, 2);
    both.sort();
    assert_eq!(both, vec![1, 2]);
}

#[test]
fn merges_are_shown_first() {
    let (a, b) = (player(1, "A", Some(5)), player(2, "B", None));
    assert_eq!(
        merge_preview(&a, &b),
        vec![
            "Keep: [1] A  FIDE: 5  games: 12",
            "Drop: [2] B  FIDE: -  games: 12",
            "12 game(s) will be reassigned; player [2] will be deleted.",
        ]
    );
    assert_eq!(
        merge_preview_by_id(1, 2, Some(3), None),
        vec!["Keep: [1]  games: 3", "Drop: [2]", "All of [2]'s games move to [1], and player [2] is deleted."]
    );
    assert_eq!(merge_preview_by_name(&a, &a).err().unwrap(), "both names resolve to the same player [1]");
    assert_eq!(merge_preview_by_name(&a, &b).unwrap().len(), 3);
    assert_eq!(merged_message(1, 2), "Done. Player [2] merged into [1].");
    assert!(is_confirmed("y\n") && !is_confirmed("n\n"));
    let row: Vec<String> = vec!["a".into(), "b".into()];
    assert_eq!(read_correction(&row).map(|r| (r.0, r.1)), Some(("a".to_string(), "b".to_string())));
    assert_eq!(read_correction(&row[..1]), None);
    let c = read_corrections(b"keep,drop\n a ,\"b, c\"\nd,\n\"e\n");
    assert_eq!(c.pairs, vec![("a".to_string(), "b, c".to_string())]);
    assert!(c.broken.is_some());
    assert_eq!(read_corrections(b"keep,drop\na,b\n").broken, None);
    assert_eq!(corrections_message(1, 2), "Corrections applied: 1 merged, 2 skipped.");
}

#[test]
fn deletions_are_counted() {
    let mut r = DeleteRun::new();
    assert_eq!(r.answered(1, 204, "204 No Content"), None);
    assert_eq!(r.answered(2, 404, "404 Not Found").as_deref(), Some("[2] not found"));
    assert_eq!(r.answered(3, 500, "500 Internal Server Error").as_deref(), Some("[3] error: 500 Internal Server Error"));
    assert_eq!(r.done(), "1 game(s) deleted.");
    assert_eq!(delete_question(4), "Delete 4 game(s)?");
}
