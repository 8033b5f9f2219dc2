use chess_db::engine::{
    candidate_paths, engine_name, engine_status, find_engines, option_commands, position_key,
    read_greeting, release_is_fresh, release_version, wants_latest, white_to_move, Candidate,
    EngineSettings, Greeting, LatestRelease, Remembered, RunningEngine, Search, REMEMBER_MAX,
};

#[test]
fn a_conversation_with_an_engine() {
    assert!(matches!(read_greeting("id name FakeFish 1"), Greeting::Name(n) if n == "FakeFish 1"));
    assert!(matches!(read_greeting("uciok"), Greeting::UciOk));
    assert!(matches!(read_greeting("readyok"), Greeting::ReadyOk));
    assert!(matches!(read_greeting("option name Hash"), Greeting::Other));
    assert_eq!(engine_name("", "/usr/bin/sf"), "/usr/bin/sf");
    assert_eq!(engine_name("X", "/usr/bin/sf"), "X");
    let s = EngineSettings { path: None, threads: 3, hash_mb: 64 };
    let c = option_commands(&s);
    assert!(c.contains(&"setoption name Threads value 3".to_string()));
    assert!(c.contains(&"setoption name Hash value 64".to_string()));
    let fen = "rnbqkbnr/pppppppp/8/8/4P3/8/PPPP1PPP/RNBQKBNR b KQkq - 0 1";
    assert!(!white_to_move(fen));
    let mut search = Search::start(4, "FakeFish 1", fen);
    assert!(search.take_line("info depth 3 multipv 1 score cp 25 nodes 9 nps 9 pv e7e5").is_some());
    assert!(search.take_line("noise").is_none());
    let last = search.take_line("bestmove e7e5").unwrap();
    assert!(last.done);
    let mut again = Search::start(5, "FakeFish 1", fen);
    assert!(again.engine_gone().done);
    assert!(!Search::idle().searching);
}

#[test]
fn results_are_remembered_if_they_are_deeper() {
    let fen = "8/8/8/8/8/8/8/K1k5 w - - 0 1";
    let key = format!("E|{}", position_key(fen));
    let deep = |d: u32| {
        let mut s = Search::start(1, "E", fen);
        s.take_line(&format!("info depth {d} multipv 1 score cp 1 nodes 1 nps 1 pv a1a2"));
        s.take_line("bestmove a1a2").unwrap()
    };
    let mut r = Remembered::new();
    assert!(r.get(&key).is_none());
    r.offer(&key, &deep(20));
    r.offer(&key, &deep(10));
    assert_eq!(r.get(&key).unwrap().depth, 20);
    r.offer(&key, &deep(30));
    assert_eq!(r.get(&key).unwrap().depth, 30);
    assert!(r.order.len() <= REMEMBER_MAX);
}

#[test]
fn positions_without_counters_are_one() {
    assert_eq!(position_key("8/8 w - - 0 1"), position_key("8/8 w - - 7 33"));
    assert_ne!(position_key("8/8 w - - 0 1"), position_key("8/8 b - - 0 1"));
}

#[test]
fn engines_are_found_once() {
    let dirs = vec!["/usr/bin".to_string(), "/opt".to_string()];
    let paths = candidate_paths(&dirs);
    assert!(paths.contains(&"/usr/bin/stockfish".to_string()), "{paths:?}");
    let c = |p: &str, x: bool, real: &str| Candidate {
        path: p.into(),
        executable: x,
        canonical: Some(real.into()),
    };
    let (engines, searched) = find_engines(&[
        c("/usr/bin/stockfish", true, "/opt/sf"),
        c("/bin/stockfish", true, "/opt/sf"),
        c("/x/stockfish", false, "/x/stockfish"),
    ]);
    assert_eq!(engines, vec!["/usr/bin/stockfish"]);
    assert_eq!(searched.len(), 3);
}

#[test]
fn settings_take_what_was_found() {
    let mut s = EngineSettings::for_cores(8);
    assert!(s.threads >= 1);
    let found = vec!["/usr/bin/stockfish".to_string()];
    s.configure(Some("/usr/bin/stockfish".into()), Some(2), Some(128), &found, "/e.json").unwrap();
    assert_eq!((s.path.as_deref(), s.threads, s.hash_mb), (Some("/usr/bin/stockfish"), 2, 128));
    assert_eq!(s.engine_to_run(&found).unwrap(), "/usr/bin/stockfish");
    assert!(s.configure(Some("/etc/passwd".into()), None, None, &found, "/e.json").is_err());
    let none = EngineSettings { path: None, threads: 1, hash_mb: 16 };
    assert_eq!(none.engine_to_run(&found).unwrap(), "/usr/bin/stockfish");
    assert!(none.engine_to_run(&[]).is_err());
}

#[test]
fn newer_releases_are_offered() {
    assert_eq!(release_version("sf_17.1"), "17.1");
    assert!(wants_latest(Some("Stockfish 16")) && !wants_latest(Some("Lc0")) );
    assert!(release_is_fresh(0, true) && !release_is_fresh(u64::MAX, true));
    let st = engine_status(
        Some(RunningEngine { path: "/sf".into(), name: "Stockfish 16".into() }),
        EngineSettings { path: None, threads: 1, hash_mb: 16 },
        vec![],
        vec![],
        None,
        Some(LatestRelease { version: "17".into(), url: "u".into() }),
        "/e.json".into(),
        "linux".into(),
    );
    assert!(st.available && st.update_available);
    assert_eq!(st.version.as_deref(), Some("16"));
}
