use chess_db::engine::{
    clean_fen, history_to_uci, older, parse_info, search_commands, stockfish_version, Search,
};

#[test]
fn info_lines_parse() {
    let i = parse_info("info depth 22 seldepth 31 multipv 2 score cp -35 nodes 123456 nps 987654 hashfull 12 tbhits 0 time 125 pv e7e5 g1f3 b8c6").unwrap();
    assert_eq!(i.depth, Some(22));
    assert_eq!(i.nodes, Some(123456));
    let l = i.line.unwrap();
    assert_eq!((l.multipv, l.eval_cp, l.mate), (2, Some(-35), None));
    assert_eq!(l.pv_uci, vec!["e7e5", "g1f3", "b8c6"]);

    let m = parse_info("info depth 30 multipv 1 score mate -3 nodes 1 pv h7h8 a1a8").unwrap().line.unwrap();
    assert_eq!((m.eval_cp, m.mate), (None, Some(-3)));

    assert!(parse_info("info depth 20 multipv 1 score cp 40 lowerbound nodes 5 pv e2e4").unwrap().line.is_none());
    assert!(parse_info("info depth 5 currmove e2e4 currmovenumber 1").unwrap().line.is_none());
    assert!(parse_info("info string NNUE evaluation using nn-xyz.nnue").unwrap().line.is_none());
    assert!(parse_info("bestmove e2e4").is_none());
}

#[test]
fn only_a_position_reaches_the_engine() {
    assert_eq!(
        clean_fen("rnbqkbnr/pppppppp/8/8/4P3/8/PPPP1PPP/RNBQKBNR b KQkq e3 0 1").as_deref(),
        Some("rnbqkbnr/pppppppp/8/8/4P3/8/PPPP1PPP/RNBQKBNR b KQkq - 0 1")
    );
    assert!(clean_fen("8/8/8/8/8/8/8/8 w - - 0 1\ngo infinite").is_none());
    assert!(clean_fen("not a fen").is_none());
}

#[test]
fn stockfish_versions_compare() {
    assert_eq!(stockfish_version("Stockfish 16").as_deref(), Some("16"));
    assert_eq!(stockfish_version("Stockfish 17.1").as_deref(), Some("17.1"));
    assert_eq!(stockfish_version("Stockfish dev-20260922-0a215d6c"), None);
    assert_eq!(stockfish_version("Lc0 v0.31.2"), None);
    assert!(older("16", "19"));
    assert!(older("17", "17.1"));
    assert!(!older("19", "19"));
    assert!(!older("19.1", "19"));
}

#[test]
fn history_must_lead_to_the_position() {
    let start = "rnbqkbnr/pppppppp/8/8/8/8/PPPPPPPP/RNBQKBNR w KQkq - 0 1";
    let sans: Vec<String> = ["e4", "e5", "Nf3", "Nc6+"].iter().map(|s| s.to_string()).collect();
    let fen = "r1bqkbnr/pppp1ppp/2n5/4p3/4P3/5N2/PPPP1PPP/RNBQKB1R w KQkq - 2 3";
    let h = history_to_uci(start, &sans, fen).unwrap();
    assert_eq!(h.start, start);
    assert_eq!(h.moves, vec!["e2e4", "e7e5", "g1f3", "b8c6"]);
    assert!(history_to_uci(start, &sans[..3], fen).is_none());
    assert!(history_to_uci(start, &["e5".to_string()], fen).is_none());
}

#[test]
fn a_search_keeps_its_lines_in_order() {
    let fen = "rnbqkbnr/pppppppp/8/8/4P3/8/PPPP1PPP/RNBQKBNR b KQkq - 0 1";
    let mut s = Search::start(1, "FakeFish 1", fen);
    s.take_line("info depth 12 multipv 2 score cp 10 nodes 5 nps 6 pv c7c5");
    s.take_line("info depth 12 multipv 1 score cp -25 nodes 5 nps 6 pv e7e5 g1f3 b8c6");
    let snap = s.snapshot();
    assert_eq!(snap.lines.iter().map(|l| l.multipv).collect::<Vec<_>>(), vec![1, 2]);
    // The engine speaks for the side to move, Black here; what is shown is White's.
    assert_eq!(snap.lines[0].eval_cp, Some(25));
    assert!(s.is_current(1) && !s.is_current(2));
}

#[test]
fn commands_for_a_search() {
    let c = search_commands("8/8/8/8/8/8/8/K1k5 w - - 0 1", &None, 3);
    assert!(c.iter().any(|l| l.contains("MultiPV") && l.contains('3')), "{c:?}");
    assert!(c.iter().any(|l| l == "position fen 8/8/8/8/8/8/8/K1k5 w - - 0 1"), "{c:?}");
}
