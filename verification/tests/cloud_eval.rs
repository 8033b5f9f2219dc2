use chess_db::cloud_eval::{
    cap_line, chessdb_reply, child_fen, eval_signature, lichess_reply, lines_to_fetch,
    list_watches, may_keep, no_lichess_eval, offline_eval, parse_lichess, parse_mate,
    parse_queryall, remove_watch, throttle_wait, CloudEval, CloudMove, EvalCache, LichessPv,
    QueryMove, Reply, WatchBoard, CACHE_CAP, CACHE_TTL_SECS,
};

const START: &str = "rnbqkbnr/pppppppp/8/8/8/8/PPPPPPPP/RNBQKBNR w KQkq - 0 1";

fn mv(san: &str, uci: &str, score_cp: i32, mate: Option<i32>) -> CloudMove {
    CloudMove { san: san.into(), uci: uci.into(), score_cp, mate, winrate: None, rank: 0, note: String::new() }
}

fn eval(moves: Vec<CloudMove>) -> CloudEval {
    CloudEval { status: "ok".into(), moves }
}

#[test]
fn mates_are_read_from_notes() {
    assert_eq!(parse_mate("! (W-0003)"), Some(3));
    assert_eq!(parse_mate("! (L-12)"), Some(-12));
    assert_eq!(parse_mate("! (W-0)"), Some(1));
    assert_eq!(parse_mate("* (20-04)"), None);
    assert_eq!(parse_mate("! W-3"), None);
    assert_eq!(parse_mate("(W)"), None);
    assert_eq!(parse_mate("(W-x)"), None);
}

#[test]
fn positions_after_a_move() {
    assert_eq!(
        child_fen(START, "e4").as_deref(),
        Some("rnbqkbnr/pppppppp/8/8/4P3/8/PPPP1PPP/RNBQKBNR b KQkq - 0 1")
    );
    assert_eq!(child_fen(START, "e5"), None);
    assert_eq!(child_fen("nonsense", "e4"), None);
}

#[test]
fn answers_of_chessdb_are_read() {
    let ok = QueryMove {
        san: Some("e4".into()),
        uci: None,
        score: Some(-7),
        winrate: Some("49.50".into()),
        rank: None,
        note: Some("! (W-2)".into()),
    };
    let nameless = QueryMove { san: None, uci: None, score: Some(1), winrate: None, rank: None, note: None };
    let unscored =
        QueryMove { san: Some("d4".into()), uci: None, score: None, winrate: None, rank: None, note: None };
    let e = parse_queryall(Some("ok"), &[ok, nameless, unscored]);
    assert_eq!((e.status.as_str(), e.moves.len()), ("ok", 1));
    let m = &e.moves[0];
    assert_eq!((m.san.as_str(), m.uci.as_str(), m.score_cp, m.mate, m.rank), ("e4", "", -7, Some(2), 0));
    assert_eq!((m.winrate.as_deref(), m.note.as_str()), (Some("49.50"), "! (W-2)"));
    assert_eq!(parse_queryall(Some("checkmate"), &[]).status, "unknown");
    assert_eq!(parse_queryall(None, &[]).status, "unknown");
    assert_eq!(offline_eval().status, "offline");
}

#[test]
fn only_the_first_moves_get_lines() {
    let six = eval(vec![
        mv("e4", "e2e4", 1, None),
        mv("Ke2", "e1e2", 1, None),
        mv("d4", "d2d4", 1, None),
        mv("c4", "c2c4", 1, None),
        mv("Nf3", "g1f3", 1, None),
        mv("Nc3", "b1c3", 1, None),
    ]);
    let lines = lines_to_fetch(START, &six);
    let ucis: Vec<&str> = lines.iter().map(|l| l.uci.as_str()).collect();
    assert_eq!(ucis, vec!["e2e4", "d2d4", "c2c4", "g1f3"], "the impossible move is left out, the sixth never asked for");
    assert_eq!(lines[1].fen, "rnbqkbnr/pppppppp/8/8/3P4/8/PPP1PPPP/RNBQKBNR b KQkq - 0 1");
    assert!(lines_to_fetch(START, &offline_eval()).is_empty());
    let long: Vec<String> = (0..20).map(|i| format!("m{i}")).collect();
    assert_eq!(cap_line("e2e4".into(), long).pv_san.len(), 12);
}

#[test]
fn answers_of_lichess_are_read() {
    let pvs = [
        LichessPv { cp: Some(20), mate: None, moves: Some("e2e4 e7e5".into()) },
        LichessPv { cp: Some(19), mate: None, moves: Some("e2e4 c7c5".into()) },
        LichessPv { cp: None, mate: Some(-3), moves: Some("d2d4".into()) },
        LichessPv { cp: Some(1), mate: None, moves: None },
    ];
    let e = parse_lichess(&pvs, Some(40), None);
    assert_eq!((e.status.as_str(), e.depth, e.knodes), ("ok", 40, 0));
    assert_eq!(e.lines[0].pv_uci, vec!["e2e4", "e7e5"]);
    assert_eq!(e.lines.len(), 2, "one line for each first move");
    assert_eq!((e.lines[1].eval_cp, e.lines[1].mate, e.lines[1].pv_uci.len()), (None, Some(-3), 1));
    assert_eq!(no_lichess_eval("unknown").status, "unknown");
}

#[test]
fn only_answers_are_kept() {
    assert!(matches!(lichess_reply(Some(200), true), Reply::Known));
    assert!(matches!(lichess_reply(Some(404), true), Reply::Unknown));
    assert!(matches!(lichess_reply(Some(429), true), Reply::Offline));
    assert!(matches!(lichess_reply(Some(200), false), Reply::Offline));
    assert!(matches!(lichess_reply(None, true), Reply::Offline));
    assert!(matches!(chessdb_reply(Some(200), true), Reply::Known));
    assert!(matches!(chessdb_reply(Some(503), true), Reply::Offline));
    assert!(may_keep(Reply::Known) && may_keep(Reply::Unknown) && !may_keep(Reply::Offline));
}

#[test]
fn caches_forget_after_a_day_and_when_full() {
    let mut c: EvalCache<u8> = EvalCache::new();
    c.keep(1, 100, 7);
    assert_eq!(c.get_fresh(1, 100 + CACHE_TTL_SECS - 1, false), Some(&7));
    assert_eq!(c.get_fresh(1, 100 + CACHE_TTL_SECS, false), None);
    assert_eq!(c.get_fresh(1, 100, true), None);
    assert_eq!(c.get_fresh(2, 100, false), None);
    for i in 0..CACHE_CAP as i64 {
        c.keep(i, 100, 1);
    }
    c.keep(-1, 100, 9);
    assert_eq!(c.get_fresh(-1, 100, false), Some(&9));
    assert_eq!(c.get_fresh(5, 100, false), None, "a full cache starts again");
    c.forget(-1);
    assert_eq!(c.get_fresh(-1, 100, false), None);
}

#[test]
fn requests_are_spaced_out() {
    assert_eq!(throttle_wait(50, 200), 150);
    assert_eq!(throttle_wait(200, 200), 0);
    assert_eq!(throttle_wait(500, 200), 0);
}

#[test]
fn signatures_ignore_the_order_of_moves() {
    let a = eval(vec![mv("e4", "e2e4", 10, None), mv("d4", "d2d4", 5, Some(3))]);
    let b = eval(vec![mv("d4", "d2d4", 5, Some(3)), mv("e4", "e2e4", 10, None)]);
    let c = eval(vec![mv("d4", "d2d4", 5, Some(3)), mv("e4", "e2e4", 11, None)]);
    assert_eq!(eval_signature(&a), eval_signature(&b));
    assert_ne!(eval_signature(&a), eval_signature(&c));
    assert_ne!(eval_signature(&a), eval_signature(&eval(vec![])));
}

#[test]
fn watches_fire_when_evaluations_change() {
    let mut b = WatchBoard::new();
    let before = eval(vec![mv("e4", "e2e4", 10, None)]);
    let w = b.add_watch(5, START, "start", 100, &before);
    assert_eq!((w.status.as_str(), w.elapsed_secs), ("watching", None));
    b.add_watch(6, START, "other", 200, &before);
    assert_eq!(b.pending(), vec![(5, START.to_string()), (6, START.to_string())]);
    b.take_eval(5, &before, 150);
    assert_eq!(b.pending().len(), 2, "the same evaluations change nothing");
    b.take_eval(5, &eval(vec![mv("e4", "e2e4", 12, None)]), 160);
    assert_eq!(b.pending().len(), 1);
    let l = list_watches(&b);
    let five = l.iter().find(|w| w.zobrist == 5).unwrap();
    assert_eq!((five.status.as_str(), five.elapsed_secs), ("updated", Some(60)));
    assert_eq!(l[0].zobrist, 5, "by their positions");
    remove_watch(&mut b, 5);
    assert_eq!(list_watches(&b).len(), 1);
}
