use chess_db::reading::{game_of, positions_of, read_events, read_game, GameEvents, PgnEvent, TooManyMoves};
use chess_db::visitor::{strip_evp, GameData, GameVisitor};

fn parse_with(visitor: GameVisitor, pgn: &str) -> Option<GameData> {
    read_game(&visitor, pgn, 2026).expect("a number for every move")
}

fn parse_one(pgn: &str) -> GameData {
    parse_with(GameVisitor::new(Some(40)), pgn).expect("a game with White & Black tags")
}

#[test]
fn moves_are_stored_in_their_canonical_spelling() {
    let over = parse_one("[White \"A\"]\n[Black \"B\"]\n\n1. e4 e5 2. Nge2 Nf6 *");
    let plain = parse_one("[White \"A\"]\n[Black \"B\"]\n\n1. e4 e5 2. Ne2 Nf6 *");
    assert!(over.pgn.contains("Ne2") && !over.pgn.contains("Nge2"), "normalised: {}", over.pgn);
    assert_eq!(over.pgn.lines().last(), plain.pgn.lines().last(), "both spellings store the same movetext");
    assert_eq!(plain.opening_line, over.opening_line, "and the same opening line");
}

#[test]
fn real_disambiguation_is_kept() {
    let g = parse_one("[White \"A\"]\n[Black \"B\"]\n\n1. Nf3 d5 2. Nbd2 Nf6 *");
    assert!(g.pgn.contains("Nbd2"), "kept: {}", g.pgn);
    let other = parse_one("[White \"A\"]\n[Black \"B\"]\n\n1. Nf3 d5 2. Nfd2 Nf6 *");
    assert!(other.pgn.contains("Nfd2"), "the other knight is still its own move: {}", other.pgn);
}

#[test]
fn a_pinned_rival_needs_no_disambiguation() {
    let head = "[White \"A\"]\n[Black \"B\"]\n\n1. d4 Nf6 2. c4 e6 3. Nc3 Bb4 4. e3 ";
    let chessbase = parse_one(&format!("{head}0-0 5. Nge2 d5 *"));
    let others = parse_one(&format!("{head}O-O 5. Ne2 d5 *"));
    assert!(chessbase.pgn.contains(" Ne2 "), "the file is dropped: {}", chessbase.pgn);
    assert!(chessbase.pgn.contains("O-O"), "castling normalised: {}", chessbase.pgn);
    assert_eq!(
        chessbase.pgn.lines().last(),
        others.pgn.lines().last(),
        "both exports of the same game store the same movetext",
    );
    assert_eq!(chessbase.opening_line, others.opening_line, "so the opening tree sees one line, not two");
}

#[test]
fn check_and_mate_suffixes_are_written_from_the_position() {
    let g = parse_one("[White \"A\"]\n[Black \"B\"]\n\n1. f3 e5 2. g4 Qh4 1-0");
    assert!(g.pgn.contains("Qh4#"), "mate marked even though the source didn't: {}", g.pgn);
}

#[test]
fn variations_are_canonicalised_from_their_own_branch_point() {
    let g = parse_one(
        "[White \"A\"]\n[Black \"B\"]\n\n             1. e4 e5 2. Nge2 (2. Nf3 (2. Bc4 Nf6) 2... Nc6) 2... Nf6 *",
    );
    assert!(g.pgn.contains("Ne2"), "main line normalised: {}", g.pgn);
    assert!(g.pgn.contains("Nf3") && g.pgn.contains("Nc6"), "variation kept: {}", g.pgn);
    assert!(g.pgn.contains("Bc4"), "nested variation kept: {}", g.pgn);
    assert_eq!(g.pgn.matches('(').count(), 2, "both variations kept: {}", g.pgn);
    assert_eq!(g.pgn.matches(')').count(), 2, "and closed: {}", g.pgn);
    assert!(g.pgn.ends_with("Nf6"), "main line resumes: {}", g.pgn);
}

#[test]
fn an_unplayable_move_leaves_the_rest_of_the_game_alone() {
    let g = parse_one("[White \"A\"]\n[Black \"B\"]\n\n1. e4 e5 2. Qh8 *");
    assert!(g.pgn.contains("Qh8"), "the impossible move is kept: {}", g.pgn);
}

#[test]
fn preserves_comments_nags_and_variations() {
    let pgn = "[White \"A\"]\n[Black \"B\"]\n\n\
            1. e4 {good} $1 (1. d4 {alt} d5) e5 2. Nf3 Nc6 *\n";
    let g = parse_one(pgn);
    assert!(g.pgn.contains("{good}"), "comment kept: {}", g.pgn);
    assert!(g.pgn.contains("$1"), "nag kept: {}", g.pgn);
    assert!(g.pgn.contains('(') && g.pgn.contains(')'), "variation kept: {}", g.pgn);
    assert!(g.pgn.contains("d4") && g.pgn.contains("{alt}"), "variation body kept: {}", g.pgn);
    assert_eq!(g.move_count, 4, "main-line move count");
    assert_eq!(g.opening_line, "e4 e5 Nf3 Nc6");
    assert_eq!(g.positions.len(), 5);
    // The starting position, with the move that was played in it.
    assert_eq!(g.positions[0].1, 0x463b96181691fc9c_u64 as i64);
    assert_eq!(g.positions[0].2.as_deref(), Some("e4"));
    assert_eq!(g.positions[4].2, None);
}

#[test]
fn opening_line_stable_for_fingerprint() {
    let annotated = parse_one("[White \"A\"]\n[Black \"B\"]\n\n1. e4 {x} e5 (1... c5) 2. Nf3 *\n");
    let plain = parse_one("[White \"A\"]\n[Black \"B\"]\n\n1. e4 e5 2. Nf3 *\n");
    assert_eq!(annotated.opening_line, plain.opening_line);
    assert_eq!(annotated.opening_line, "e4 e5 Nf3");
}

#[test]
fn drops_evp_keeps_other_directives() {
    let pgn = "[White \"A\"]\n[Black \"B\"]\n\n\
            { [%evp 0,38,28,30] } 1. e4 { [%cal Ge2e4] keep me } e5 *\n";
    let g = parse_one(pgn);
    assert!(!g.pgn.contains("%evp"), "evp dropped: {}", g.pgn);
    assert!(!g.pgn.contains("0,38"), "evp payload dropped: {}", g.pgn);
    assert!(!g.pgn.contains("{}"), "no empty comment: {}", g.pgn);
    assert!(g.pgn.contains("[%cal Ge2e4]"), "cal kept: {}", g.pgn);
    assert!(g.pgn.contains("keep me"), "text kept: {}", g.pgn);
}

#[test]
fn tags_become_columns() {
    let g = parse_one(
        "[Event \"E\"]\n[Site \"S\"]\n[Date \"2024.05.06\"]\n[Round \"3\"]\n[White \"A\"]\n[Black \"B\"]\n[Result \"1-0\"]\n[WhiteElo \"2500\"]\n[BlackElo \"0\"]\n[WhiteFideId \"17\"]\n[ECO \"C42\"]\n[GameId \"99\"]\n\n1. e4 1-0",
    );
    assert_eq!(g.event.as_deref(), Some("E"));
    assert_eq!(g.date.as_deref(), Some("2024-05-06"));
    assert_eq!((g.white_elo, g.black_elo), (Some(2500), None));
    assert_eq!((g.white_fide_id, g.black_fide_id), (Some(17), None));
    assert_eq!(g.chessbase_id, Some(99));
    assert_eq!(g.eco.as_deref(), Some("C42"));
    assert!(!g.non_standard);
    assert!(g.pgn.starts_with("[Event \"E\"]\n[Site \"S\"]\n"));
    assert!(g.pgn.ends_with("\n\ne4"), "{}", g.pgn);
}

#[test]
fn dates_fall_back() {
    let with = |date: &str| {
        parse_with(
            GameVisitor::with_fallback_date(None, Some("2025-08-??".to_string())),
            &format!("[White \"A\"]\n[Black \"B\"]\n{date}\n1. e4 *"),
        )
        .unwrap()
        .date
    };
    assert_eq!(with("[Date \"????.??.??\"]\n[EventDate \"2023.01.02\"]\n").as_deref(), Some("2023-01-02"));
    assert_eq!(with("").as_deref(), Some("2025-08-??"));
    assert_eq!(with("[Date \"2024.??.??\"]\n").as_deref(), Some("2024-??-??"));
    assert_eq!(with("[Date \"9999.01.01\"]\n").as_deref(), Some("2025-08-??"));
}

#[test]
fn games_need_both_names() {
    assert!(parse_with(GameVisitor::new(None), "[White \"A\"]\n\n1. e4 *").is_none());
}

#[test]
fn fragments_are_not_standard() {
    let g = parse_one("[White \"A\"]\n[Black \"B\"]\n[SetUp \"1\"]\n[FEN \"8/8/8/8/8/8/8/K1k4R w - - 0 1\"]\n\n1. Rh2 *");
    assert!(g.non_standard);
    assert!(g.pgn.ends_with("Rh2"), "{}", g.pgn);
    let s = parse_one("[White \"A\"]\n[Black \"B\"]\n[FEN \"rnbqkbnr/pppppppp/8/8/8/8/PPPPPPPP/RNBQKBNR w KQkq - 0 1\"]\n\n1. e4 *");
    assert!(!s.non_standard);
    let c = parse_one("[White \"A\"]\n[Black \"B\"]\n[FEN \"rkbbqnnr/pppppppp/8/8/8/8/PPPPPPPP/RKBBQNNR w GEge - 0 1\"]\n\n1. e4 *");
    assert!(c.non_standard);
}

#[test]
fn positions_stop_at_the_depth() {
    let g = parse_with(GameVisitor::new(Some(2)), "[White \"A\"]\n[Black \"B\"]\n\n1. e4 e5 2. Nf3 Nc6 *").unwrap();
    assert_eq!(g.positions.iter().map(|p| p.0).collect::<Vec<_>>(), vec![0, 1, 2]);
    assert_eq!(g.positions[2].2.as_deref(), Some("Nf3"), "the deepest has its next move");
    let none = parse_with(GameVisitor::new(None), "[White \"A\"]\n[Black \"B\"]\n\n1. e4 e5 *").unwrap();
    assert!(none.positions.is_empty());
    assert_eq!(none.move_count, 2);
}

#[test]
fn profiles_go_whatever_their_case() {
    assert_eq!(strip_evp("a [%EVP 1,2] b"), "a  b");
    assert_eq!(strip_evp("[%evpx 1]"), "[%evpx 1]");
}

#[test]
fn events_come_in_order() {
    let e = read_events("[White \"A \\\"x\\\" B\"]\n\n1. e4! {c d} (1. d4) e5 1-0\n\n[White \"C\"]\n\n1. c4 *", 9);
    assert!(e.complete);
    assert_eq!(e.tags, vec![("White".to_string(), "A \"x\" B".to_string())]);
    assert_eq!(e.moves.len(), 7);
    assert!(matches!(&e.moves[0], PgnEvent::San(s) if s == "e4"));
    assert!(matches!(e.moves[1], PgnEvent::Nag(1)));
    assert!(matches!(&e.moves[2], PgnEvent::Comment(c) if c == "c d"));
    assert!(matches!(e.moves[3], PgnEvent::Open) && matches!(e.moves[5], PgnEvent::Close));
    // A variation that is not gone into leaves nothing but its brackets.
    let e = read_events("1. e4 (1. d4 (1. c4)) e5 (1... c5) *", 0);
    let words: Vec<&str> = e
        .moves
        .iter()
        .map(|m| match m {
            PgnEvent::San(s) => s.as_str(),
            PgnEvent::Open => "(",
            PgnEvent::Close => ")",
            _ => "?",
        })
        .collect();
    assert_eq!(words, vec!["e4", "(", ")", "e5", "(", ")"]);
    assert!(!read_events("", 9).complete);
    let broken = read_events("1. e4 {c", 9);
    assert!(!broken.complete && broken.moves.len() == 1);
}

#[test]
fn games_come_of_events() {
    let v = GameVisitor::new(Some(40));
    let tags = vec![("White".to_string(), "A".to_string()), ("Black".to_string(), "B".to_string())];
    let moves = vec![PgnEvent::San("e4".into()), PgnEvent::Nag(3), PgnEvent::San("e5".into())];
    let mut e = GameEvents { tags, moves, complete: true };
    let g = game_of(&v, &e, 2026).unwrap().unwrap();
    assert_eq!((g.move_count, g.pgn.as_str()), (2, "[White \"A\"]\n[Black \"B\"]\n\ne4 $3 e5"));
    e.complete = false;
    assert!(game_of(&v, &e, 2026).unwrap().is_none());
    e.complete = true;
    e.tags.pop();
    assert!(game_of(&v, &e, 2026).unwrap().is_none(), "nobody has Black");
}

#[test]
fn moves_are_counted_as_far_as_numbers_go() {
    let v = GameVisitor::new(None);
    let line = |n: usize| GameEvents {
        tags: vec![("White".to_string(), "A".to_string()), ("Black".to_string(), "B".to_string())],
        moves: (0..n).map(|_| PgnEvent::San("Qh8".into())).collect(),
        complete: true,
    };
    assert_eq!(game_of(&v, &line(32767), 2026).unwrap().unwrap().move_count, i16::MAX);
    assert_eq!(game_of(&v, &line(32768), 2026).err(), Some(TooManyMoves));
    // A game that cannot be followed is not counted on.
    let indexed = GameVisitor::new(Some(40));
    assert_eq!(game_of(&indexed, &line(32768), 2026).unwrap().unwrap().move_count, 1);
}

#[test]
fn stored_games_give_their_rows() {
    let pgn = "[White \"A \"x\" B\"]\n[Black \"B\"]\n\n1. e4 (1. d4) e5 *";
    let rows = positions_of(7, pgn, Some(1), 2026).unwrap();
    let got: Vec<(u32, i16, Option<&str>)> =
        rows.iter().map(|r| (r.game_id, r.move_number, r.next_move.as_deref())).collect();
    assert_eq!(got, vec![(7, 0, Some("e4")), (7, 1, Some("e5"))]);
    assert_eq!(rows[0].zobrist_hash, 0x463b96181691fc9c_u64 as i64);
    assert!(positions_of(7, pgn, None, 2026).unwrap().is_empty());
    assert!(positions_of(7, "[White \"A\"]\n\n1. e4 *", Some(9), 2026).unwrap().is_empty());
    assert!(positions_of(7, "", Some(9), 2026).unwrap().is_empty());
}

#[test]
fn nothing_behind_a_lost_move_does_harm() {
    // The comment in the variation is too long to be read: where it is, the game cannot be.
    let tail = format!("(1... c5 {{{} }}) *", "x".repeat(40_000));
    let head = "[White \"A\"]\n[Black \"B\"]\n\n1. e4 ";
    let lost = positions_of(7, &format!("{head}Qh8 {tail}"), Some(40), 2026).unwrap();
    assert_eq!(lost.len(), 2, "what was indexed before the move stays");
    assert_eq!(lost[1].next_move.as_deref(), Some("Qh8"));
    assert!(positions_of(7, &format!("{head}e5 {tail}"), Some(40), 2026).unwrap().is_empty());
}

#[test]
fn a_needless_hint_leaves_the_same_game() {
    let head = "[White \"A\"]\n[Black \"B\"]\n\n1. e4 d5 ";
    for (long, short) in [("2. Nge2 *", "2. Ne2 *"), ("2. N1e2 *", "2. Ne2 *"), ("2. Nc3 Qdd6 3. Ncxd5 *", "2. Nc3 Qd6 3. Nxd5 *")] {
        let a = parse_one(&format!("{head}{long}"));
        let b = parse_one(&format!("{head}{short}"));
        assert_eq!((&a.pgn, &a.opening_line, &a.positions), (&b.pgn, &b.opening_line, &b.positions));
    }
}
