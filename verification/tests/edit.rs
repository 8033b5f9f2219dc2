use chess_db::chess::{BoardPosition, Played};
use chess_db::edit::{
    mainline_san_tokens, opening_of, play_line, rebuild_pgn, set_headers, set_moves, split_headers,
    LineError, PlayedLine, Tag,
};
use chess_db::pgn::{
    escape_tag_value, header_lines_are_closed, push_quoted, push_tag, repair_header_line,
    repair_pgn_header_quotes,
};

fn texts(v: &[&str]) -> Vec<String> {
    v.iter().map(|s| s.to_string()).collect()
}

#[test]
fn main_lines_are_read_from_movetext() {
    assert_eq!(
        mainline_san_tokens("1. e4 {a (b} e5 (1... c5 (1... e6)) 2.Nf3 $1 2... Nc6 1-0"),
        vec!["e4", "e5", "Nf3", "Nc6"]
    );
    assert_eq!(mainline_san_tokens("1.e4 e5 2.Nf3"), vec!["e4", "e5", "Nf3"]);
    assert_eq!(mainline_san_tokens("1.e4 1...e5 2.O-O 2...0-0"), vec!["e4", "e5", "O-O", "0-0"]);
    assert!(mainline_san_tokens("1. 2... * 1/2-1/2 0-1 $4 1.$2").is_empty());
    assert_eq!(mainline_san_tokens("e4{x}e5)Nf3"), vec!["e4", "e5", "Nf3"]);
}

#[test]
fn lines_are_played() {
    let l = play_line(&texts(&["f3", "e5", "g4", "Qh4"])).unwrap();
    assert_eq!(l.sans, vec!["f3", "e5", "g4", "Qh4#"]);
    assert_eq!(l.rows.len(), 5);
    assert_eq!(l.rows[3].2.as_deref(), Some("Qh4#"));
    assert_eq!(l.rows[4].2, None);
    let bad = play_line(&texts(&["e4", "2.Nf3"])).err().unwrap();
    assert_eq!(bad.message(), "move 2 (\"2.Nf3\") is not valid SAN");
    assert!(matches!(bad, LineError::NotSan { number: 2, .. }));
    let illegal = play_line(&texts(&["e4", "Ke3"])).err().unwrap();
    assert_eq!(illegal.message(), "move 2 (\"Ke3\") is illegal in this position");
}

const GAME: &str = "[White \"A\"]\n[Black \"B\"]\n\n1. d4 d5 0-1\n";

#[test]
fn moves_are_replaced_and_headers_kept() {
    let e = set_moves(GAME, "1. e4 {best} e5 (1... c5) 1-0", Some("0-1")).unwrap();
    assert_eq!(e.pgn, "[White \"A\"]\n[Black \"B\"]\n\n1. e4 {best} e5 (1... c5) 0-1\n");
    assert_eq!((e.move_count, e.opening_line.as_str()), (2, "e4 e5"));
    assert_eq!(e.rows.len(), 3);
    let none = set_moves(GAME, " * ", None).unwrap();
    assert_eq!((none.pgn.as_str(), none.move_count), ("[White \"A\"]\n[Black \"B\"]\n\n*\n", 0));
    assert!(set_moves(GAME, "1. e5", None).is_err());
    let close = set_moves(GAME, "1.e4 e5 2.Nf3", None).unwrap();
    assert_eq!((close.move_count, close.opening_line.as_str()), (3, "e4 e5 Nf3"));
}

#[test]
fn openings_are_ten_half_moves() {
    let sans: Vec<String> = (0..12).map(|i| format!("m{i}")).collect();
    assert_eq!(opening_of(&sans), "m0 m1 m2 m3 m4 m5 m6 m7 m8 m9");
}

#[test]
fn headers_end_at_the_first_other_line() {
    assert_eq!(split_headers(GAME), "[White \"A\"]\n[Black \"B\"]\n");
    assert_eq!(split_headers("1. e4 *\n[White \"A\"]\n"), "");
}

fn tag(name: &str, value: &str) -> Tag {
    Tag { name: name.into(), value: value.into() }
}

#[test]
fn headers_are_replaced_and_moves_kept() {
    let tags = [
        tag("White", "A \"the\" B"),
        tag("Date", " 2024.05.?? "),
        tag("WhiteElo", " 2500 "),
        tag("BlackElo", "x"),
        tag("Event", "  "),
        tag("Result", "1-0"),
    ];
    let e = set_headers(GAME, &tags);
    assert_eq!((e.event, e.date.as_deref(), e.result.as_deref()), (None, Some("2024-05-??"), Some("1-0")));
    assert_eq!((e.white_elo, e.black_elo), (Some(2500), None));
    assert!(e.pgn.starts_with("[White \"A \\\"the\\\" B\"]\n"), "{}", e.pgn);
    assert!(e.pgn.contains("1. d4 d5 0-1"));
    assert_eq!(e.pgn, rebuild_pgn(GAME, &tags));
}

#[test]
fn quotes_in_headers_are_repaired() {
    let line = |s: &str| repair_header_line(&s.chars().collect::<Vec<_>>()).into_iter().collect::<String>();
    assert_eq!(
        line("[Event \"Mannheim \"Zaragoza\" 3Meistertunier\"]"),
        "[Event \"Mannheim \\\"Zaragoza\\\" 3Meistertunier\"]"
    );
    assert_eq!(line("[Event \"plain\"]"), "[Event \"plain\"]");
    assert_eq!(line("Event \"a\"b\""), "Event \"a\"b\"");
    let esc = |s: &str| escape_tag_value(&s.chars().collect::<Vec<_>>()).into_iter().collect::<String>();
    assert_eq!(esc("a\"b"), "a\\\"b");
    assert_eq!(esc(&esc("a\"b")), esc("a\"b"), "twice is as once");
    let pgn = "[Event \"A \"B\" C\"]\n[Site \"?\"]\n\n1. e4 {\"x\"} *";
    assert!(header_lines_are_closed(pgn));
    assert_eq!(
        repair_pgn_header_quotes(pgn),
        "[Event \"A \\\"B\\\" C\"]\n[Site \"?\"]\n\n1. e4 {\"x\"} *"
    );
}

#[test]
fn repairs_are_made_once() {
    let pgn = "[A \"b\"c\"]\n[B \"d\"e\"]\r\r\n\n*";
    assert!(header_lines_are_closed(pgn));
    let once = repair_pgn_header_quotes(pgn);
    assert_eq!(once, "[A \"b\\\"c\"]\n[B \"d\\\"e\"]\n\n*");
    assert_eq!(repair_pgn_header_quotes(&once), once);
}

#[test]
fn lines_are_looked_into_up_to_the_first_quote() {
    // Behind a line that needs a repair only tags are looked at.
    let pgn = "[A \"b\"c\"]\nx\"]\n\n*";
    assert!(header_lines_are_closed(pgn));
    assert_eq!(repair_pgn_header_quotes(pgn), "[A \"b\\\"c\"]\nx\"]\n\n*");
    assert!(!header_lines_are_closed("x\"]\n[A \"b\"c\"]\n\n*"));
    assert!(!header_lines_are_closed("[A \"b\"c\"]\n[B \"]\n\n*"));
    assert!(header_lines_are_closed("[B x\n\"y\n\n*"));
}

#[test]
fn tags_are_quoted() {
    let mut s = String::new();
    push_tag(&mut s, "White", "a\\b\"c");
    assert_eq!(s, "[White \"a\\\\b\\\"c\"]\n");
    let mut q = String::new();
    push_quoted(&mut q, "x");
    assert_eq!(q, "x");
}

#[test]
fn a_line_takes_played_moves() {
    let mut line = PlayedLine { sans: Vec::new(), rows: Vec::new() };
    let next = BoardPosition { fen: "F".into(), hash: 9, standard: false };
    let at = line.take(Played { san: "e4".into(), next });
    assert_eq!((at.fen.as_str(), at.hash), ("F", 9));
    assert_eq!(line.sans, vec!["e4"]);
    assert_eq!(line.rows.len(), 1);
    assert_eq!(line.rows[0], (1, 9, None));
}
