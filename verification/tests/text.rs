use chess_db::chess::{play_san, resolve_san};
use chess_db::names::{normalize_name, space_out};
use chess_db::paths::{join_path, parent_dir, snapshot_path, snapshot_wal_path, wal_path, with_suffix};
use chess_db::patterns::find_group;
use chess_db::sorting::{codes_of, comes_before, sort_places};
use chess_db::text::{
    dropped, find, has_prefix, has_suffix, joined, parse_i32, parse_i64, parse_u32, parse_u64,
    replaced, same, signed_decimal, split_char, split_lines, split_words, trimmed, white,
};

fn chars(s: &str) -> Vec<char> {
    s.chars().collect()
}

#[test]
fn white_space_is_what_std_says() {
    for n in 0..=0x10FFFFu32 {
        if let Some(c) = char::from_u32(n) {
            assert_eq!(white(c), c.is_whitespace(), "U+{n:04X}");
        }
    }
}

#[test]
fn texts_are_cut_as_std_cuts_them() {
    for s in ["", " ", "a", " a b\t\nc ", "\u{a0}x\u{2003}", "a\r\nb\n", "a\n\nb", "\n", "x\r", "a,b,,c", ","] {
        assert_eq!(trimmed(s), s.trim(), "{s:?}");
        assert_eq!(split_words(&chars(s)), s.split_whitespace().collect::<Vec<_>>(), "{s:?}");
        assert_eq!(split_lines(&chars(s)), s.lines().collect::<Vec<_>>(), "{s:?}");
        assert_eq!(split_char(&chars(s), ','), s.split(',').collect::<Vec<_>>(), "{s:?}");
        assert_eq!(replaced(&chars(s), ',', ';').into_iter().collect::<String>(), s.replace(',', ";"));
        assert_eq!(dropped(&chars(s), 'a').into_iter().collect::<String>(), s.replace('a', ""));
    }
    assert_eq!(joined(&["a".to_string(), "b".to_string()], ", "), "a, b");
    assert_eq!(find(&chars("abcabc"), &chars("ca")), Some(2));
    assert_eq!(find(&chars("abc"), &chars("x")), None);
    assert!(has_prefix(&chars("abc"), &chars("ab")) && has_suffix(&chars("abc"), &chars("bc")));
    assert!(same("é", "é") && !same("e", "é"));
}

#[test]
fn numbers_are_read_as_std_reads_them() {
    for s in [
        "", "0", "+5", "-5", "-", "+", "007", "4294967295", "4294967296", "2147483647", "2147483648",
        "-2147483648", "-2147483649", "18446744073709551615", "18446744073709551616",
        "9223372036854775807", "-9223372036854775808", "-9223372036854775809", "1 ", "x", "1x", "٣",
    ] {
        let c = chars(s);
        assert_eq!(parse_u32(&c), s.parse::<u32>().ok(), "{s:?}");
        assert_eq!(parse_u64(&c), s.parse::<u64>().ok(), "{s:?}");
        assert_eq!(parse_i32(&c), s.parse::<i32>().ok(), "{s:?}");
        assert_eq!(parse_i64(&c), s.parse::<i64>().ok(), "{s:?}");
    }
    for n in [0i64, 7, -7, i64::MAX, i64::MIN] {
        assert_eq!(signed_decimal(n), n.to_string());
    }
}

#[test]
fn names_are_folded() {
    assert_eq!(normalize_name("  CARLSEN,Magnus  Øen "), "carlsen magnus øen");
    assert_eq!(normalize_name("ΟΔΥΣΣΕΥΣ"), "ΟΔΥΣΣΕΥΣ".to_lowercase());
    assert_eq!(normalize_name(", ,"), "");
    assert_eq!(space_out("carlsen,magnus  "), "carlsen magnus");
}

#[test]
fn patterns_give_their_group() {
    assert_eq!(find_group("a(b+)c", "xabbc").as_deref(), Some("bb"));
    assert_eq!(find_group("a(b+)c", "xac"), None);
    assert_eq!(find_group("(", "("), None);
}

#[test]
fn paths_are_joined_and_cut() {
    assert_eq!(join_path("/a", "b"), "/a/b");
    assert_eq!(join_path("/a/", "b"), "/a/b");
    assert_eq!(join_path("", "b"), "b");
    let mut all = vec![String::new()];
    let mut from = 0;
    while all[from].len() < 7 {
        for c in ['/', '.', 'a'] {
            let longer = format!("{}{c}", all[from]);
            all.push(longer);
        }
        from += 1;
    }
    for p in &all {
        let std = std::path::Path::new(p).parent().map(|x| x.to_string_lossy().into_owned());
        assert_eq!(parent_dir(p), std, "{p:?}");
    }
    assert_eq!(with_suffix("/x/a.db", ".old"), "/x/a.db.old");
    assert_eq!(wal_path("/x/a.db"), "/x/a.db.wal");
    assert_ne!(snapshot_path("/x/a.db"), snapshot_wal_path("/x/a.db"));
}

#[test]
fn places_in_order() {
    let words = ["b", "a", "ab", "b", "é"];
    let keys: Vec<Vec<u64>> = words.iter().map(|w| codes_of(w)).collect();
    let places = sort_places(&keys);
    let sorted: Vec<&str> = places.iter().map(|p| words[*p]).collect();
    assert_eq!(sorted, vec!["a", "ab", "b", "b", "é"]);
    assert_eq!(places[2..4], [0, 3], "equals stay in their order");
    assert!(comes_before(&keys[1], &keys[2]) && !comes_before(&keys[0], &keys[3]));
}

#[test]
fn moves_are_resolved_and_played() {
    let start = "rnbqkbnr/pppppppp/8/8/8/8/PPPPPPPP/RNBQKBNR w KQkq - 0 1";
    assert_eq!(resolve_san(start, "Ngf3").as_deref(), Some("g1f3"));
    assert_eq!(resolve_san(start, "Ke2"), None);
    let p = play_san(start, "Ngf3").unwrap();
    assert_eq!(p.san, "Nf3");
    assert_eq!(p.next.fen, "rnbqkbnr/pppppppp/8/8/8/5N2/PPPPPPPP/RNBQKB1R b KQkq - 1 1");
    assert_eq!(
        resolve_san("r3k2r/8/8/8/8/8/8/R3K2R w KQkq - 0 1", "O-O").as_deref(),
        Some("e1g1")
    );
}
