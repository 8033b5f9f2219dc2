use chess_db::feeds::{
    is_month, newest, otb_url, parse_list, set_changed, set_published, ProbeAnswer, ProbeNext, Series,
};

#[test]
fn parts_are_asked_for_until_one_is_missing() {
    let mut s = Series::new();
    assert!(matches!(s.start(), ProbeNext::Ask(0)));
    assert!(matches!(s.answered(ProbeAnswer::Found), ProbeNext::Ask(1)));
    assert!(matches!(s.answered(ProbeAnswer::Found), ProbeNext::Ask(2)));
    assert!(matches!(s.answered(ProbeAnswer::Missing), ProbeNext::Complete));
    assert_eq!(s.items.len(), 2);
    assert_eq!(s.items[1].url, otb_url(1));
    assert!(otb_url(2).ends_with("AJ-OTB-PGN-002.7z"), "{}", otb_url(2));
    assert_eq!(s.items[0].filename, "AJ-OTB-PGN-000.7z");
}

#[test]
fn no_connection_is_told_apart() {
    let mut s = Series::new();
    assert!(matches!(s.answered(ProbeAnswer::Offline), ProbeNext::NoConnection));
    let mut s = Series::new();
    assert!(matches!(s.answered(ProbeAnswer::Found), ProbeNext::Ask(1)));
    assert!(matches!(s.answered(ProbeAnswer::Failed), ProbeNext::Complete));
}

#[test]
fn months_are_recognised() {
    let m = |s: &str| is_month(&s.chars().collect::<Vec<_>>());
    assert!(m("2024-05"));
    for s in ["2024-5", "2024/05", "202x-05", "2024-055", ""] {
        assert!(!m(s), "{s}");
    }
}

#[test]
fn lists_of_broadcasts_are_read() {
    let body = "https://database.lichess.org/broadcast/lichess_db_broadcast_2024-05.pgn.zst\n\
                \n  https://database.lichess.org/broadcast/lichess_db_broadcast_2024-04.pgn.zst  \n\
                https://database.lichess.org/broadcast/readme.txt\n";
    let mut items = parse_list(body);
    assert_eq!(items.len(), 2);
    assert_eq!(items[0].external_id, "2024-05");
    assert_eq!(items[1].filename, "lichess_db_broadcast_2024-04.pgn.zst");
    let n = newest(&items).unwrap();
    assert_eq!(n, 0);
    set_changed(&mut items, n, Some("Sat, 01 Jun 2024 10:00:00 GMT"));
    assert_eq!(items[0].published.as_deref(), Some("2024-06-01"));
    assert_eq!(items[1].published.as_deref(), Some("2024-04-01"));
    assert_eq!(items[1].covers, Some(("2024-04-01".to_string(), "2024-04-31".to_string())));
    set_changed(&mut items, 1, Some("not a date"));
    assert_eq!(items[1].published.as_deref(), Some("2024-04-01"));
    set_published(&mut items, 1, Some("2024-05-09".to_string()));
    assert_eq!(items[1].published.as_deref(), Some("2024-05-09"));
    assert_eq!(newest(&[]), None);
}
