use chess_db::fide::{list_entry, parse_line, FideLoad};

#[test]
fn parses_id_and_name_from_fixed_width() {
    let line = "40132986       -Moonen, Bas                                                 NED M";
    let (id, name) = parse_line(line).unwrap();
    assert_eq!(id, 40132986);
    assert_eq!(name, "-Moonen, Bas");

    let line2 = "1503014        Carlsen, Magnus                                              NOR M  GM";
    let (id2, name2) = parse_line(line2).unwrap();
    assert_eq!(id2, 1503014);
    assert_eq!(name2, "Carlsen, Magnus");
}

#[test]
fn rejects_header_and_junk() {
    assert!(parse_line("ID Number      Name").is_none());
    assert!(parse_line("").is_none());
    assert!(parse_line("short").is_none());
}

#[test]
fn columns_are_counted_in_bytes() {
    // Exactly 16 bytes hold a name of one letter.
    assert_eq!(parse_line("7              X"), Some((7, "X".to_string())));
    assert_eq!(parse_line("7               "), None);
    // A letter of two bytes across the end of the numbers' column.
    assert_eq!(parse_line("7             éX"), None);
    // One across the end of the names' column is replaced.
    let long = format!("7              {}é", "a".repeat(60));
    assert_eq!(parse_line(&long).unwrap().1, format!("{}\u{FFFD}", "a".repeat(60)));
    let fits = format!("7              {}é", "a".repeat(59));
    assert_eq!(parse_line(&fits).unwrap().1, format!("{}é", "a".repeat(59)));
}

#[test]
fn lists_are_loaded_line_by_line() {
    let mut l = FideLoad::new();
    assert!(l.take(Some("7              X")).row.is_none(), "the first line holds the headings");
    assert_eq!(l.take(Some("7              X")).row, Some((7, "X".to_string())));
    assert!(l.take(None).row.is_none());
    assert!(l.take(Some("junk")).row.is_none());
    assert_eq!(l.done("list.txt"), "Loaded 1 FIDE players from list.txt");
    l.count = 199_999;
    assert_eq!(l.take(Some("7              X")).progress.as_deref(), Some("Loaded 200000 FIDE players…"));
}

#[test]
fn the_list_is_found_in_the_archive() {
    let names: Vec<String> = ["a.xml", "Players.TXT", "b.txt"].iter().map(|s| s.to_string()).collect();
    assert_eq!(list_entry(&names), Some(1));
    assert_eq!(list_entry(&names[..1]), None);
}
