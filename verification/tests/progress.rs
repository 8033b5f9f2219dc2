use chess_db::progress::thousands;

#[test]
fn groups_by_threes() {
    assert_eq!(thousands(0), "0");
    assert_eq!(thousands(42), "42");
    assert_eq!(thousands(1_000), "1,000");
    assert_eq!(thousands(91_238), "91,238");
    assert_eq!(thousands(12_040_323), "12,040,323");
    assert_eq!(thousands(-1_234), "-1,234");
}

#[test]
fn groups_the_extremes() {
    assert_eq!(thousands(i64::MIN), "-9,223,372,036,854,775,808");
    assert_eq!(thousands(-42), "-42");
}
