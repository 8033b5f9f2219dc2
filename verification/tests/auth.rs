use chess_db::auth::{
    bind_host, generate, is_loopback_bind, read_token, to_hex, token_file, token_of, token_path,
};

#[test]
fn loopback_detection_gates_the_token_requirement() {
    // What the address of each host says of itself, where it is an IP address.
    for (a, ip) in [
        ("127.0.0.1:7777", Some(true)),
        ("localhost:7777", None),
        ("[::1]:7777", Some(true)),
        ("127.0.0.53:7777", Some(true)),
    ] {
        assert!(is_loopback_bind(a, ip), "{a} is loopback");
    }
    for (a, ip) in [
        ("0.0.0.0:7777", Some(false)),
        ("192.168.1.10:7777", Some(false)),
        ("[::]:7777", Some(false)),
        ("lpdo.local:7777", None),
    ] {
        assert!(!is_loopback_bind(a, ip), "{a} is NOT loopback");
    }
}

#[test]
fn hosts_are_read_from_addresses() {
    assert_eq!(bind_host("127.0.0.1:7777"), "127.0.0.1");
    assert_eq!(bind_host("[::1]:7777"), "::1");
    assert_eq!(bind_host("LocalHost"), "LocalHost");
    assert!(is_loopback_bind("LocalHost", None));
}

#[test]
fn token_comparison_is_exact_and_length_safe() {
    assert!(chess_db::auth::matches("abc123", "abc123"));
    assert!(!chess_db::auth::matches("abc123", "abc124"));
    assert!(!chess_db::auth::matches("abc123", "abc1234"), "length mismatch rejected");
    assert!(!chess_db::auth::matches("abc123", ""), "empty rejected");
}

#[test]
fn generated_tokens_are_long_and_unique() {
    let (a, b) = (generate().unwrap(), generate().unwrap());
    assert_eq!(a.len(), 40, "160 bits hex-encoded");
    assert_ne!(a, b, "each token is freshly random");
    assert!(a.chars().all(|c| c.is_ascii_hexdigit()));
}

#[test]
fn load_or_create_persists_and_reuses_the_same_token() {
    let first = generate().unwrap();
    let second = read_token(&token_file(&first)).unwrap();
    assert_eq!(first, second, "an existing token is reused, not regenerated");
    assert_eq!(read_token("deadbeef\n").as_deref(), Some("deadbeef"));
    assert_eq!(read_token(" \n"), None);
}

#[test]
fn tokens_lie_beside_the_database() {
    assert_eq!(token_path("/var/lib/lpdo/chess.db"), "/var/lib/lpdo/access-token");
    assert_eq!(token_path("chess.db"), "access-token");
    assert_eq!(token_path("/"), "./access-token");
}

#[test]
fn bytes_in_hexadecimal() {
    assert_eq!(to_hex(&[0, 9, 10, 255, 0x5a]), "00090aff5a");
    assert_eq!(to_hex(&[]), "");
    assert_eq!(token_of(true, &[1, 2]).as_deref(), Some("0102"));
    assert_eq!(token_of(false, &[1, 2]), None);
}
