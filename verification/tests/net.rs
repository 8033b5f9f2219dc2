use chess_db::net::{is_offline_error, Cause};

#[test]
fn http_status_and_generic_errors_are_not_offline() {
    assert!(!is_offline_error(&[Cause::Other]));
    assert!(!is_offline_error(&[Cause::Other, Cause::Other]));
    assert!(!is_offline_error(&[Cause::Request { connect: false, timeout: false }]));
    assert!(!is_offline_error(&[]));
}

#[test]
fn lost_connections_are_offline_however_deep() {
    assert!(is_offline_error(&[Cause::Other, Cause::Request { connect: true, timeout: false }]));
    assert!(is_offline_error(&[Cause::Request { connect: false, timeout: true }, Cause::Other]));
}
