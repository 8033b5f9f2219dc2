use chess_db::normalise::{
    apply_canonical, extract_name_for_id, nothing_pending, pick_name, plan_run, resolve_service,
    select_limit, service_failed, LookupResult, NormaliseOptions, NormaliseRun, PendingPlayer,
    PlayerUpdate, SearchRow, Trouble, NORMALISE_SERVICE_URL,
};
use chess_db::reporter::Report;
use std::collections::HashMap;

fn options() -> NormaliseOptions {
    NormaliseOptions {
        dry_run: false,
        delay_ms: 300,
        batch_size: 2,
        batch_pause_ms: 5000,
        workers: 3,
        error_threshold: 2,
        error_pause_ms: 5_400_000,
        stop_on_errors: false,
    }
}

fn pending(id: u32, fide_id: u32) -> PendingPlayer {
    PendingPlayer { id, fide_id, name: format!("P{id}") }
}

#[test]
fn known_names_need_no_lookup() {
    let mut cache = HashMap::new();
    cache.insert(10, "Known, Name".to_string());
    let all = [pending(1, 10), pending(2, 20), pending(3, 30)];
    let p = plan_run(&all, 3, &cache, Some(1), &options()).unwrap();
    assert_eq!((p.hits.len(), p.misses.len(), p.deferred), (1, 1, 1));
    assert_eq!(p.hits[0].id, 1);
    assert_eq!(p.misses[0].id, 2);
    assert_eq!(p.summary, "Normalising: 1 from cache, 1 via FIDE lookup (workers=3, delay=300ms).");
    assert_eq!(
        p.warning.as_deref(),
        Some("⚠ FIDE lookups capped at 1; 1 player(s) left pending. Re-run to continue, or run `chess-db players normalise` from the command line for the full set.")
    );
    assert!(plan_run(&[], 0, &cache, None, &options()).is_none());
    assert_eq!(select_limit(true, Some(5)), None);
    assert_eq!(select_limit(false, Some(5)), Some(5));
}

#[test]
fn names_are_written_only_when_they_change() {
    let (changed, update) = apply_canonical(1, "carlsen", "Carlsen, Magnus", false);
    assert!(changed);
    match update {
        Some(PlayerUpdate::Rename { id, name, search_name }) => {
            assert_eq!((id, name.as_str(), search_name.as_str()), (1, "Carlsen, Magnus", "carlsen magnus"));
        }
        _ => panic!(),
    }
    let (changed, update) = apply_canonical(1, "A", "A", false);
    assert!(!changed && matches!(update, Some(PlayerUpdate::MarkNormalised { id: 1 })));
    assert!(apply_canonical(1, "A", "B", true).1.is_none(), "a dry run writes nothing");
}

#[test]
fn services_need_a_key() {
    assert_eq!(resolve_service(None, None, None, None, false), None);
    assert_eq!(
        resolve_service(None, Some("k"), Some("e"), Some("b"), false),
        Some((NORMALISE_SERVICE_URL.to_string(), "k".to_string()))
    );
    assert_eq!(resolve_service(Some("u"), None, Some("e"), Some("b"), false).unwrap().1, "e");
    assert_eq!(resolve_service(Some("u"), None, None, Some("b"), false).unwrap().1, "b");
    assert_eq!(resolve_service(Some("u"), Some(" "), Some("e"), None, false), None);
    assert_eq!(resolve_service(Some("u"), Some("k"), None, None, true), None);
}

fn message(r: Report) -> String {
    match r {
        Report::Log { message } | Report::Done { message } | Report::Error { message } => message,
        Report::Progress { message, .. } => message,
        _ => String::new(),
    }
}

#[test]
fn a_run_counts_and_pauses() {
    let o = options();
    let mut run = NormaliseRun::new(4);
    let s = run.take_cached(&pending(1, 10), "X", false);
    assert_eq!(s.progress.map(message).as_deref(), Some("Cached 1 / 4 players"));
    assert_eq!(run.cached_done().map(message).as_deref(), Some("Cached 1 / 4 players"));
    let s = run.take_result(
        &LookupResult::Found { id: 2, fide_id: 20, name: "a".into(), canonical: "b".into() },
        &o,
    );
    assert_eq!(s.line, "  [2] fide_id=20 \"a\" → \"b\"");
    assert!(s.batch_pause.is_none());
    assert_eq!(s.status.as_deref(), Some("2✓ 0? 0✗"));
    assert_eq!(s.progress.map(message).as_deref(), Some("Checked 2 / 4 players"));
    let s = run.take_result(&LookupResult::NotFound { id: 3, fide_id: 30, name: "c".into() }, &o);
    assert_eq!(s.line, "  [3] fide_id=30 \"c\" — not found on FIDE (marking as checked)");
    assert!(matches!(s.update, Some(PlayerUpdate::MarkNormalised { id: 3 })));
    let s = run.take_result(
        &LookupResult::Error { id: 4, fide_id: 40, name: "d".into(), msg: "x".into() },
        &o,
    );
    assert_eq!(s.batch_pause.as_deref(), Some("2✓ 1? 0✗  — pausing 5s…"));
    assert_eq!(s.line, "  [4] fide_id=40 \"d\" — error: x");
    assert!(s.trouble.is_none());
    match run.finish(2) {
        Report::Done { message } => {
            assert_eq!(message, "Normalised 4 player(s): 2 updated, 1 not found, 1 error(s).");
        }
        _ => panic!(),
    }
}

#[test]
fn errors_in_a_row_pause_or_stop() {
    let e = |id| LookupResult::Error { id, fide_id: 1, name: "n".into(), msg: "x".into() };
    let mut run = NormaliseRun::new(9);
    let o = options();
    assert!(run.take_result(&e(1), &o).trouble.is_none());
    match run.take_result(&e(2), &o).trouble {
        Some(Trouble::Pause { line }) => {
            assert_eq!(line, "  ⚠ 2 consecutive errors — pausing 1h30m before retrying…");
        }
        _ => panic!(),
    }
    assert!(run.take_result(&e(3), &o).trouble.is_none(), "counted anew after the pause");
    let stop = NormaliseOptions { stop_on_errors: true, ..options() };
    match run.take_result(&e(4), &stop).trouble {
        Some(Trouble::Stop { log }) => {
            assert_eq!(
                message(log),
                "⚠ Stopping after 2 consecutive errors (FIDE may be unreachable or rate-limiting)."
            );
        }
        _ => panic!(),
    }
    match run.finish(2) {
        Report::Error { message } => assert!(message.starts_with("Stopped after 2 consecutive errors — 0 updated, 0 not found, 4 error(s) so far.")),
        _ => panic!(),
    }
}

#[test]
fn fixed_reports() {
    assert_eq!(message(nothing_pending()), "All players with FIDE IDs are already normalised.");
    assert_eq!(
        message(service_failed("HTTP 500")),
        "⚠ Cache service unavailable (HTTP 500); using FIDE lookups instead."
    );
}

const PAGE: &str = "<table>\n<tr class=\"a\"><td data-label=\"FIDEID\">123</td>\n<td><a class=\"found_name\" href=\"x\">Doe, Jane</a></td></tr>\n<tr><td data-label=\"FIDEID\">456</td><td><a class=\"found_name\"> Roe, Richard </a></td></tr></table>";

#[test]
fn names_are_found_in_search_pages() {
    assert_eq!(extract_name_for_id(PAGE, 123).as_deref(), Some("Doe, Jane"));
    assert_eq!(extract_name_for_id(PAGE, 456).as_deref(), Some("Roe, Richard"));
    assert_eq!(extract_name_for_id(PAGE, 999), None);
    assert_eq!(extract_name_for_id("", 123), None);
}

#[test]
fn the_row_with_the_number_gives_the_name() {
    let row = |id: Option<&str>, name: Option<&str>| SearchRow {
        id: id.map(String::from),
        name: name.map(String::from),
    };
    let rows = [row(Some("1"), Some("A")), row(Some("2"), None), row(Some("x"), Some("X")), row(Some("3"), Some("C"))];
    assert_eq!(pick_name(&rows, 3).as_deref(), Some("C"));
    assert_eq!(pick_name(&rows, 2), None);
    assert_eq!(pick_name(&rows, 9), None);
}
