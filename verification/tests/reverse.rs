use chess_db::reverse::{
    backlog_message, done_message, fold_expr, ledger_csv, ledger_message, matching_message, read_entry, read_ledger,
    resolve, taken_entry, Fideless, NamedId, StoredResolution,
};

fn known(fide_id: u32, folded: &str, birth_year: Option<i32>) -> NamedId {
    NamedId { fide_id, folded: folded.to_string(), birth_year }
}

fn without(id: u32, folded: &str, first_year: Option<i32>) -> Fideless {
    Fideless { id, folded: folded.to_string(), first_year }
}

#[test]
fn resolve_single_exact_from_fide_list_folding_accents() {
    // The names as they are once folded: accents and punctuation are gone.
    let list = [known(100, "svrcek jozef", None), known(200, "smith john", None), known(201, "smith john", None)];
    let players = [without(1, "svrcek jozef", None), without(2, "smith john", None), without(3, "nobody x", None)];
    let r = resolve(&list, &players);
    assert_eq!(r.assigned.len(), 1);
    let f = |id: u32| r.assigned.iter().find(|a| a.0 == id).map(|a| a.1);
    assert_eq!(f(1), Some(100), "accented FIDE-less name folds to the ASCII FIDE entry");
    assert_eq!(f(2), None, "name shared by two FIDE IDs is never guessed");
    assert_eq!(f(3), None, "name not in FIDE stays unresolved");
}

#[test]
fn birth_year_gate_rejects_games_before_the_candidate_was_born() {
    let list = [known(100, "young junior", Some(2010)), known(200, "old master", Some(1975))];
    let players = [without(1, "young junior", Some(2005)), without(2, "old master", Some(2005))];
    let r = resolve(&list, &players);
    let f = |id: u32| r.assigned.iter().find(|a| a.0 == id).map(|a| a.1);
    assert_eq!(f(1), None, "game predates the candidate's birth → rejected, not guessed");
    assert_eq!(f(2), Some(200), "game after birth → assigned normally");
    assert_eq!(r.rejected, 1);
}

#[test]
fn resolve_uses_db_tagged_players_as_fresh_delta() {
    let list = [known(100, "carlsen magnus", None), known(999, "svrcek jozef", None)];
    let r = resolve(&list, &[without(2, "svrcek jozef", None)]);
    assert_eq!(
        r.assigned,
        vec![(2, 999)],
        "resolves via the DB-tagged side even though not in the FIDE list"
    );
}

#[test]
fn one_number_twice_is_still_one_number() {
    let list = [known(5, "a b", Some(1990)), known(5, "a b", None), known(5, "b a", Some(1999))];
    assert_eq!(resolve(&list, &[without(1, "a b", None)]).assigned, vec![(1, 5)]);
    // The birth counts whatever name it is listed under.
    let r = resolve(&list, &[without(1, "a b", Some(1995))]);
    assert_eq!((r.assigned.len(), r.rejected), (0, 1));
    assert!(resolve(&[known(5, "", None)], &[without(1, "", None)]).assigned.is_empty());
}

#[test]
fn resolutions_say_what_they_did() {
    assert_eq!(
        fold_expr("u.name"),
        "trim(regexp_replace(strip_accents(lower(u.name)), '[^a-z0-9]+', ' ', 'g'))"
    );
    assert_eq!(backlog_message(12), "12 player(s) without a FIDE ID.");
    assert_eq!(matching_message(0), None);
    assert_eq!(
        matching_message(7).as_deref(),
        Some("Matching FIDE-less names against 7 FIDE players + this DB's tagged players…")
    );
    assert_eq!(
        done_message(2, 5, None, 0),
        "Dry run — would assign a FIDE ID to 2 of 5 FIDE-less player(s)."
    );
    assert_eq!(
        done_message(2, 5, Some(3), 1),
        "Resolved FIDE IDs: 2 player row(s) assigned (5 → 3 still without one). Birth-year gate rejected 1 impossible match(es) (game predates FIDE birth year)."
    );
}

#[test]
fn ledgers_are_read() {
    let row = |v: &[&str]| v.iter().map(|s| s.to_string()).collect::<Vec<_>>();
    let e = read_entry(&row(&[" a b ", " 12 ", "", " 2024-01-01"])).unwrap();
    assert_eq!((e.name.as_str(), e.fide_id, e.source.as_str()), ("a b", Some(12), "import"));
    assert_eq!(e.checked.as_deref(), Some("2024-01-01"));
    let n = read_entry(&row(&["c", "", "fide"])).unwrap();
    assert_eq!((n.fide_id, n.source.as_str(), n.checked), (None, "fide", None));
    assert!(read_entry(&row(&["  "])).is_none());
    assert!(read_entry(&[]).is_none());
    // A negative never replaces an answer that is there.
    assert_eq!(taken_entry(Some(Some(5)), None), Some(5));
    assert_eq!(taken_entry(Some(Some(5)), Some(6)), Some(6));
    assert_eq!(taken_entry(None, None), None);
    assert_eq!(
        ledger_message(1, 2, 3),
        "Imported resolution ledger: 1 positive, 2 negative → 3 player row(s) assigned a FIDE ID."
    );
}

#[test]
fn ledgers_go_out_and_come_back() {
    let stored = |name: &str, fide_id, source: Option<&str>, checked: Option<&str>| StoredResolution {
        name: name.into(),
        fide_id,
        source: source.map(String::from),
        checked: checked.map(String::from),
    };
    let file = ledger_csv(&[
        stored("doe, jane", Some(12), Some("fide"), Some("2024-01-01")),
        stored("roe", None, None, None),
    ]);
    assert_eq!(
        String::from_utf8(file.clone()).unwrap(),
        "name_normalized,fide_id,source,checked_at\n\"doe, jane\",12,fide,2024-01-01\nroe,,,\n"
    );
    let l = read_ledger(&file);
    assert_eq!((l.entries.len(), l.broken), (2, None));
    assert_eq!((l.entries[0].name.as_str(), l.entries[0].fide_id), ("doe, jane", Some(12)));
    assert_eq!((l.entries[0].source.as_str(), l.entries[0].checked.as_deref()), ("fide", Some("2024-01-01")));
    assert_eq!((l.entries[1].name.as_str(), l.entries[1].fide_id), ("roe", None));
    assert_eq!((l.entries[1].source.as_str(), l.entries[1].checked.as_deref()), ("import", None));
    let l = read_ledger(b"n,f,s,c\n ,1,,\na,2,,\nb,3\nc,4,,\n");
    assert_eq!(l.entries.len(), 1, "up to the broken row");
    assert!(l.broken.is_some());
}
