use chess_db::dedup::resolve_survivors;
use chess_db::dedup_plan::{
    are_copies, decide_merge, incremental_filter, merge_done, plan_cleanup, plan_games,
    report_planned_merges, split_ids, Backfill, BackfillNext, GameCopy, MergeDecision, MergeRun,
    MergeStep,
};
use chess_db::fingerprint::{canonical_moves, move_fingerprints, normalise_san_token};
use chess_db::player_merge::{cluster_players, name_score, PlayerRow};
use chess_db::union_find::{uf_find, uf_union};
use std::collections::HashMap;

/// A stored game: its number, the number of White, its text, and whether it was looked at.
type Stored = (u32, u32, &'static str, bool);

fn copy(g: &Stored) -> GameCopy {
    let (full, short) = move_fingerprints(g.2);
    GameCopy {
        id: g.0,
        white_id: g.1,
        black_id: 2,
        date: Some("2024-06-18".to_string()),
        result: Some("1-0".to_string()),
        move_hash: Some(full),
        move_hash_short: short,
        deduped: g.3,
    }
}

/// The games that stay.
fn dedup_games(games: &[Stored], full: bool) -> Vec<u32> {
    let mut pairs: Vec<(u32, i64, u32, i64)> = Vec::new();
    for a in games {
        for b in games {
            if are_copies(&copy(a), &copy(b), full) {
                pairs.push((a.0, a.2.chars().count() as i64, b.0, b.2.chars().count() as i64));
            }
        }
    }
    let losers = resolve_survivors(&pairs);
    games.iter().map(|g| g.0).filter(|id| !losers.iter().any(|l| l.0 == *id)).collect()
}

#[test]
fn removes_prefix_duplicate_and_marks_survivors_vetted() {
    let games = [
        (1, 1, "[White \"A\"]\n[Black \"B\"]\n\ne4 e5 Nf3", false),
        (2, 1, "[White \"A\"]\n[Black \"B\"]\n\ne4 e5 Nf3 Nc6", false),
    ];
    assert_eq!(dedup_games(&games, false), vec![2], "the shorter prefix game is removed");
    assert!(plan_games(1, false).mark, "survivor is marked deduped after a complete pass");
}

#[test]
fn second_pass_only_rechecks_new_games() {
    let first = [(1, 1, "[W \"a\"]\n\ne4 e5 Nf3 Nc6", false), (2, 1, "[W \"a\"]\n\ne4 e5 Nf3 d6", false)];
    assert_eq!(dedup_games(&first, false), vec![1, 2], "diverging games are both kept");
    let second = [
        (1, 1, "[W \"a\"]\n\ne4 e5 Nf3 Nc6", true),
        (2, 1, "[W \"a\"]\n\ne4 e5 Nf3 d6", true),
        (3, 1, "[W \"a\"]\n\ne4 e5 Nf3 Nc6 Bb5", false),
    ];
    assert_eq!(dedup_games(&second, false), vec![2, 3], "new dup of an old vetted game is still caught");
}

#[test]
fn dry_run_does_not_mark_or_delete() {
    let p = plan_games(1, true);
    assert!(p.removing.is_none(), "dry run deletes nothing");
    assert!(!p.mark, "dry run leaves games unvetted");
    assert_eq!(p.done, "Dry run: 1 duplicate game(s) would be deleted.");
}

#[test]
fn matches_across_clean_and_annotated_sources() {
    let games = [
        (
            1,
            1,
            "[White \"Svrcek,Jozef\"]\n[Black \"Mazak,Ryan\"]\n[Date \"2024-06-18\"]\n[Result \"1-0\"]\n\n\
             1. e4 e5 2. Nf3 Nf6 3. Nxe5 d6 4. Nf3 Nxe4 5. c4 c6 6. d3 Nf6 1-0",
            false,
        ),
        (
            2,
            1,
            "[White \"Svrcek, Jozef\"]\n[Black \"Mazak, Ryan\"]\n[Date \"2024-06-18\"]\n[Result \"1-0\"]\n\
             [GameURL \"https://lichess.org/broadcast/a/b/jF5[x]DQ\"]\n\n\
             1. e4 {[%eval 0.15] [%clk 1:00:53]} 1... e5 {[%eval 0.15]} 2. Nf3 {[%clk 1:01:14]} \
             2... Nf6 {[%eval 0.27]} 3. Nxe5 {[%eval 0.19]} 3... d6 {[%eval 0.32]} \
             4. Nf3 {[%eval 0.31]} 4... Nxe4 {[%eval 0.26]} 5. c4 $6 {Inaccuracy. d4 was best.} \
             5... c6 {[%eval 0.28]} 6. d3 {[%eval 0.13]} 6... Nf6 {[%eval 0.12]} 1-0",
            false,
        ),
    ];
    assert_eq!(dedup_games(&games, false).len(), 1, "the annotated duplicate is removed");
}

#[test]
fn canonical_moves_strips_annotations_and_matches() {
    let clean = canonical_moves("[W \"a\"]\n\n1. e4 e5 2. Nf3 Nc6 1-0");
    let annotated = canonical_moves(
        "[W \"a\"]\n[URL \"x]y\"]\n\n1. e4 {[%eval 0.1]} 1... e5 $1 (1... c5 2. Nf3) 2. Nf3 {c} 2... Nc6 1-0",
    );
    assert_eq!(clean, vec!["e4", "e5", "Nf3", "Nc6"]);
    assert_eq!(clean, annotated, "annotations, NAGs and a variation are stripped");
}

#[test]
fn fingerprints_encode_exact_and_off_by_one() {
    let four = move_fingerprints("[W \"a\"]\n\n1. e4 e5 2. Nf3 Nc6 1-0");
    let three = move_fingerprints("[W \"a\"]\n\n1. e4 e5 2. Nf3 1-0");
    let four_again = move_fingerprints("[W \"a\"]\n\n1. e4 {[%eval 0.1]} 1... e5 2. Nf3 Nc6 1-0");
    assert_eq!(four.0, four_again.0, "annotations don't change the full hash");
    assert_eq!(four.1, Some(three.0), "short hash drops exactly the last half-move");
}

#[test]
fn fingerprints_are_stable_numbers() {
    // FNV-1a of no bytes, of "e4", and of "e4 e5".
    let fnv = |s: &str| -> i64 {
        let mut h: u64 = 0xcbf2_9ce4_8422_2325;
        for b in s.bytes() {
            h = (h ^ b as u64).wrapping_mul(0x0000_0100_0000_01b3);
        }
        h as i64
    };
    assert_eq!(move_fingerprints("").0, fnv(""));
    assert_eq!(move_fingerprints("").1, None);
    assert_eq!(move_fingerprints("1. e4 *"), (fnv("e4"), None));
    assert_eq!(move_fingerprints("1. e4 e5 *"), (fnv("e4 e5"), Some(fnv("e4"))));
    assert_eq!(fnv("a"), 0xaf63_dc4c_8601_ec8c_u64 as i64);
}

#[test]
fn tokens_become_moves() {
    assert_eq!(normalise_san_token("12.e4!?").as_deref(), Some("e4"));
    assert_eq!(normalise_san_token("12...Nf6+").as_deref(), Some("Nf6+"));
    assert_eq!(normalise_san_token("0-0").as_deref(), Some("O-O"));
    assert_eq!(normalise_san_token("0-0-0!").as_deref(), Some("O-O-O"));
    for t in ["1-0", "0-1", "1/2-1/2", "*", "$12", "7.", "7...", "!?"] {
        assert_eq!(normalise_san_token(t), None, "{t}");
    }
}

#[test]
fn annotated_shorter_game_wins() {
    let games = [
        (1, 1, "[White \"A\"]\n[Black \"B\"]\n\n1. e4 e5 2. Nf3 Nc6 3. Bb5 1-0", false),
        (
            2,
            1,
            "[White \"A\"]\n[Black \"B\"]\n[GameURL \"x\"]\n\n\
                1. e4 {[%eval 0.15] [%clk 1:00:53]} 1... e5 {[%eval 0.15] [%clk 1:00:52]} \
                2. Nf3 {[%eval 0.11] [%clk 1:01:14]} 2... Nc6 {[%eval 0.27] [%clk 1:01:09]} 1-0",
            false,
        ),
    ];
    assert_eq!(dedup_games(&games, true), vec![2], "the annotated 4-move game wins over the bare 5-move one");
}

#[test]
fn resolve_survivors_picks_longest_per_cluster() {
    let mut losers = resolve_survivors(&[(1, 10, 2, 30), (2, 30, 3, 20), (1, 10, 3, 20)]);
    losers.sort();
    assert_eq!(losers, vec![(1, 2), (3, 2)], "both shorter copies map to the longest");
}

#[test]
fn resolve_survivors_handles_chains() {
    let mut losers = resolve_survivors(&[(1, 10, 2, 20), (2, 20, 3, 30)]);
    losers.sort();
    assert_eq!(losers, vec![(1, 3), (2, 3)], "chain collapses to the longest");
}

#[test]
fn resolve_survivors_breaks_length_ties_by_lowest_id() {
    let losers = resolve_survivors(&[(5, 10, 2, 10)]);
    assert_eq!(losers, vec![(5, 2)], "equal length → lower id (2) survives");
}

#[test]
fn no_pairs_no_losers() {
    assert!(resolve_survivors(&[]).is_empty());
    let mut two = resolve_survivors(&[(1, 5, 2, 6), (3, 9, 4, 8)]);
    two.sort();
    assert_eq!(two, vec![(1, 2), (4, 3)]);
}

#[test]
fn three_way_duplicate_collapses_to_longest_with_merged_collections() {
    let games = [
        (1, 1, "[W \"a\"]\n\n1. e4 e5 2. Nf3 1-0", false),
        (2, 1, "[W \"a\"]\n\n1. e4 e5 2. Nf3 {longest annotated copy here} 1-0", false),
        (3, 1, "[W \"a\"]\n\n1. e4 e5 2. Nf3 {mid} 1-0", false),
    ];
    assert_eq!(dedup_games(&games, true), vec![2]);
}

#[test]
fn copies_need_a_date_and_the_same_result() {
    let a = copy(&(1, 1, "1. e4 e5 *", false));
    let b = copy(&(2, 1, "1. e4 e5 *", false));
    assert!(are_copies(&a, &b, false));
    assert!(!are_copies(&b, &a, false), "the lower number comes first");
    let undated = GameCopy { date: None, ..copy(&(1, 1, "1. e4 e5 *", false)) };
    let undated2 = GameCopy { date: None, ..copy(&(2, 1, "1. e4 e5 *", false)) };
    assert!(!are_copies(&undated, &undated2, true));
    let drawn = GameCopy { result: None, ..copy(&(2, 1, "1. e4 e5 *", false)) };
    assert!(!are_copies(&a, &drawn, true));
    let seen = copy(&(1, 1, "1. e4 e5 *", true));
    let seen2 = copy(&(2, 1, "1. e4 e5 *", true));
    assert!(!are_copies(&seen, &seen2, false) && are_copies(&seen, &seen2, true));
}

fn player(id: u32, name: &str, folded: &str, fide_id: Option<u32>, normalised: bool) -> PlayerRow {
    PlayerRow {
        id,
        name: name.to_string(),
        name_normalized: folded.to_string(),
        fide_id,
        name_normalised: normalised,
        last_date: None,
    }
}

/// The players that stay, and what becomes of the numbers in games.
fn dedup_players(rows: &[PlayerRow], games: &[(u32, u32)]) -> (Vec<u32>, Vec<(u32, u32)>) {
    let (mapping, _) = cluster_players(rows);
    let to = |id: u32| mapping.iter().find(|m| m.0 == id).map(|m| m.1).unwrap_or(id);
    let stay = rows.iter().map(|r| r.id).filter(|id| to(*id) == *id).collect();
    (stay, games.iter().map(|g| (to(g.0), to(g.1))).collect())
}

#[test]
fn merges_same_fide_id_rows_and_reassigns_games() {
    let rows = [
        player(1, "Carlsen, Magnus", "carlsen magnus", Some(100), true),
        player(2, "carlsen, m", "carlsen m", Some(100), false),
        player(3, "Doe, John", "doe john", Some(200), false),
        player(4, "Doe, J", "doe j", Some(200), false),
        player(5, "Solo, Han", "solo han", Some(300), false),
    ];
    let (remaining, games) = dedup_players(&rows, &[(2, 3), (4, 1)]);
    assert_eq!(remaining, vec![1, 3, 5]);
    assert_eq!(games[0], (1, 3), "white 2→1 (survivor), black 3 already survivor");
    assert_eq!(games[1], (3, 1), "white 4→3 (survivor), black 1 already survivor");
}

#[test]
fn no_duplicates_is_a_noop() {
    let rows = [player(1, "A, B", "a b", Some(100), false), player(2, "C, D", "c d", Some(200), false)];
    assert_eq!(dedup_players(&rows, &[]).0.len(), 2);
    assert_eq!(cluster_players(&rows), (vec![], 0));
}

#[test]
fn merges_same_normalised_name_without_fide_ids() {
    let rows = [
        player(1, "Sedlak,Marek", "sedlak marek", None, false),
        player(2, "Sedlak, Marek", "sedlak marek", None, false),
    ];
    let (ids, games) = dedup_players(&rows, &[(2, 1)]);
    assert_eq!(ids, vec![1]);
    assert_eq!(games[0], (1, 1), "both sides reassigned to the survivor");
}

#[test]
fn survivor_keeps_the_fide_id_when_merging_by_name() {
    let rows = [
        player(1, "Sedlak, Marek", "sedlak marek", None, false),
        player(2, "Sedlak, Marek", "sedlak marek", Some(555), true),
    ];
    let (ids, _) = dedup_players(&rows, &[(1, 2)]);
    assert_eq!(ids, vec![2]);
    assert_eq!(rows[1].fide_id, Some(555));
}

#[test]
fn refuses_same_name_with_two_different_fide_ids() {
    let rows = [
        player(1, "Smith, John", "smith john", Some(111), true),
        player(2, "Smith, John", "smith john", Some(222), true),
        player(3, "Smith, John", "smith john", None, false),
    ];
    assert_eq!(dedup_players(&rows, &[]).0, vec![1, 2, 3], "including the FIDE-less row: which one is it?");
}

#[test]
fn chains_fide_id_and_name_links_into_one_cluster() {
    let rows = [
        player(1, "Novak,P", "novak p", Some(77), false),
        player(2, "Novak, Peter", "novak peter", Some(77), true),
        player(3, "Novak, Peter", "novak peter", None, false),
    ];
    let (ids, all) = dedup_players(&rows, &[(1, 3), (3, 2)]);
    assert_eq!(ids, vec![2], "the normalised, FIDE-carrying row survives");
    assert_eq!(all, vec![(2, 2), (2, 2)], "every reference chased to the one survivor");
}

#[test]
fn empty_normalised_name_is_not_a_merge_key() {
    let rows = [player(1, "?", "", None, false), player(2, "", "", None, false)];
    assert_eq!(dedup_players(&rows, &[]).0, vec![1, 2]);
}

#[test]
fn merge_reopens_the_survivors_games_for_the_next_incremental_dedup() {
    let rows = [
        player(1, "Abadjian, Vahram", "abadjian vahram", None, false),
        player(2, "Abadjian, Vahram", "abadjian vahram", Some(12345), true),
        player(3, "Krejcar, Walter", "krejcar walter", None, false),
    ];
    let (_, games) = dedup_players(&rows, &[(1, 3), (2, 3)]);
    assert_eq!(games[0], games[1]);
    // The run has the games of the rows that stay looked at again.
    let mut run = MergeRun::new(2);
    let mut steps = Vec::new();
    loop {
        let s = run.next(false);
        if s == MergeStep::Finished {
            break;
        }
        steps.push(s);
    }
    assert_eq!(steps.last(), Some(&MergeStep::ReopenGames));
    let pgn = "[W \"a\"]\n\n1. e4 e5 2. Nf3 Nc6 0-1";
    let left = dedup_games(&[(1, games[0].0, pgn, false), (2, games[1].0, pgn, false)], false);
    assert_eq!(left.len(), 1, "the copy the merge exposed is removed by the very next pass");
}

#[test]
fn dry_run_changes_nothing() {
    let rows = [
        player(1, "Abadjian, Vahram", "abadjian vahram", None, false),
        player(2, "Abadjian, Vahram", "abadjian vahram", Some(12345), true),
        player(3, "Krejcar, Walter", "krejcar walter", None, false),
    ];
    let (mapping, groups) = cluster_players(&rows);
    assert!(matches!(decide_merge(mapping.len(), true, false), MergeDecision::Preview));
    let r = report_planned_merges(&rows, &mapping, groups);
    assert_eq!(r.lines, vec!["  keep “Abadjian, Vahram” [2] (FIDE 12345) ← “Abadjian, Vahram” [1]"]);
    assert_eq!(r.done, "Dry run: 1 duplicate player record(s) across 1 player(s) would be merged.");
    assert_eq!(dedup_players(&rows, &[(1, 3)]).0, vec![2, 3]);
}

#[test]
fn names_are_scored() {
    assert_eq!(name_score("x", true, None), 1_000_000);
    assert_eq!(name_score("Doe, John", false, None), 1500);
    assert_eq!(name_score("Doe, J", false, None), 1000);
    assert_eq!(name_score("Kuthan,\u{c1}", false, None), 1000);
    assert_eq!(name_score("Kuthan,\u{c1}a", false, None), 1500);
    assert_eq!(name_score("Dr. Doe, John", false, None), 1200);
    assert_eq!(name_score("John Doe", false, None), 0);
    assert_eq!(name_score("Doe, John", false, Some("2020-01-31")), 1500 + 2020);
    assert_eq!(name_score("Doe, John", false, Some("????-??-??")), 1500);
}

#[test]
fn planned_merges_are_listed_up_to_fifty() {
    let mut rows = Vec::new();
    let mut mapping = Vec::new();
    for i in 0..60u32 {
        rows.push(player(2 * i + 1, "A, B", &format!("n{i}"), None, false));
        rows.push(player(2 * i + 2, "A, B", &format!("n{i}"), None, false));
        mapping.push((2 * i + 2, 2 * i + 1));
    }
    let r = report_planned_merges(&rows, &mapping, 60);
    assert_eq!(r.lines.len(), 52);
    assert_eq!(r.lines[0], "  keep “A, B” [1] (by name) ← “A, B” [2]");
    assert_eq!(r.lines[49], "  keep “A, B” [99] (by name) ← “A, B” [100]");
    assert_eq!(r.lines[50], "  …and 10 more");
    assert_eq!(
        r.lines[51],
        "60 of these are linked by name alone (no FIDE ID on either side) — check those for genuine namesakes."
    );
    // A row that is not among the candidates is listed by its number.
    let r = report_planned_merges(&[], &[(7, 9), (8, 9)], 1);
    assert_eq!(r.lines[0], "  keep “?” [9] (by name) ← [7], [8]");
}

#[test]
fn merges_go_in_ranges() {
    assert_eq!(split_ids(0, 1_000_000), vec![(0, 1_000_000)]);
    assert_eq!(split_ids(999_999, 1_000_000), vec![(0, 1_000_000)]);
    assert_eq!(split_ids(1_000_000, 1_000_000), vec![(0, 1_000_000), (1_000_000, 2_000_000)]);
    let mut run = MergeRun::new(1_500_000);
    assert_eq!(run.total_steps(), 5);
    assert_eq!(run.next(false), MergeStep::White { lo: 0, hi: 1_000_000 });
    assert_eq!(run.next(true), MergeStep::Cancelled);
    assert_eq!(run.next(false), MergeStep::White { lo: 1_000_000, hi: 2_000_000 });
    assert_eq!(run.next(false), MergeStep::Black { lo: 0, hi: 1_000_000 });
    assert_eq!(run.next(false), MergeStep::Black { lo: 1_000_000, hi: 2_000_000 });
    assert_eq!(run.steps_done(), 4);
    assert_eq!(run.next(true), MergeStep::RemovePlayers);
    assert_eq!(run.steps_done(), 5);
    assert_eq!(run.next(false), MergeStep::ReopenGames);
    assert_eq!(run.next(false), MergeStep::Finished);
    assert_eq!(run.steps_done(), 5);
}

#[test]
fn merges_say_what_they_do() {
    match decide_merge(0, false, false) {
        MergeDecision::Tell(m) => assert_eq!(m, "No duplicate players found."),
        _ => panic!(),
    }
    match decide_merge(3, false, true) {
        MergeDecision::Tell(m) => assert_eq!(m, "Cancelled before merging."),
        _ => panic!(),
    }
    match decide_merge(3, false, false) {
        MergeDecision::Merge(m) => assert_eq!(m, "Preparing to merge 3 player row(s)…"),
        _ => panic!(),
    }
    assert_eq!(merge_done(true, 3, 2), "Removed 3 duplicate player record(s) across 2 player(s).");
    assert_eq!(merge_done(false, 3, 2), "Cancelled — player merge partially applied; re-run to finish.");
}

#[test]
fn game_runs_say_what_they_do() {
    assert_eq!(incremental_filter(true), "");
    assert_eq!(incremental_filter(false), "AND (g1.deduped IS NOT TRUE OR g2.deduped IS NOT TRUE)");
    let p = plan_games(0, false);
    assert_eq!((p.done.as_str(), p.mark, p.removing), ("No duplicate games found.", true, None));
    let p = plan_games(2, false);
    assert_eq!(p.done, "Done: 2 duplicate game(s) deleted.");
    assert_eq!(p.removing.as_deref(), Some("Removing 2 duplicate game(s)…"));
}

#[test]
fn fingerprints_are_filled_in_ranges() {
    assert!(Backfill::new(0, 10).is_none());
    let mut b = Backfill::new(3, 200_000).unwrap();
    assert_eq!(b.start_message(), "Computing move fingerprints for 3 game(s) (one-time)…");
    assert_eq!(b.next(false), BackfillNext::Range { lo: 0, hi: 200_000 });
    assert_eq!(b.hashed(0), None);
    assert_eq!(b.hashed(2).as_deref(), Some("Fingerprinting games… 2/3"));
    assert_eq!(b.next(true), BackfillNext::Over);
    assert_eq!(b.next(false), BackfillNext::Range { lo: 200_000, hi: 400_000 });
    assert_eq!(b.next(false), BackfillNext::Over);
}

#[test]
fn cleanups_say_what_they_do() {
    let p = plan_cleanup(0, false);
    assert_eq!((p.found, p.delete, p.done.as_str()), (None, false, "No non-standard games found."));
    let p = plan_cleanup(4, true);
    assert_eq!(p.found.as_deref(), Some("4 non-standard game(s) found (dry run — nothing will be deleted)."));
    assert_eq!((p.delete, p.done.as_str()), (false, "Would delete 4 game(s)."));
    let p = plan_cleanup(4, false);
    assert_eq!(p.found.as_deref(), Some("4 non-standard game(s) found."));
    assert_eq!(p.positions, "Deleting positions for 4 game(s)...");
    assert_eq!((p.delete, p.done.as_str()), (true, "Done: 4 non-standard game(s) deleted."));
}

#[test]
fn paths_to_the_root_are_shortened() {
    // 9 is a root that the map does not hold.
    let mut parent = HashMap::from([(1, 2), (2, 3), (3, 9), (4, 3), (5, 5)]);
    assert_eq!(uf_find(&mut parent, 1), 9);
    assert_eq!(parent, HashMap::from([(1, 9), (2, 9), (3, 9), (4, 3), (5, 5)]));
    assert_eq!(uf_find(&mut parent, 5), 5);
    assert_eq!(uf_find(&mut parent, 7), 7);
    assert_eq!(parent.len(), 5);
    uf_union(&mut parent, 4, 5);
    assert_eq!(parent, HashMap::from([(1, 9), (2, 9), (3, 9), (4, 9), (5, 5), (9, 5)]));
    uf_union(&mut parent, 1, 5);
    assert_eq!((uf_find(&mut parent, 1), uf_find(&mut parent, 2)), (5, 5));
}

#[test]
fn the_order_of_the_rows_does_not_matter() {
    let row = |id, name: &str, fide_id| PlayerRow {
        id,
        name: name.to_string(),
        name_normalized: name.to_lowercase(),
        fide_id,
        name_normalised: false,
        last_date: None,
    };
    let rows = [
        row(1, "Doe, Jane", None),
        row(2, "Doe, Jane", Some(5)),
        row(3, "Doe, J", Some(5)),
        row(4, "Roe", Some(6)),
        row(5, "Roe", Some(7)),
    ];
    let plan = cluster_players(&rows);
    assert_eq!(plan, (vec![(1, 2), (3, 2)], 1));
    for k in 0..rows.len() {
        let mut turned = rows.to_vec();
        turned.rotate_left(k);
        assert_eq!(cluster_players(&turned), plan);
        turned.reverse();
        assert_eq!(cluster_players(&turned), plan);
    }
}

#[test]
fn a_merge_leaves_no_game_behind() {
    let rows = [
        player(1, "Abadjian, Vahram", "abadjian vahram", None, false),
        player(2, "Abadjian, Vahram", "abadjian vahram", Some(12345), true),
        player(3, "Krejcar, Walter", "krejcar walter", None, false),
    ];
    let (mapping, _) = cluster_players(&rows);
    assert_eq!(mapping, vec![(1, 2)]);
    // Number, White, Black, whether it was looked at.
    let mut games = [(7i64, 1u32, 3u32, true), (1_000_000, 3, 1, true), (1_000_001, 3, 3, true)];
    let mut players = vec![1u32, 2, 3];
    let after = |id: u32| mapping.iter().find(|m| m.0 == id).map_or(id, |m| m.1);
    let mut run = MergeRun::new(1_000_001);
    loop {
        match run.next(false) {
            MergeStep::White { lo, hi } => games.iter_mut().filter(|g| lo <= g.0 && g.0 < hi).for_each(|g| g.1 = after(g.1)),
            MergeStep::Black { lo, hi } => games.iter_mut().filter(|g| lo <= g.0 && g.0 < hi).for_each(|g| g.2 = after(g.2)),
            MergeStep::RemovePlayers => {
                players.retain(|p| !mapping.iter().any(|m| m.0 == *p));
                assert!(games.iter().all(|g| players.contains(&g.1) && players.contains(&g.2)));
            }
            MergeStep::ReopenGames => games
                .iter_mut()
                .filter(|g| mapping.iter().any(|m| m.1 == g.1 || m.1 == g.2))
                .for_each(|g| g.3 = false),
            MergeStep::Finished => break,
            MergeStep::Cancelled => unreachable!(),
        }
    }
    assert_eq!(players, vec![2, 3]);
    assert_eq!(games, [(7, 2, 3, false), (1_000_000, 3, 2, false), (1_000_001, 3, 3, true)]);
}

#[test]
fn no_copies_are_left() {
    let games: [Stored; 5] = [
        (1, 1, "1. e4 e5 *", false),
        (2, 1, "1. e4 e5 2. Nf3 *", false),
        (3, 1, "1. e4 e5 2. Nf3 Nc6 *", true),
        (4, 1, "1. d4 *", true),
        (5, 9, "1. e4 e5 *", false),
    ];
    for full in [true, false] {
        let left = dedup_games(&games, full);
        assert_eq!(left, vec![3, 4, 5]);
        for a in games.iter().filter(|g| left.contains(&g.0)) {
            for b in games.iter().filter(|g| left.contains(&g.0)) {
                assert!(!are_copies(&copy(a), &copy(b), true));
            }
        }
    }
}
