use chess_db::prep::{
    compute_opponent_likelihood, individual_entry, individual_prep, join_datetime, names_overlap, pairing_of,
    played_rounds, target_round, team_color, team_entry, team_name_matches, team_prep,
    BoardPairing, Matchup, Pairing, TeamRoundInfo, TeamScheduleRoundDto, TeamStanding,
};
use chess_db::shortlist::{add_entry, find_entry, remove_entry, ShortlistEntry};

fn board(board: u32, home: (u32, &str), away: (u32, &str)) -> BoardPairing {
    BoardPairing {
        board,
        home_snr: home.0,
        home_name: home.1.into(),
        home_rating: Some(2000 + home.0 as i32),
        away_snr: away.0,
        away_name: away.1.into(),
        away_rating: None,
    }
}

fn round(home: &str, away: &str, boards: Vec<BoardPairing>) -> TeamRoundInfo {
    TeamRoundInfo {
        date: Some("2024/05/06".into()),
        time: Some("10:00".into()),
        matchups: vec![Matchup { home_team_name: home.into(), away_team_name: away.into(), boards }],
    }
}

#[test]
fn neighbouring_boards_count_half() {
    let history = [
        round("Rivals", "X", vec![
            board(1, (1, "A"), (91, "x")),
            board(2, (2, "B"), (92, "x")),
            board(3, (3, "C"), (93, "x")),
        ]),
        round("Y", "Rivals", vec![board(2, (81, "y"), (3, "C")), board(4, (82, "y"), (4, "D"))]),
    ];
    let (list, total) = compute_opponent_likelihood(&history, "Rivals", 2);
    assert_eq!(total, 6);
    let weights: Vec<(u32, u128)> = list.iter().map(|o| (o.snr, o.weight)).collect();
    assert_eq!(weights[0], (3, 3));
    assert_eq!(weights[1], (2, 2));
    assert_eq!(weights[2], (1, 1));
    assert_eq!(list[0].rating, Some(2003), "the first appearance gives the rating");
    assert!(compute_opponent_likelihood(&history, "Qqq", 2).0.is_empty());
}

#[test]
fn the_last_number_is_next_to_the_first() {
    let history = [round("Rivals", "X", vec![board(u32::MAX, (1, "A"), (91, "x"))])];
    let (found, total) = compute_opponent_likelihood(&history, "Rivals", 0);
    assert_eq!((found.len(), total), (1, 1));
    assert!(compute_opponent_likelihood(&history, "Rivals", 1).0.is_empty());
}

#[test]
fn colours_by_board() {
    assert_eq!(team_color(true, 1, true), "Black");
    assert_eq!(team_color(true, 2, true), "White");
    assert_eq!(team_color(false, 1, true), "White");
    assert_eq!(team_color(true, 1, false), "White");
    assert_eq!(team_color(false, 2, false), "White");
}

#[test]
fn dates_and_times() {
    assert_eq!(join_datetime(Some("d".into()), Some("t".into())).as_deref(), Some("d t"));
    assert_eq!(join_datetime(Some("d".into()), None).as_deref(), Some("d"));
    assert_eq!(join_datetime(None, Some("t".into())), None);
}

#[test]
fn team_names_match_loosely() {
    assert!(team_name_matches("Slovan Bratislava A", "slovan bratislava a"));
    assert!(!team_name_matches("Slovan", "Dunajov"));
    assert!(names_overlap("slovan", "slovan a") && names_overlap("slovan a", "slovan"));
    assert!(!names_overlap("Slovan", "slovan a"));
}

fn pairing(round: u32, result: Option<&str>) -> Pairing {
    Pairing {
        round,
        opponent_name: format!("O{round}"),
        opponent_rating: Some(2000),
        opponent_snr: round + 10,
        my_color: "white".into(),
        result: result.map(String::from),
    }
}

#[test]
fn the_next_round_is_the_first_without_a_result() {
    let p = [pairing(1, Some("1")), pairing(2, None), pairing(3, None)];
    assert_eq!(target_round(None, &p), 2);
    assert_eq!(target_round(Some(7), &p), 7);
    assert_eq!(target_round(None, &[pairing(4, Some("1")), pairing(9, Some("0"))]), 9);
    assert_eq!(target_round(None, &[]), 1);
    assert_eq!(pairing_of(&p, 3), Some(2));
    let r = individual_prep(3, &p, Some("d".into()), None, Some(5));
    assert_eq!((r.round, r.opponent_snr, r.opponent_fide_id), (3, Some(13), Some(5)));
    assert_eq!((r.opponent_name.as_deref(), r.datetime.as_deref()), (Some("O3"), Some("d")));
    let none = individual_prep(8, &p, None, None, None);
    assert_eq!((none.opponent_name, none.my_color), (None, None));
}

fn individual(id: &str) -> ShortlistEntry {
    ShortlistEntry::Individual {
        id: id.into(),
        name: "N".into(),
        url: "u".into(),
        my_snr: 4,
        my_name: "me".into(),
        my_fide_id: None,
    }
}

fn team(id: &str) -> ShortlistEntry {
    ShortlistEntry::Team {
        id: id.into(),
        name: "N".into(),
        url: "u".into(),
        my_team_name: "Slovan".into(),
        home_black_board1: true,
    }
}

#[test]
fn shortlists_hold_each_tournament_once() {
    let mut l = Vec::new();
    add_entry(&mut l, individual("1")).unwrap();
    add_entry(&mut l, team("2")).unwrap();
    assert_eq!(add_entry(&mut l, team("1")).unwrap_err(), "Tournament 1 is already in your shortlist");
    assert_eq!(find_entry(&l, "2"), Some(1));
    assert_eq!(individual_entry(&l, "1").unwrap(), 4);
    assert_eq!(individual_entry(&l, "2").unwrap_err(), "Not an individual tournament");
    assert_eq!(team_entry(&l, "2").unwrap(), ("Slovan".to_string(), true));
    assert_eq!(team_entry(&l, "1").unwrap_err(), "Not a team tournament");
    assert_eq!(team_entry(&l, "3").unwrap_err(), "Tournament 3 not found in shortlist");
    remove_entry(&mut l, "1").unwrap();
    assert_eq!((l.len(), l[0].id()), (1, "2"));
    assert_eq!(remove_entry(&mut l, "1").unwrap_err(), "Tournament 1 not found in shortlist");
}

#[test]
fn only_earlier_rounds_are_history() {
    let r = |round, is_played| TeamScheduleRoundDto { round, date: None, time: None, is_played };
    assert_eq!(played_rounds(&[r(1, true), r(2, false), r(3, true), r(4, true)], 4), vec![1, 3]);
}

#[test]
fn a_team_round_is_prepared() {
    let info = round("Slovan", "Rivals", vec![]);
    let standings = [
        TeamStanding { name: "Rivals".into(), rank: 0, rtg_avg: Some(2100) },
        TeamStanding { name: "Slovan".into(), rank: 3, rtg_avg: None },
    ];
    let history = [round("Rivals", "X", vec![board(1, (1, "A"), (91, "x"))])];
    let p = team_prep(5, &info, &standings, "Slovan", true, 1, &history).unwrap();
    assert_eq!((p.my_team_rank, p.opp_team_rank), (Some(3), None), "rank 0 is no rank");
    assert_eq!((p.my_elo_avg, p.opp_elo_avg), (None, Some(2100)));
    assert_eq!((p.opponent_team.as_str(), p.color.as_deref()), ("Rivals", Some("Black")));
    assert_eq!(p.datetime.as_deref(), Some("2024/05/06 10:00"));
    assert_eq!((p.opponents.len(), p.total_weight), (1, 2));
    assert_eq!(
        team_prep(5, &info, &standings, "Nobody", true, 1, &history).err().unwrap(),
        "Could not find team 'Nobody' in round 5 pairings"
    );
}
