use game_leaderboards::contract::GameLeaderboardContract;
use game_leaderboards::errors::Error;
use game_leaderboards::leaderboard::{get_global_leaderboard, get_leaderboard, update_global_leaderboard};
use game_leaderboards::scores::{get_player_history, submit_score, validate_score};
use game_leaderboards::storage::Storage;
use game_leaderboards::tournaments::{
    create_tournament, get_active_tournaments, get_tournament_info, get_tournament_results,
    get_tournament_status, get_tournaments, is_tournament_active,
};
use game_leaderboards::types::{LeaderboardEntry, PlayerScore};

fn s(text: &str) -> String {
    String::from(text)
}

fn entry(player: &str, score: u64, rank: u32) -> LeaderboardEntry {
    LeaderboardEntry { player_id: s(player), score, rank }
}

fn t1() -> GameLeaderboardContract {
    let mut engine = GameLeaderboardContract::new();
    assert_eq!(engine.create_tournament(s("T1"), s("chess"), 100, 200, 2), Ok(()));
    engine
}

#[test]
fn scenario_two_seats() {
    let mut engine = t1();
    assert_eq!(engine.submit_score(s("T1"), s("A"), 50, 150), Ok(1));
    assert_eq!(engine.submit_score(s("T1"), s("B"), 80, 150), Ok(1));
    assert_eq!(
        engine.get_leaderboard(s("T1"), 0, 10),
        Ok(vec![entry("B", 80, 1), entry("A", 50, 2)])
    );
    assert_eq!(engine.submit_score(s("T1"), s("A"), 90, 150), Ok(1));
    assert_eq!(
        engine.get_leaderboard(s("T1"), 0, 10),
        Ok(vec![entry("A", 90, 1), entry("B", 80, 2)])
    );
    assert_eq!(engine.submit_score(s("T1"), s("C"), 10, 150), Err(Error::TournamentFull));
    assert_eq!(
        engine.get_leaderboard(s("T1"), 0, 10),
        Ok(vec![entry("A", 90, 1), entry("B", 80, 2)])
    );
}

#[test]
fn scenario_results_only_after_the_end() {
    let mut engine = t1();
    assert_eq!(engine.submit_score(s("T1"), s("A"), 50, 150), Ok(1));
    assert_eq!(engine.submit_score(s("T1"), s("B"), 80, 150), Ok(1));
    assert_eq!(engine.get_tournament_results(s("T1"), 150), Err(Error::TournamentNotActive));
    assert_eq!(engine.get_tournament_results(s("T1"), 199), Err(Error::TournamentNotActive));
    assert_eq!(
        engine.get_tournament_results(s("T1"), 201),
        Ok(vec![entry("B", 80, 1), entry("A", 50, 2)])
    );
    assert_eq!(
        engine.get_tournament_results(s("T1"), 200),
        Ok(vec![entry("B", 80, 1), entry("A", 50, 2)])
    );
    assert_eq!(engine.get_tournament_results(s("T9"), 201), Err(Error::TournamentNotFound));
}

#[test]
fn scenario_history_keeps_the_hundred_latest() {
    let mut engine = GameLeaderboardContract::new();
    assert_eq!(engine.create_tournament(s("T1"), s("chess"), 0, 1000, 5), Ok(()));
    for i in 0..101u64 {
        assert_eq!(engine.submit_score(s("T1"), s("A"), 1000 + i, 10 + i), Ok(1));
    }
    let history = engine.get_player_history(s("A"));
    assert_eq!(history.len(), 100);
    for (k, record) in history.iter().enumerate() {
        let i = k as u64 + 1;
        assert_eq!(
            *record,
            PlayerScore { score: 1000 + i, timestamp: 10 + i, game_id: s("chess"), tournament_id: s("T1") }
        );
    }
    assert_eq!(engine.get_player_history(s("B")), Vec::<PlayerScore>::new());
}

#[test]
fn ranks_follow_scores_and_ties_keep_their_order() {
    let mut engine = GameLeaderboardContract::new();
    assert_eq!(engine.create_tournament(s("T"), s("g"), 1, 9, 10), Ok(()));
    assert_eq!(engine.submit_score(s("T"), s("A"), 50, 1), Ok(1));
    assert_eq!(engine.submit_score(s("T"), s("B"), 50, 2), Ok(2));
    assert_eq!(engine.submit_score(s("T"), s("C"), 70, 3), Ok(1));
    assert_eq!(engine.submit_score(s("T"), s("D"), 50, 4), Ok(4));
    assert_eq!(engine.submit_score(s("T"), s("E"), 0, 5), Ok(5));
    assert_eq!(
        engine.get_leaderboard(s("T"), 0, 100),
        Ok(vec![
            entry("C", 70, 1),
            entry("A", 50, 2),
            entry("B", 50, 3),
            entry("D", 50, 4),
            entry("E", 0, 5),
        ])
    );
    assert_eq!(engine.submit_score(s("T"), s("D"), 70, 9), Ok(2));
    assert_eq!(engine.submit_score(s("T"), s("E"), 51, 9), Ok(3));
    assert_eq!(
        engine.get_leaderboard(s("T"), 0, 100),
        Ok(vec![
            entry("C", 70, 1),
            entry("D", 70, 2),
            entry("E", 51, 3),
            entry("A", 50, 4),
            entry("B", 50, 5),
        ])
    );
}

#[test]
fn a_lower_score_changes_nothing_in_the_tournament() {
    let mut engine = t1();
    assert_eq!(engine.submit_score(s("T1"), s("A"), 50, 100), Ok(1));
    assert_eq!(engine.submit_score(s("T1"), s("B"), 60, 100), Ok(1));
    assert_eq!(engine.submit_score(s("T1"), s("A"), 40, 200), Ok(2));
    assert_eq!(engine.submit_score(s("T1"), s("A"), 50, 200), Ok(2));
    assert_eq!(
        engine.get_leaderboard(s("T1"), 0, 10),
        Ok(vec![entry("B", 60, 1), entry("A", 50, 2)])
    );
    let history = engine.get_player_history(s("A"));
    assert_eq!(history.len(), 3);
    assert_eq!(history[1].score, 40);
    assert_eq!(history[1].timestamp, 200);
}

#[test]
fn the_same_submission_twice_leaves_one_entry() {
    let mut engine = t1();
    assert_eq!(engine.submit_score(s("T1"), s("B"), 20, 150), Ok(1));
    assert_eq!(engine.submit_score(s("T1"), s("A"), 70, 150), Ok(1));
    let first = engine.get_tournament_info(s("T1")).unwrap();
    assert_eq!(engine.submit_score(s("T1"), s("A"), 70, 150), Ok(1));
    let second = engine.get_tournament_info(s("T1")).unwrap();
    assert_eq!(first, second);
    assert_eq!(second.entries, vec![entry("A", 70, 1), entry("B", 20, 2)]);
    assert_eq!(second.entries.iter().filter(|e| e.player_id == "A").count(), 1);
}

#[test]
fn a_full_tournament_still_takes_scores_of_its_players() {
    let mut engine = t1();
    assert_eq!(engine.submit_score(s("T1"), s("A"), 1, 150), Ok(1));
    assert_eq!(engine.submit_score(s("T1"), s("B"), 2, 150), Ok(1));
    let before = engine.get_tournament_info(s("T1")).unwrap();
    assert_eq!(engine.submit_score(s("T1"), s("C"), 99, 150), Err(Error::TournamentFull));
    assert_eq!(engine.get_tournament_info(s("T1")).unwrap(), before);
    assert_eq!(engine.get_player_history(s("C")).len(), 0);
    assert_eq!(engine.get_global_leaderboard(s("chess"), 0, 10).unwrap().len(), 2);
    assert_eq!(engine.submit_score(s("T1"), s("A"), 3, 150), Ok(1));
    assert_eq!(engine.get_tournament_info(s("T1")).unwrap().entries.len(), 2);
}

#[test]
fn submissions_are_taken_only_within_the_window() {
    let mut engine = t1();
    assert_eq!(engine.submit_score(s("T1"), s("A"), 5, 99), Err(Error::TournamentNotActive));
    assert_eq!(engine.submit_score(s("T1"), s("A"), 5, 201), Err(Error::TournamentNotActive));
    assert_eq!(engine.get_tournament_info(s("T1")).unwrap().entries.len(), 0);
    assert_eq!(engine.get_player_history(s("A")).len(), 0);
    assert_eq!(engine.submit_score(s("T1"), s("A"), 5, 100), Ok(1));
    assert_eq!(engine.submit_score(s("T1"), s("B"), 6, 200), Ok(1));
    assert_eq!(engine.submit_score(s("T2"), s("A"), 5, 150), Err(Error::TournamentNotFound));
}

#[test]
fn a_late_newcomer_to_a_full_tournament_is_told_the_time_first() {
    let mut engine = t1();
    assert_eq!(engine.submit_score(s("T1"), s("A"), 1, 150), Ok(1));
    assert_eq!(engine.submit_score(s("T1"), s("B"), 2, 150), Ok(1));
    assert_eq!(engine.submit_score(s("T1"), s("C"), 3, 201), Err(Error::TournamentNotActive));
}

#[test]
fn creation_checks_the_id_then_the_parameters() {
    let mut storage = Storage::new();
    assert_eq!(create_tournament(&mut storage, s("T"), s("g"), 10, 10, 5), Err(Error::InvalidParameters));
    assert_eq!(create_tournament(&mut storage, s("T"), s("g"), 11, 10, 5), Err(Error::InvalidParameters));
    assert_eq!(create_tournament(&mut storage, s("T"), s("g"), 1, 10, 0), Err(Error::InvalidParameters));
    assert_eq!(create_tournament(&mut storage, s("T"), s("g"), 1, 10, 10001), Err(Error::InvalidParameters));
    assert_eq!(get_tournaments(&storage), Vec::<String>::new());
    assert_eq!(get_tournament_info(&storage, s("T")), Err(Error::TournamentNotFound));
    assert_eq!(create_tournament(&mut storage, s("T"), s("g"), 1, 10, 10000), Ok(()));
    assert_eq!(create_tournament(&mut storage, s("U"), s("g"), 9, 10, 1), Ok(()));
    assert_eq!(create_tournament(&mut storage, s("T"), s("h"), 1, 10, 5), Err(Error::TournamentExists));
    assert_eq!(create_tournament(&mut storage, s("T"), s("h"), 10, 1, 0), Err(Error::TournamentExists));
    assert_eq!(get_tournaments(&storage), vec![s("T"), s("U")]);
    let t = get_tournament_info(&storage, s("T")).unwrap();
    assert_eq!(t.id, "T");
    assert_eq!(t.game_id, "g");
    assert_eq!((t.start_time, t.end_time, t.max_entries), (1, 10, 10000));
    assert_eq!(t.entries, Vec::<LeaderboardEntry>::new());
}

#[test]
fn status_names_the_phase() {
    let mut storage = Storage::new();
    assert_eq!(create_tournament(&mut storage, s("T"), s("g"), 100, 200, 5), Ok(()));
    assert_eq!(get_tournament_status(&storage, s("T"), 99), Ok(s("upcoming")));
    assert_eq!(get_tournament_status(&storage, s("T"), 100), Ok(s("active")));
    assert_eq!(get_tournament_status(&storage, s("T"), 200), Ok(s("active")));
    assert_eq!(get_tournament_status(&storage, s("T"), 201), Ok(s("ended")));
    assert_eq!(get_tournament_status(&storage, s("X"), 150), Err(Error::TournamentNotFound));
    assert_eq!(is_tournament_active(&storage, s("T"), 99), Ok(false));
    assert_eq!(is_tournament_active(&storage, s("T"), 100), Ok(true));
    assert_eq!(is_tournament_active(&storage, s("T"), 200), Ok(true));
    assert_eq!(is_tournament_active(&storage, s("T"), 201), Ok(false));
    assert_eq!(is_tournament_active(&storage, s("X"), 150), Err(Error::TournamentNotFound));
}

#[test]
fn active_tournaments_come_in_creation_order() {
    let mut storage = Storage::new();
    assert_eq!(create_tournament(&mut storage, s("T1"), s("chess"), 100, 200, 5), Ok(()));
    assert_eq!(create_tournament(&mut storage, s("T2"), s("go"), 150, 300, 5), Ok(()));
    assert_eq!(create_tournament(&mut storage, s("T3"), s("chess"), 10, 20, 5), Ok(()));
    assert_eq!(create_tournament(&mut storage, s("T4"), s("chess"), 160, 170, 5), Ok(()));
    let ids = |ts: Vec<game_leaderboards::types::Tournament>| -> Vec<String> {
        ts.into_iter().map(|t| t.id).collect()
    };
    assert_eq!(ids(get_active_tournaments(&storage, None, 160)), vec![s("T1"), s("T2"), s("T4")]);
    assert_eq!(ids(get_active_tournaments(&storage, Some(s("chess")), 160)), vec![s("T1"), s("T4")]);
    assert_eq!(ids(get_active_tournaments(&storage, Some(s("go")), 160)), vec![s("T2")]);
    assert_eq!(ids(get_active_tournaments(&storage, Some(s("go")), 100)), Vec::<String>::new());
    assert_eq!(ids(get_active_tournaments(&storage, None, 20)), vec![s("T3")]);
    assert_eq!(ids(get_active_tournaments(&storage, None, 301)), Vec::<String>::new());
    assert_eq!(ids(get_active_tournaments(&storage, Some(s("poker")), 160)), Vec::<String>::new());
}

#[test]
fn the_global_leaderboard_holds_the_best_score_over_tournaments() {
    let mut storage = Storage::new();
    assert_eq!(create_tournament(&mut storage, s("T1"), s("chess"), 0, 100, 5), Ok(()));
    assert_eq!(create_tournament(&mut storage, s("T2"), s("chess"), 0, 100, 5), Ok(()));
    assert_eq!(create_tournament(&mut storage, s("T3"), s("go"), 0, 100, 5), Ok(()));
    assert_eq!(submit_score(&mut storage, s("T1"), s("A"), 30, 1), Ok(1));
    assert_eq!(submit_score(&mut storage, s("T2"), s("A"), 20, 2), Ok(1));
    assert_eq!(submit_score(&mut storage, s("T2"), s("B"), 25, 3), Ok(1));
    assert_eq!(submit_score(&mut storage, s("T3"), s("B"), 99, 4), Ok(1));
    assert_eq!(
        get_global_leaderboard(&storage, s("chess"), 0, 10),
        Ok(vec![entry("A", 30, 1), entry("B", 25, 2)])
    );
    assert_eq!(get_global_leaderboard(&storage, s("go"), 0, 10), Ok(vec![entry("B", 99, 1)]));
    assert_eq!(get_global_leaderboard(&storage, s("poker"), 0, 10), Ok(vec![]));
    assert_eq!(get_leaderboard(&storage, s("T2"), 0, 10), Ok(vec![entry("B", 25, 1), entry("A", 20, 2)]));
    assert_eq!(get_leaderboard(&storage, s("T7"), 0, 10), Err(Error::TournamentNotFound));
    let history = get_player_history(&storage, s("B"));
    assert_eq!(
        history,
        vec![
            PlayerScore { score: 25, timestamp: 3, game_id: s("chess"), tournament_id: s("T2") },
            PlayerScore { score: 99, timestamp: 4, game_id: s("go"), tournament_id: s("T3") },
        ]
    );
}

#[test]
fn the_global_leaderboard_drops_its_lowest_ranks_over_a_thousand() {
    let mut storage = Storage::new();
    for i in 0..1000u64 {
        update_global_leaderboard(&mut storage, &s("g"), &format!("p{}", i), 10 + i);
    }
    let all = get_global_leaderboard(&storage, s("g"), 0, 2000).unwrap();
    assert_eq!(all.len(), 1000);
    assert_eq!(all[0], entry("p999", 1009, 1));
    assert_eq!(all[999], entry("p0", 10, 1000));
    update_global_leaderboard(&mut storage, &s("g"), &s("low"), 10);
    let all = get_global_leaderboard(&storage, s("g"), 0, 2000).unwrap();
    assert_eq!(all.len(), 1000);
    assert_eq!(all[999], entry("p0", 10, 1000));
    update_global_leaderboard(&mut storage, &s("g"), &s("top"), 5000);
    let all = get_global_leaderboard(&storage, s("g"), 0, 2000).unwrap();
    assert_eq!(all.len(), 1000);
    assert_eq!(all[0], entry("top", 5000, 1));
    assert_eq!(all[1], entry("p999", 1009, 2));
    assert_eq!(all[999], entry("p1", 11, 1000));
    assert!(all.iter().all(|e| e.player_id != "p0"));
    let page = get_global_leaderboard(&storage, s("g"), 99, 10).unwrap();
    assert_eq!(page.len(), 10);
    assert_eq!(page[9], entry("p1", 11, 1000));
    assert_eq!(get_global_leaderboard(&storage, s("g"), 100, 10), Ok(vec![]));
}

#[test]
fn pages_of_a_tournament_leaderboard() {
    let mut engine = GameLeaderboardContract::new();
    assert_eq!(engine.create_tournament(s("T"), s("g"), 0, 10, 10), Ok(()));
    for (i, p) in ["a", "b", "c", "d", "e"].iter().enumerate() {
        assert_eq!(engine.submit_score(s("T"), s(p), 100 - i as u64, 5), Ok(i as u32 + 1));
    }
    assert_eq!(engine.get_leaderboard(s("T"), 0, 2), Ok(vec![entry("a", 100, 1), entry("b", 99, 2)]));
    assert_eq!(engine.get_leaderboard(s("T"), 1, 2), Ok(vec![entry("c", 98, 3), entry("d", 97, 4)]));
    assert_eq!(engine.get_leaderboard(s("T"), 2, 2), Ok(vec![entry("e", 96, 5)]));
    assert_eq!(engine.get_leaderboard(s("T"), 3, 2), Ok(vec![]));
    assert_eq!(engine.get_leaderboard(s("T"), 0, 0), Ok(vec![]));
    assert_eq!(engine.get_leaderboard(s("T"), 7, 0), Ok(vec![]));
    assert_eq!(engine.get_leaderboard(s("T"), 1, 5), Ok(vec![]));
    assert_eq!(engine.get_leaderboard(s("T"), u32::MAX, u32::MAX), Ok(vec![]));
    assert_eq!(engine.get_leaderboard(s("T"), 0, u32::MAX).unwrap().len(), 5);
    assert_eq!(engine.get_tournaments(), vec![s("T")]);
}

#[test]
fn every_submission_is_taken_as_genuine() {
    assert!(validate_score(&s("A"), 5, 7, None));
    assert!(validate_score(&s("A"), u64::MAX, 0, Some(vec![1, 2, 3])));
}

#[test]
fn error_codes() {
    assert_eq!(Error::TournamentExists.code(), 1);
    assert_eq!(Error::TournamentNotFound.code(), 2);
    assert_eq!(Error::TournamentNotActive.code(), 3);
    assert_eq!(Error::TournamentFull.code(), 4);
    assert_eq!(Error::PlayerNotFound.code(), 5);
    assert_eq!(Error::InvalidParameters.code(), 6);
    assert_eq!(Error::Unauthorized.code(), 7);
}
