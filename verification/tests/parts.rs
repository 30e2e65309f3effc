use game_leaderboards::bounded::{evict_head, trim_tail};
use game_leaderboards::errors::Error;
use game_leaderboards::keyed::KeyedStore;
use game_leaderboards::leaderboard::{
    add_entry, apply_global_score, find_entry, improve_entry, sort_entries,
};
use game_leaderboards::pagination::{page_bounds, paginate};
use game_leaderboards::scores::{append_score, enter_score, rank_in};
use game_leaderboards::tournaments::{new_tournament, results_at, status_at};
use game_leaderboards::types::{copy_entries, copy_scores, LeaderboardEntry, PlayerScore, Tournament};

fn e(player: &str, score: u64, rank: u32) -> LeaderboardEntry {
    LeaderboardEntry { player_id: String::from(player), score, rank }
}

fn record(score: u64) -> PlayerScore {
    PlayerScore { score, timestamp: score + 1, game_id: String::from("g"), tournament_id: String::from("t") }
}

#[test]
fn sorting_orders_by_score_and_numbers_the_places() {
    let mut entries = vec![e("a", 5, 9), e("b", 7, 9), e("c", 5, 0), e("d", 9, 1), e("e", 7, 3)];
    sort_entries(&mut entries);
    assert_eq!(entries, vec![e("d", 9, 1), e("b", 7, 2), e("e", 7, 3), e("a", 5, 4), e("c", 5, 5)]);
    let mut none: Vec<LeaderboardEntry> = vec![];
    sort_entries(&mut none);
    assert_eq!(none, vec![]);
    let mut one = vec![e("x", 0, 0)];
    sort_entries(&mut one);
    assert_eq!(one, vec![e("x", 0, 1)]);
    let mut rising = vec![e("a", 1, 1), e("b", 2, 2), e("c", 3, 3)];
    sort_entries(&mut rising);
    assert_eq!(rising, vec![e("c", 3, 1), e("b", 2, 2), e("a", 1, 3)]);
}

#[test]
fn sorting_a_ranked_leaderboard_changes_nothing() {
    let ranked = vec![e("a", 9, 1), e("b", 9, 2), e("c", 3, 3)];
    let mut again = copy_entries(&ranked);
    sort_entries(&mut again);
    assert_eq!(again, ranked);
}

#[test]
fn finding_improving_and_adding_entries() {
    let mut entries = vec![e("a", 5, 1), e("b", 4, 2), e("a", 3, 3)];
    assert_eq!(find_entry(&entries, &String::from("a")), Some(0));
    assert_eq!(find_entry(&entries, &String::from("b")), Some(1));
    assert_eq!(find_entry(&entries, &String::from("c")), None);
    assert_eq!(rank_in(&entries, &String::from("b")), Some(2));
    assert_eq!(rank_in(&entries, &String::from("a")), Some(1));
    assert_eq!(rank_in(&entries, &String::from("c")), None);
    improve_entry(&mut entries, 1, 4);
    assert_eq!(entries[1], e("b", 4, 2));
    improve_entry(&mut entries, 1, 3);
    assert_eq!(entries[1], e("b", 4, 2));
    improve_entry(&mut entries, 1, 6);
    assert_eq!(entries[1], e("b", 6, 2));
    add_entry(&mut entries, &String::from("z"), 77);
    assert_eq!(entries.len(), 4);
    assert_eq!(entries[3], e("z", 77, 1));
}

#[test]
fn tail_trim_and_head_eviction() {
    let mut v = vec![1, 2, 3, 4, 5];
    trim_tail(&mut v, 3);
    assert_eq!(v, vec![1, 2, 3]);
    trim_tail(&mut v, 3);
    assert_eq!(v, vec![1, 2, 3]);
    trim_tail(&mut v, 0);
    assert_eq!(v, Vec::<i32>::new());
    let mut w = vec![1, 2, 3, 4, 5];
    evict_head(&mut w, 7);
    assert_eq!(w, vec![1, 2, 3, 4, 5]);
    evict_head(&mut w, 2);
    assert_eq!(w, vec![4, 5]);
    evict_head(&mut w, 0);
    assert_eq!(w, Vec::<i32>::new());
}

#[test]
fn history_drops_its_oldest_record_over_a_hundred() {
    let mut scores: Vec<PlayerScore> = vec![];
    for i in 0..100u64 {
        append_score(&mut scores, record(i));
        assert_eq!(scores.len() as u64, i + 1);
    }
    assert_eq!(scores[0], record(0));
    append_score(&mut scores, record(100));
    assert_eq!(scores.len(), 100);
    assert_eq!(scores[0], record(1));
    assert_eq!(scores[99], record(100));
    let mut long: Vec<PlayerScore> = (0..150u64).map(record).collect();
    append_score(&mut long, record(150));
    assert_eq!(long.len(), 100);
    assert_eq!(long[0], record(51));
    assert_eq!(copy_scores(&long), long);
}

#[test]
fn a_global_score_is_ranked_and_cut() {
    let mut entries = vec![e("a", 9, 1), e("b", 5, 2)];
    apply_global_score(&mut entries, &String::from("c"), 7);
    assert_eq!(entries, vec![e("a", 9, 1), e("c", 7, 2), e("b", 5, 3)]);
    apply_global_score(&mut entries, &String::from("b"), 4);
    assert_eq!(entries, vec![e("a", 9, 1), e("c", 7, 2), e("b", 5, 3)]);
    apply_global_score(&mut entries, &String::from("b"), 9);
    assert_eq!(entries, vec![e("a", 9, 1), e("b", 9, 2), e("c", 7, 3)]);
    let mut full: Vec<LeaderboardEntry> =
        (0..1000u64).map(|i| e(&format!("p{}", i), 5000 - i, i as u32 + 1)).collect();
    apply_global_score(&mut full, &String::from("low"), 4001);
    assert_eq!(full.len(), 1000);
    assert_eq!(full[999], e("p999", 4001, 1000));
    apply_global_score(&mut full, &String::from("new"), 4002);
    assert_eq!(full.len(), 1000);
    assert_eq!(full[998], e("p998", 4002, 999));
    assert_eq!(full[999], e("new", 4002, 1000));
    apply_global_score(&mut full, &String::from("newer"), 4002);
    assert_eq!(full.len(), 1000);
    assert_eq!(full[999], e("new", 4002, 1000));
    apply_global_score(&mut full, &String::from("best"), 6000);
    assert_eq!(full.len(), 1000);
    assert_eq!(full[0], e("best", 6000, 1));
    assert_eq!(full[999], e("p998", 4002, 1000));
}

#[test]
fn page_bounds_and_pages() {
    assert_eq!(page_bounds(10, 0, 3), Some((0, 3)));
    assert_eq!(page_bounds(10, 3, 3), Some((9, 10)));
    assert_eq!(page_bounds(10, 4, 3), None);
    assert_eq!(page_bounds(10, 0, 0), None);
    assert_eq!(page_bounds(0, 0, 5), None);
    assert_eq!(page_bounds(10, 1, 10), None);
    assert_eq!(page_bounds(10, 0, 10), Some((0, 10)));
    assert_eq!(page_bounds(10, 0, 11), Some((0, 10)));
    assert_eq!(page_bounds(usize::MAX, u32::MAX, u32::MAX), Some((18446744065119617025, 18446744069414584320)));
    let entries = vec![e("a", 3, 1), e("b", 2, 2), e("c", 1, 3)];
    assert_eq!(paginate(&entries, 0, 2), vec![e("a", 3, 1), e("b", 2, 2)]);
    assert_eq!(paginate(&entries, 1, 2), vec![e("c", 1, 3)]);
    assert_eq!(paginate(&entries, 2, 2), vec![]);
    assert_eq!(paginate(&entries, 2, 1), vec![e("c", 1, 3)]);
    assert_eq!(paginate(&entries, 65536, 65536), vec![]);
}

#[test]
fn a_tournament_by_itself() {
    assert_eq!(
        new_tournament(String::from("T"), String::from("g"), 5, 5, 1),
        Err(Error::InvalidParameters)
    );
    assert_eq!(
        new_tournament(String::from("T"), String::from("g"), 0, u64::MAX, 10001),
        Err(Error::InvalidParameters)
    );
    let mut t: Tournament = new_tournament(String::from("T"), String::from("g"), 5, 6, 1).unwrap();
    assert_eq!(status_at(&t, 4), "upcoming");
    assert_eq!(status_at(&t, 5), "active");
    assert_eq!(status_at(&t, 6), "active");
    assert_eq!(status_at(&t, 7), "ended");
    assert_eq!(enter_score(&mut t, &String::from("a"), 0, 4), Err(Error::TournamentNotActive));
    assert_eq!(enter_score(&mut t, &String::from("a"), 0, 5), Ok(1));
    assert_eq!(enter_score(&mut t, &String::from("b"), 9, 5), Err(Error::TournamentFull));
    assert_eq!(enter_score(&mut t, &String::from("a"), u64::MAX, 6), Ok(1));
    assert_eq!(enter_score(&mut t, &String::from("a"), 1, 7), Err(Error::TournamentNotActive));
    assert_eq!(results_at(&t, 5), Err(Error::TournamentNotActive));
    assert_eq!(results_at(&t, 6), Ok(vec![e("a", u64::MAX, 1)]));
    assert_eq!(t.clone(), t);
}

#[test]
fn a_keyed_store_keeps_the_last_value_of_a_key() {
    let mut store: KeyedStore<u64> = KeyedStore::new();
    assert_eq!(store.get(&String::from("a")), None);
    store.set(String::from("a"), 1);
    store.set(String::from("b"), 2);
    store.set(String::from("a"), 3);
    assert_eq!(store.get(&String::from("a")), Some(&3));
    assert_eq!(store.get(&String::from("b")), Some(&2));
    assert_eq!(store.get(&String::from("")), None);
}
