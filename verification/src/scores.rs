//! Score submission: the tournament takes the score, and with it the
//! game's global leaderboard and the player's history.

use vstd::prelude::*;
use crate::bounded::evict_head;
use crate::errors::Error;
use crate::leaderboard::{add_entry, find_entry, improve_entry, sort_entries, update_global_leaderboard};
use crate::rules::{
    entry_error, global_after, has_player, history_after, lemma_first_entry,
    lemma_ranked_has_player, lemma_with_entry_valid, rank_of, valid_storage, valid_tournament,
    with_entry, with_score, PLAYER_HISTORY_CAPACITY,
};
use crate::storage::{Storage, StorageView};
use crate::tournaments::is_active_at;
use crate::types::{LeaderboardEntry, PlayerScore, RecordView, Tournament};

verus! {

/// Why a score of `player_id` for tournament `tournament_id` is refused at
/// `now`, if it is: the tournament is unknown, or not in its active window,
/// or full and without an entry of the player.
pub open spec fn submit_error(
    v: StorageView,
    tournament_id: Seq<char>,
    player_id: Seq<char>,
    now: u64,
) -> Option<Error> {
    if !v.tournaments.dom().contains(tournament_id) {
        Some(Error::TournamentNotFound)
    } else {
        entry_error(v.tournaments[tournament_id], player_id, now)
    }
}

/// The record that a player's history gets for a score submitted to
/// tournament `tournament_id` of game `game_id` at `now`.
pub open spec fn score_record(
    score: u64,
    now: u64,
    game_id: Seq<char>,
    tournament_id: Seq<char>,
) -> RecordView {
    RecordView { score: score, timestamp: now, game_id: game_id, tournament_id: tournament_id }
}

/// The state after tournament `tournament_id` has accepted `score` from
/// `player_id` at `now`: the tournament holds the score, the global
/// leaderboard of its game holds it, and the player's history ends with it.
pub open spec fn submitted(
    v: StorageView,
    tournament_id: Seq<char>,
    player_id: Seq<char>,
    score: u64,
    now: u64,
) -> StorageView {
    let t = v.tournaments[tournament_id];
    StorageView {
        tournaments: v.tournaments.insert(tournament_id, with_entry(t, player_id, score)),
        tournament_list: v.tournament_list,
        leaderboards: v.leaderboards.insert(
            t.game_id,
            global_after(v.leaderboard(t.game_id), player_id, score),
        ),
        histories: v.histories.insert(
            player_id,
            history_after(v.history(player_id), score_record(score, now, t.game_id, tournament_id)),
        ),
    }
}

/// Enters `score` for `player_id` into `tournament` at `now` and returns
/// the player's rank on the ranked leaderboard. Outside the active window
/// the tournament refuses with `TournamentNotActive`; a full tournament
/// refuses a player without an entry with `TournamentFull`; a refusal
/// changes nothing.
pub fn enter_score(tournament: &mut Tournament, player_id: &String, score: u64, now: u64) -> (result:
    Result<u32, Error>)
    requires
        old(tournament).entries.len() < u32::MAX,
    ensures
        match result {
            Ok(rank) => {
                &&& entry_error(old(tournament)@, player_id@, now).is_none()
                &&& final(tournament)@ == with_entry(old(tournament)@, player_id@, score)
                &&& has_player(final(tournament)@.entries, player_id@)
                &&& rank == rank_of(final(tournament)@.entries, player_id@)
            },
            Err(e) => {
                &&& entry_error(old(tournament)@, player_id@, now) == Some(e)
                &&& final(tournament)@ == old(tournament)@
            },
        },
        valid_tournament(old(tournament)@) ==> valid_tournament(final(tournament)@),
{
    let ghost given = tournament@;
    if !is_active_at(tournament, now) {
        return Err(Error::TournamentNotActive);
    }
    match find_entry(&tournament.entries, player_id) {
        Some(i) => {
            proof {
                lemma_first_entry(given.entries, player_id@, i as int);
            }
            improve_entry(&mut tournament.entries, i, score);
        },
        None => {
            if tournament.entries.len() >= tournament.max_entries as usize {
                return Err(Error::TournamentFull);
            }
            add_entry(&mut tournament.entries, player_id, score);
        },
    }
    assert(tournament.entries.deep_view() == with_score(given.entries, player_id@, score));
    sort_entries(&mut tournament.entries);
    assert(tournament@ == with_entry(given, player_id@, score));
    proof {
        lemma_ranked_has_player(given.entries, player_id@, score);
        if valid_tournament(given) {
            lemma_with_entry_valid(given, player_id@, score, now);
        }
    }
    match rank_in(&tournament.entries, player_id) {
        Some(rank) => Ok(rank),
        None => Err(Error::PlayerNotFound),
    }
}

/// The rank that `entries` gives `player_id`, if the player has an entry.
pub fn rank_in(entries: &Vec<LeaderboardEntry>, player_id: &String) -> (rank: Option<u32>)
    ensures
        match rank {
            Some(r) => has_player(entries.deep_view(), player_id@) && r == rank_of(
                entries.deep_view(),
                player_id@,
            ),
            None => !has_player(entries.deep_view(), player_id@),
        },
{
    match find_entry(entries, player_id) {
        Some(i) => {
            proof {
                lemma_first_entry(entries.deep_view(), player_id@, i as int);
            }
            Some(entries[i].rank)
        },
        None => None,
    }
}

/// Adds `record` to a score history and drops the oldest records until the
/// history is within its capacity.
pub fn append_score(scores: &mut Vec<PlayerScore>, record: PlayerScore)
    ensures
        final(scores).deep_view() == history_after(old(scores).deep_view(), record@),
        final(scores).len() <= PLAYER_HISTORY_CAPACITY,
{
    scores.push(record);
    let ghost pushed = scores.deep_view();
    assert(pushed =~= old(scores).deep_view().push(record@));
    evict_head(scores, PLAYER_HISTORY_CAPACITY);
    assert(scores.deep_view() =~= history_after(old(scores).deep_view(), record@));
}

/// Adds `record` to the history of `player_id` and stores the history.
pub fn add_player_score(storage: &mut Storage, player_id: String, record: PlayerScore)
    requires
        valid_storage(old(storage)@),
    ensures
        final(storage)@ == (StorageView {
            histories: old(storage)@.histories.insert(
                player_id@,
                history_after(old(storage)@.history(player_id@), record@),
            ),
            ..old(storage)@
        }),
        valid_storage(final(storage)@),
{
    let mut scores = storage.get_player_scores(&player_id);
    append_score(&mut scores, record);
    storage.save_player_scores(player_id, scores);
}

/// Submits `score` of `player_id` to tournament `tournament_id` at `now`
/// and returns the player's rank in the tournament. On success the score
/// also reaches the global leaderboard of the tournament's game and the
/// player's history. On failure nothing is changed.
pub fn submit_score(
    storage: &mut Storage,
    tournament_id: String,
    player_id: String,
    score: u64,
    now: u64,
) -> (result: Result<u32, Error>)
    requires
        valid_storage(old(storage)@),
    ensures
        valid_storage(final(storage)@),
        match result {
            Ok(rank) => {
                &&& submit_error(old(storage)@, tournament_id@, player_id@, now).is_none()
                &&& final(storage)@ == submitted(
                    old(storage)@,
                    tournament_id@,
                    player_id@,
                    score,
                    now,
                )
                &&& rank == rank_of(
                    final(storage)@.tournaments[tournament_id@].entries,
                    player_id@,
                )
            },
            Err(e) => {
                &&& submit_error(old(storage)@, tournament_id@, player_id@, now) == Some(e)
                &&& final(storage)@ == old(storage)@
            },
        },
{
    let mut tournament = match storage.get_tournament(&tournament_id) {
        Some(t) => t,
        None => {
            return Err(Error::TournamentNotFound);
        },
    };
    let rank = match enter_score(&mut tournament, &player_id, score, now) {
        Ok(rank) => rank,
        Err(e) => {
            return Err(e);
        },
    };
    let game_id = tournament.game_id.clone();
    let record = PlayerScore {
        score: score,
        timestamp: now,
        game_id: tournament.game_id.clone(),
        tournament_id: tournament_id.clone(),
    };
    storage.save_tournament(tournament_id, tournament);
    assert(valid_storage(storage@));
    add_player_score(storage, player_id.clone(), record);
    update_global_leaderboard(storage, &game_id, &player_id, score);
    assert(storage@ =~= submitted(old(storage)@, tournament_id@, player_id@, score, now));
    Ok(rank)
}

/// The score history of `player_id`, oldest record first.
pub fn get_player_history(storage: &Storage, player_id: String) -> (scores: Vec<PlayerScore>)
    ensures
        scores.deep_view() == storage@.history(player_id@),
{
    storage.get_player_scores(&player_id)
}

/// Whether a submission is genuine. No check is made: every submission is
/// taken as genuine.
pub fn validate_score(
    player_id: &String,
    score: u64,
    timestamp: u64,
    signature: Option<Vec<u8>>,
) -> (genuine: bool)
    ensures
        genuine,
{
    true
}

} // verus!
