//! The engine as its callers see it: one value that owns the stored state
//! and offers every operation on it.

use vstd::prelude::*;
use crate::errors::Error;
use crate::leaderboard;
use crate::pagination::paginate_spec;
use crate::rules::{rank_of, valid_storage};
use crate::scores;
use crate::scores::{submit_error, submitted};
use crate::storage::{Storage, StorageView};
use crate::tournaments;
use crate::tournaments::{create_error, created, results_error};
use crate::types::{LeaderboardEntry, PlayerScore, Tournament};

verus! {

/// The competitive-scoring engine with its state.
pub struct GameLeaderboardContract {
    pub storage: Storage,
}

impl View for GameLeaderboardContract {
    type V = StorageView;

    open spec fn view(&self) -> StorageView {
        self.storage@
    }
}

impl GameLeaderboardContract {
    /// The state is one that the engine's operations lead to.
    pub open spec fn wf(&self) -> bool {
        valid_storage(self@)
    }

    /// An engine without tournaments, leaderboards or histories.
    pub fn new() -> (contract: Self)
        ensures
            contract.wf(),
            contract@.tournament_list.len() == 0,
            forall|id: Seq<char>| !contract@.tournaments.dom().contains(id),
            forall|g: Seq<char>| !contract@.leaderboards.dom().contains(g),
            forall|p: Seq<char>| !contract@.histories.dom().contains(p),
    {
        GameLeaderboardContract { storage: Storage::new() }
    }

    /// Submits `score` of `player_id` to tournament `tournament_id` at
    /// `now`; see `scores::submit_score`.
    pub fn submit_score(
        &mut self,
        tournament_id: String,
        player_id: String,
        score: u64,
        now: u64,
    ) -> (result: Result<u32, Error>)
        requires
            old(self).wf(),
        ensures
            final(self).wf(),
            match result {
                Ok(rank) => {
                    &&& submit_error(old(self)@, tournament_id@, player_id@, now).is_none()
                    &&& final(self)@ == submitted(
                        old(self)@,
                        tournament_id@,
                        player_id@,
                        score,
                        now,
                    )
                    &&& rank == rank_of(
                        final(self)@.tournaments[tournament_id@].entries,
                        player_id@,
                    )
                },
                Err(e) => {
                    &&& submit_error(old(self)@, tournament_id@, player_id@, now) == Some(e)
                    &&& final(self)@ == old(self)@
                },
            },
    {
        scores::submit_score(&mut self.storage, tournament_id, player_id, score, now)
    }

    /// A page of the leaderboard of tournament `tournament_id`; see
    /// `leaderboard::get_leaderboard`.
    pub fn get_leaderboard(&self, tournament_id: String, page: u32, page_size: u32) -> (result:
        Result<Vec<LeaderboardEntry>, Error>)
        ensures
            match result {
                Ok(entries) => self@.tournaments.dom().contains(tournament_id@)
                    && entries.deep_view() == paginate_spec(
                    self@.tournaments[tournament_id@].entries,
                    page,
                    page_size,
                ),
                Err(e) => e == Error::TournamentNotFound && !self@.tournaments.dom().contains(
                    tournament_id@,
                ),
            },
    {
        leaderboard::get_leaderboard(&self.storage, tournament_id, page, page_size)
    }

    /// A page of the global leaderboard of `game_id`; see
    /// `leaderboard::get_global_leaderboard`.
    pub fn get_global_leaderboard(&self, game_id: String, page: u32, page_size: u32) -> (result:
        Result<Vec<LeaderboardEntry>, Error>)
        ensures
            result.is_ok(),
            result.unwrap().deep_view() == paginate_spec(
                self@.leaderboard(game_id@),
                page,
                page_size,
            ),
    {
        leaderboard::get_global_leaderboard(&self.storage, game_id, page, page_size)
    }

    /// Creates a tournament; see `tournaments::create_tournament`.
    pub fn create_tournament(
        &mut self,
        tournament_id: String,
        game_id: String,
        start_time: u64,
        end_time: u64,
        max_entries: u32,
    ) -> (result: Result<(), Error>)
        requires
            old(self).wf(),
        ensures
            final(self).wf(),
            match result {
                Ok(_) => {
                    &&& create_error(
                        old(self)@,
                        tournament_id@,
                        start_time,
                        end_time,
                        max_entries,
                    ).is_none()
                    &&& final(self)@ == created(
                        old(self)@,
                        tournament_id@,
                        game_id@,
                        start_time,
                        end_time,
                        max_entries,
                    )
                },
                Err(e) => {
                    &&& create_error(old(self)@, tournament_id@, start_time, end_time, max_entries)
                        == Some(e)
                    &&& final(self)@ == old(self)@
                },
            },
    {
        tournaments::create_tournament(
            &mut self.storage,
            tournament_id,
            game_id,
            start_time,
            end_time,
            max_entries,
        )
    }

    /// The tournament `tournament_id`; see
    /// `tournaments::get_tournament_info`.
    pub fn get_tournament_info(&self, tournament_id: String) -> (result: Result<Tournament, Error>)
        ensures
            match result {
                Ok(t) => self@.tournaments.dom().contains(tournament_id@)
                    && t@ == self@.tournaments[tournament_id@],
                Err(e) => e == Error::TournamentNotFound && !self@.tournaments.dom().contains(
                    tournament_id@,
                ),
            },
    {
        tournaments::get_tournament_info(&self.storage, tournament_id)
    }

    /// The final leaderboard of tournament `tournament_id`; see
    /// `tournaments::get_tournament_results`.
    pub fn get_tournament_results(&self, tournament_id: String, now: u64) -> (result: Result<
        Vec<LeaderboardEntry>,
        Error,
    >)
        ensures
            match result {
                Ok(entries) => results_error(self@, tournament_id@, now).is_none()
                    && entries.deep_view() == self@.tournaments[tournament_id@].entries,
                Err(e) => results_error(self@, tournament_id@, now) == Some(e),
            },
    {
        tournaments::get_tournament_results(&self.storage, tournament_id, now)
    }

    /// The score history of `player_id`, oldest record first.
    pub fn get_player_history(&self, player_id: String) -> (scores: Vec<PlayerScore>)
        ensures
            scores.deep_view() == self@.history(player_id@),
    {
        scores::get_player_history(&self.storage, player_id)
    }

    /// The ids of all tournaments, in the order of their creation.
    pub fn get_tournaments(&self) -> (ids: Vec<String>)
        ensures
            ids.deep_view() == self@.tournament_list,
    {
        tournaments::get_tournaments(&self.storage)
    }
}

} // verus!
