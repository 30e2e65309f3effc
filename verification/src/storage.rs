//! The state that the engine keeps: tournaments by id, the list of all
//! tournament ids, one leaderboard per game and one score history per
//! player.

use vstd::prelude::*;
use crate::keyed::KeyedStore;
use crate::types::{
    copy_entries, copy_scores, EntryView, LeaderboardEntry, PlayerScore, RecordView,
    Tournament, TournamentView,
};

verus! {

/// Everything the engine has stored.
pub struct Storage {
    tournaments: KeyedStore<Tournament>,
    tournament_list: Vec<String>,
    leaderboards: KeyedStore<Vec<LeaderboardEntry>>,
    histories: KeyedStore<Vec<PlayerScore>>,
}

/// What a `Storage` stands for.
pub struct StorageView {
    /// The tournaments, by id.
    pub tournaments: Map<Seq<char>, TournamentView>,
    /// The ids of all tournaments, in the order of their creation.
    pub tournament_list: Seq<Seq<char>>,
    /// The global leaderboard of each game that has one.
    pub leaderboards: Map<Seq<char>, Seq<EntryView>>,
    /// The score history of each player that has one.
    pub histories: Map<Seq<char>, Seq<RecordView>>,
}

impl StorageView {
    /// The global leaderboard of `game_id`: empty until a score is
    /// submitted for the game.
    pub open spec fn leaderboard(self, game_id: Seq<char>) -> Seq<EntryView> {
        if self.leaderboards.dom().contains(game_id) {
            self.leaderboards[game_id]
        } else {
            Seq::empty()
        }
    }

    /// The score history of `player_id`: empty until the player submits a
    /// score.
    pub open spec fn history(self, player_id: Seq<char>) -> Seq<RecordView> {
        if self.histories.dom().contains(player_id) {
            self.histories[player_id]
        } else {
            Seq::empty()
        }
    }
}

impl View for Storage {
    type V = StorageView;

    closed spec fn view(&self) -> StorageView {
        StorageView {
            tournaments: self.tournaments@,
            tournament_list: self.tournament_list.deep_view(),
            leaderboards: self.leaderboards@,
            histories: self.histories@,
        }
    }
}

impl Storage {
    /// A storage that holds nothing.
    pub fn new() -> (storage: Self)
        ensures
            storage@.tournaments == Map::<Seq<char>, TournamentView>::empty(),
            storage@.tournament_list == Seq::<Seq<char>>::empty(),
            storage@.leaderboards == Map::<Seq<char>, Seq<EntryView>>::empty(),
            storage@.histories == Map::<Seq<char>, Seq<RecordView>>::empty(),
    {
        let storage = Storage {
            tournaments: KeyedStore::new(),
            tournament_list: Vec::new(),
            leaderboards: KeyedStore::new(),
            histories: KeyedStore::new(),
        };
        assert(storage.tournament_list.deep_view() =~= Seq::<Seq<char>>::empty());
        storage
    }

    /// A copy of the tournament stored under `tournament_id`, if there is
    /// one.
    pub fn get_tournament(&self, tournament_id: &String) -> (found: Option<Tournament>)
        ensures
            match found {
                Some(t) => self@.tournaments.dom().contains(tournament_id@)
                    && self@.tournaments[tournament_id@] == t@,
                None => !self@.tournaments.dom().contains(tournament_id@),
            },
    {
        match self.tournaments.get(tournament_id) {
            Some(t) => Some(t.clone()),
            None => None,
        }
    }

    /// Stores `tournament` under `tournament_id`.
    pub(crate) fn save_tournament(&mut self, tournament_id: String, tournament: Tournament)
        ensures
            final(self)@ == (StorageView {
                tournaments: old(self)@.tournaments.insert(tournament_id@, tournament@),
                ..old(self)@
            }),
    {
        self.tournaments.set(tournament_id, tournament);
    }

    /// A copy of the list of all tournament ids, in the order of creation.
    pub fn get_tournament_list(&self) -> (list: Vec<String>)
        ensures
            list.deep_view() == self@.tournament_list,
    {
        let mut list: Vec<String> = Vec::new();
        let mut i: usize = 0;
        while i < self.tournament_list.len()
            invariant
                i <= self.tournament_list.len(),
                list.len() == i,
                forall|k: int| 0 <= k < i ==> list[k]@ == self.tournament_list[k]@,
            decreases self.tournament_list.len() - i,
        {
            list.push(self.tournament_list[i].clone());
            i += 1;
        }
        assert(list.deep_view() =~= self.tournament_list.deep_view());
        list
    }

    /// Puts `tournament_id` at the end of the list of all tournament ids.
    pub(crate) fn add_to_tournament_list(&mut self, tournament_id: String)
        ensures
            final(self)@ == (StorageView {
                tournament_list: old(self)@.tournament_list.push(tournament_id@),
                ..old(self)@
            }),
    {
        self.tournament_list.push(tournament_id);
        assert(self.tournament_list.deep_view() =~= old(self).tournament_list.deep_view().push(
            tournament_id@,
        ));
    }

    /// A copy of the global leaderboard of `game_id`.
    pub fn get_global_leaderboard(&self, game_id: &String) -> (entries: Vec<LeaderboardEntry>)
        ensures
            entries.deep_view() == self@.leaderboard(game_id@),
    {
        match self.leaderboards.get(game_id) {
            Some(entries) => copy_entries(entries),
            None => {
                let entries: Vec<LeaderboardEntry> = Vec::new();
                assert(entries.deep_view() =~= Seq::<EntryView>::empty());
                entries
            },
        }
    }

    /// Stores `entries` as the global leaderboard of `game_id`.
    pub(crate) fn save_global_leaderboard(&mut self, game_id: String, entries: Vec<LeaderboardEntry>)
        ensures
            final(self)@ == (StorageView {
                leaderboards: old(self)@.leaderboards.insert(game_id@, entries.deep_view()),
                ..old(self)@
            }),
    {
        self.leaderboards.set(game_id, entries);
    }

    /// A copy of the score history of `player_id`, oldest record first.
    pub fn get_player_scores(&self, player_id: &String) -> (scores: Vec<PlayerScore>)
        ensures
            scores.deep_view() == self@.history(player_id@),
    {
        match self.histories.get(player_id) {
            Some(scores) => copy_scores(scores),
            None => {
                let scores: Vec<PlayerScore> = Vec::new();
                assert(scores.deep_view() =~= Seq::<RecordView>::empty());
                scores
            },
        }
    }

    /// Stores `scores` as the score history of `player_id`.
    pub(crate) fn save_player_scores(&mut self, player_id: String, scores: Vec<PlayerScore>)
        ensures
            final(self)@ == (StorageView {
                histories: old(self)@.histories.insert(player_id@, scores.deep_view()),
                ..old(self)@
            }),
    {
        self.histories.set(player_id, scores);
    }
}

} // verus!
