//! The records that the engine stores, each with its mathematical view.

use vstd::prelude::*;

verus! {

/// Identifies a game.
pub type GameId = String;

/// Identifies a tournament.
pub type TournamentId = String;

/// Identifies a player.
pub type PlayerId = String;

/// One submitted score, as a player's history keeps it.
#[derive(Debug, PartialEq, Eq)]
pub struct PlayerScore {
    pub score: u64,
    pub timestamp: u64,
    pub game_id: String,
    pub tournament_id: String,
}

/// What a `PlayerScore` stands for.
pub struct RecordView {
    pub score: u64,
    pub timestamp: u64,
    pub game_id: Seq<char>,
    pub tournament_id: Seq<char>,
}

impl View for PlayerScore {
    type V = RecordView;

    open spec fn view(&self) -> RecordView {
        RecordView {
            score: self.score,
            timestamp: self.timestamp,
            game_id: self.game_id@,
            tournament_id: self.tournament_id@,
        }
    }
}

impl DeepView for PlayerScore {
    type V = RecordView;

    open spec fn deep_view(&self) -> RecordView {
        self@
    }
}

impl Clone for PlayerScore {
    fn clone(&self) -> (copy: Self)
        ensures
            copy@ == self@,
    {
        PlayerScore {
            score: self.score,
            timestamp: self.timestamp,
            game_id: self.game_id.clone(),
            tournament_id: self.tournament_id.clone(),
        }
    }
}

/// A player's place on a leaderboard.
#[derive(Debug, PartialEq, Eq)]
pub struct LeaderboardEntry {
    pub player_id: String,
    pub score: u64,
    pub rank: u32,
}

/// What a `LeaderboardEntry` stands for.
pub struct EntryView {
    pub player_id: Seq<char>,
    pub score: u64,
    pub rank: u32,
}

impl View for LeaderboardEntry {
    type V = EntryView;

    open spec fn view(&self) -> EntryView {
        EntryView { player_id: self.player_id@, score: self.score, rank: self.rank }
    }
}

impl DeepView for LeaderboardEntry {
    type V = EntryView;

    open spec fn deep_view(&self) -> EntryView {
        self@
    }
}

impl Clone for LeaderboardEntry {
    fn clone(&self) -> (copy: Self)
        ensures
            copy@ == self@,
    {
        LeaderboardEntry { player_id: self.player_id.clone(), score: self.score, rank: self.rank }
    }
}

/// A time-bounded, capacity-bounded competition within one game.
#[derive(Debug, PartialEq, Eq)]
pub struct Tournament {
    pub id: String,
    pub game_id: String,
    pub start_time: u64,
    pub end_time: u64,
    pub max_entries: u32,
    pub entries: Vec<LeaderboardEntry>,
}

/// What a `Tournament` stands for.
pub struct TournamentView {
    pub id: Seq<char>,
    pub game_id: Seq<char>,
    pub start_time: u64,
    pub end_time: u64,
    pub max_entries: u32,
    pub entries: Seq<EntryView>,
}

impl View for Tournament {
    type V = TournamentView;

    open spec fn view(&self) -> TournamentView {
        TournamentView {
            id: self.id@,
            game_id: self.game_id@,
            start_time: self.start_time,
            end_time: self.end_time,
            max_entries: self.max_entries,
            entries: self.entries.deep_view(),
        }
    }
}

impl DeepView for Tournament {
    type V = TournamentView;

    open spec fn deep_view(&self) -> TournamentView {
        self@
    }
}

impl Clone for Tournament {
    fn clone(&self) -> (copy: Self)
        ensures
            copy@ == self@,
    {
        Tournament {
            id: self.id.clone(),
            game_id: self.game_id.clone(),
            start_time: self.start_time,
            end_time: self.end_time,
            max_entries: self.max_entries,
            entries: copy_entries(&self.entries),
        }
    }
}

/// A copy of a list of leaderboard entries.
pub fn copy_entries(entries: &Vec<LeaderboardEntry>) -> (copy: Vec<LeaderboardEntry>)
    ensures
        copy.deep_view() == entries.deep_view(),
{
    let mut copy: Vec<LeaderboardEntry> = Vec::new();
    let mut i: usize = 0;
    while i < entries.len()
        invariant
            i <= entries.len(),
            copy.len() == i,
            forall|k: int| 0 <= k < i ==> copy[k]@ == entries[k]@,
        decreases entries.len() - i,
    {
        copy.push(entries[i].clone());
        i += 1;
    }
    assert(copy.deep_view() =~= entries.deep_view());
    copy
}

/// A copy of a list of score records.
pub fn copy_scores(scores: &Vec<PlayerScore>) -> (copy: Vec<PlayerScore>)
    ensures
        copy.deep_view() == scores.deep_view(),
{
    let mut copy: Vec<PlayerScore> = Vec::new();
    let mut i: usize = 0;
    while i < scores.len()
        invariant
            i <= scores.len(),
            copy.len() == i,
            forall|k: int| 0 <= k < i ==> copy[k]@ == scores[k]@,
        decreases scores.len() - i,
    {
        copy.push(scores[i].clone());
        i += 1;
    }
    assert(copy.deep_view() =~= scores.deep_view());
    copy
}

} // verus!
