//! The rules of the engine over the model of its state: how a submission
//! changes a leaderboard, when a tournament accepts one, and what holds of
//! every state that the engine reaches.

use vstd::prelude::*;
use crate::bounded::{keep_first, keep_last};
use crate::errors::Error;
use crate::ranking::{
    distinct_players, is_ranked, lemma_ranked_is_ranked, lemma_ranked_keeps_scores, ranked,
};
use crate::storage::StorageView;
use crate::types::{EntryView, RecordView, TournamentView};

verus! {

/// The most players a tournament may be created for.
pub const MAX_TOURNAMENT_ENTRIES: u32 = 10000;

/// The most entries a global leaderboard keeps.
pub const GLOBAL_LEADERBOARD_CAPACITY: usize = 1000;

/// The most records a player's history keeps.
pub const PLAYER_HISTORY_CAPACITY: usize = 100;

/// `player_id` has an entry in `s`.
pub open spec fn has_player(s: Seq<EntryView>, player_id: Seq<char>) -> bool {
    exists|i: int| 0 <= i < s.len() && (#[trigger] s[i]).player_id == player_id
}

/// The entry at `i` is the first entry of `player_id` in `s`.
pub open spec fn first_entry_of(s: Seq<EntryView>, player_id: Seq<char>, i: int) -> bool {
    &&& 0 <= i < s.len()
    &&& s[i].player_id == player_id
    &&& forall|j: int| 0 <= j < i ==> (#[trigger] s[j]).player_id != player_id
}

/// The position of the first entry of `player_id` in `s`.
pub open spec fn player_index(s: Seq<EntryView>, player_id: Seq<char>) -> int {
    choose|i: int| first_entry_of(s, player_id, i)
}

/// The rank that `s` gives `player_id`.
pub open spec fn rank_of(s: Seq<EntryView>, player_id: Seq<char>) -> u32 {
    s[player_index(s, player_id)].rank
}

/// `e` with the score `score`.
pub open spec fn scoring(e: EntryView, score: u64) -> EntryView {
    EntryView { player_id: e.player_id, score: score, rank: e.rank }
}

/// The entries of `s` once `player_id` has submitted `score`, not yet
/// ranked again: the player's entry takes the score where it is strictly
/// higher than the one it holds; a player without an entry gets one at the
/// end.
pub open spec fn with_score(s: Seq<EntryView>, player_id: Seq<char>, score: u64) -> Seq<
    EntryView,
> {
    if has_player(s, player_id) {
        let i = player_index(s, player_id);
        if score > s[i].score {
            s.update(i, scoring(s[i], score))
        } else {
            s
        }
    } else {
        s.push(EntryView { player_id: player_id, score: score, rank: 1 })
    }
}

/// The first entry of a player is the one that `player_index` names.
pub proof fn lemma_first_entry(s: Seq<EntryView>, player_id: Seq<char>, i: int)
    requires
        first_entry_of(s, player_id, i),
    ensures
        has_player(s, player_id),
        player_index(s, player_id) == i,
{
    let c = player_index(s, player_id);
    assert(first_entry_of(s, player_id, c));
    if c < i {
        assert(s[c].player_id != player_id);
    }
    if i < c {
        assert(s[i].player_id != player_id);
    }
}

/// A player with an entry has a first entry.
pub proof fn lemma_has_first_entry(s: Seq<EntryView>, player_id: Seq<char>)
    requires
        has_player(s, player_id),
    ensures
        first_entry_of(s, player_id, player_index(s, player_id)),
    decreases s.len(),
{
    let k = choose|k: int| 0 <= k < s.len() && (#[trigger] s[k]).player_id == player_id;
    lemma_first_before(s, player_id, k);
}

proof fn lemma_first_before(s: Seq<EntryView>, player_id: Seq<char>, k: int)
    requires
        0 <= k < s.len(),
        s[k].player_id == player_id,
    ensures
        exists|i: int| first_entry_of(s, player_id, i),
    decreases k,
{
    if exists|j: int| 0 <= j < k && (#[trigger] s[j]).player_id == player_id {
        let j = choose|j: int| 0 <= j < k && (#[trigger] s[j]).player_id == player_id;
        lemma_first_before(s, player_id, j);
    } else {
        assert(first_entry_of(s, player_id, k));
    }
}

/// A tournament as the engine keeps it: a proper time window, a capacity
/// within the limit, no more entries than the capacity, one entry to a
/// player, and the entries ranked.
pub open spec fn valid_tournament(t: TournamentView) -> bool {
    &&& t.start_time < t.end_time
    &&& 1 <= t.max_entries <= MAX_TOURNAMENT_ENTRIES
    &&& t.entries.len() <= t.max_entries
    &&& is_ranked(t.entries)
    &&& distinct_players(t.entries)
}

/// A global leaderboard as the engine keeps it: within its capacity, one
/// entry to a player, ranked.
pub open spec fn valid_leaderboard(s: Seq<EntryView>) -> bool {
    &&& s.len() <= GLOBAL_LEADERBOARD_CAPACITY
    &&& is_ranked(s)
    &&& distinct_players(s)
}

/// `now` lies in the window in which `t` accepts scores, both ends
/// included.
pub open spec fn is_active(t: TournamentView, now: u64) -> bool {
    t.start_time <= now <= t.end_time
}

/// Why `t` refuses a score of `player_id` at `now`, if it does.
pub open spec fn entry_error(t: TournamentView, player_id: Seq<char>, now: u64) -> Option<Error> {
    if !is_active(t, now) {
        Some(Error::TournamentNotActive)
    } else if !has_player(t.entries, player_id) && t.entries.len() >= t.max_entries {
        Some(Error::TournamentFull)
    } else {
        None
    }
}

/// `t` once it has accepted `score` from `player_id`.
pub open spec fn with_entry(t: TournamentView, player_id: Seq<char>, score: u64) -> TournamentView {
    TournamentView {
        id: t.id,
        game_id: t.game_id,
        start_time: t.start_time,
        end_time: t.end_time,
        max_entries: t.max_entries,
        entries: ranked(with_score(t.entries, player_id, score)),
    }
}

/// A global leaderboard once `player_id` has submitted `score`: ranked
/// again, and cut to its capacity from the tail.
pub open spec fn global_after(s: Seq<EntryView>, player_id: Seq<char>, score: u64) -> Seq<
    EntryView,
> {
    keep_first(ranked(with_score(s, player_id, score)), GLOBAL_LEADERBOARD_CAPACITY as int)
}

/// A history once `record` is added: cut to its capacity from the head.
pub open spec fn history_after(h: Seq<RecordView>, record: RecordView) -> Seq<
    RecordView,
> {
    keep_last(h.push(record), PLAYER_HISTORY_CAPACITY as int)
}

/// What holds of every state that the engine reaches.
pub open spec fn valid_storage(v: StorageView) -> bool {
    &&& forall|id: Seq<char>| #[trigger]
        v.tournaments.dom().contains(id) ==> valid_tournament(v.tournaments[id])
            && v.tournaments[id].id == id
    &&& forall|g: Seq<char>| #[trigger]
        v.leaderboards.dom().contains(g) ==> valid_leaderboard(v.leaderboards[g])
    &&& forall|p: Seq<char>| #[trigger]
        v.histories.dom().contains(p) ==> v.histories[p].len() <= PLAYER_HISTORY_CAPACITY
    &&& forall|id: Seq<char>| #[trigger]
        v.tournaments.dom().contains(id) ==> v.tournament_list.contains(id)
    &&& forall|i: int|
        0 <= i < v.tournament_list.len() ==> v.tournaments.dom().contains(
            #[trigger] v.tournament_list[i],
        )
    &&& v.tournament_list.no_duplicates()
}

/// A submission keeps every player's entry, lowers no score, and adds an
/// entry only for a player that had none.
pub proof fn lemma_with_score(s: Seq<EntryView>, player_id: Seq<char>, score: u64)
    ensures
        has_player(with_score(s, player_id, score), player_id),
        has_player(s, player_id) ==> with_score(s, player_id, score).len() == s.len(),
        !has_player(s, player_id) ==> with_score(s, player_id, score).len() == s.len() + 1,
        forall|i: int|
            0 <= i < s.len() ==> (#[trigger] with_score(s, player_id, score)[i]).player_id
                == s[i].player_id && with_score(s, player_id, score)[i].score >= s[i].score,
        distinct_players(s) ==> distinct_players(with_score(s, player_id, score)),
{
    let r = with_score(s, player_id, score);
    if has_player(s, player_id) {
        lemma_has_first_entry(s, player_id);
        let i = player_index(s, player_id);
        assert(r[i].player_id == player_id);
        if distinct_players(s) {
            assert forall|a: int, b: int| 0 <= a < b < r.len() implies r[a].player_id
                != r[b].player_id by {
                assert(s[a].player_id != s[b].player_id);
            }
        }
    } else {
        assert(r[s.len() as int].player_id == player_id);
        if distinct_players(s) {
            assert forall|a: int, b: int| 0 <= a < b < r.len() implies r[a].player_id
                != r[b].player_id by {
                if b < s.len() {
                    assert(s[a].player_id != s[b].player_id);
                } else {
                    assert(s[a].player_id != player_id);
                }
            }
        }
    }
}

/// After a submission the player is on the ranked leaderboard.
pub proof fn lemma_ranked_has_player(s: Seq<EntryView>, player_id: Seq<char>, score: u64)
    ensures
        has_player(ranked(with_score(s, player_id, score)), player_id),
{
    let w = with_score(s, player_id, score);
    lemma_with_score(s, player_id, score);
    lemma_ranked_keeps_scores(w);
    let k = choose|k: int| 0 <= k < w.len() && (#[trigger] w[k]).player_id == player_id;
    let j = choose|j: int|
        0 <= j < ranked(w).len() && ranked(w)[j].player_id == w[k].player_id && ranked(w)[j].score
            == w[k].score;
    assert(ranked(w)[j].player_id == player_id);
}

/// An accepted submission leaves a tournament as the engine keeps it.
pub proof fn lemma_with_entry_valid(t: TournamentView, player_id: Seq<char>, score: u64, now: u64)
    requires
        valid_tournament(t),
        entry_error(t, player_id, now).is_none(),
    ensures
        valid_tournament(with_entry(t, player_id, score)),
{
    let w = with_score(t.entries, player_id, score);
    lemma_with_score(t.entries, player_id, score);
    lemma_ranked_is_ranked(w);
    lemma_ranked_keeps_scores(w);
}

/// The head of a ranked leaderboard is a ranked leaderboard, and holds no
/// player twice where the whole did not.
pub proof fn lemma_head_is_ranked(s: Seq<EntryView>, capacity: int)
    requires
        0 <= capacity,
        is_ranked(s),
    ensures
        is_ranked(keep_first(s, capacity)),
        distinct_players(s) ==> distinct_players(keep_first(s, capacity)),
{
    let g = keep_first(s, capacity);
    assert forall|i: int, j: int| 0 <= i < j < g.len() implies g[i].score >= g[j].score by {
        assert(s[i].score >= s[j].score);
    }
    assert forall|i: int| 0 <= i < g.len() implies g[i].rank == i + 1 by {
        assert(s[i].rank == i + 1);
    }
    if distinct_players(s) {
        assert forall|i: int, j: int| 0 <= i < j < g.len() implies g[i].player_id
            != g[j].player_id by {
            assert(s[i].player_id != s[j].player_id);
        }
    }
}

/// A submission leaves a global leaderboard as the engine keeps it.
pub proof fn lemma_global_after_valid(s: Seq<EntryView>, player_id: Seq<char>, score: u64)
    requires
        valid_leaderboard(s),
    ensures
        valid_leaderboard(global_after(s, player_id, score)),
{
    let w = with_score(s, player_id, score);
    assert(distinct_players(w) && w.len() <= u32::MAX) by {
        lemma_with_score(s, player_id, score);
    }
    assert(is_ranked(ranked(w))) by {
        lemma_ranked_is_ranked(w);
    }
    assert(distinct_players(ranked(w))) by {
        lemma_ranked_keeps_scores(w);
    }
    lemma_head_is_ranked(ranked(w), GLOBAL_LEADERBOARD_CAPACITY as int);
}

} // verus!
