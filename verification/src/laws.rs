//! What holds of tournaments, global leaderboards and histories whatever is
//! submitted, proved from the rules.

use vstd::prelude::*;
use crate::errors::Error;
use crate::ranking::{
    descending, distinct_players, distinct_scores, lemma_descending_strict,
    lemma_ranked_fixes_ranked, lemma_ranked_is_ranked, lemma_ranked_keeps_scores, ranked,
    ranks_by_position, strictly_descending,
};
use crate::rules::{
    entry_error, first_entry_of, global_after, has_player, history_after, is_active,
    lemma_first_entry, lemma_has_first_entry, lemma_ranked_has_player, lemma_with_entry_valid,
    lemma_with_score, player_index, valid_tournament, with_entry, with_score,
    GLOBAL_LEADERBOARD_CAPACITY, PLAYER_HISTORY_CAPACITY,
};
use crate::scores::submitted;
use crate::storage::StorageView;
use crate::types::{EntryView, RecordView, TournamentView};

verus! {

/// A score that a player hands in at some time.
pub struct Submission {
    pub player_id: Seq<char>,
    pub score: u64,
    pub now: u64,
}

/// `t` after `s` is handed in: with the score where the tournament accepts
/// it, unchanged where it refuses.
pub open spec fn after_submission(t: TournamentView, s: Submission) -> TournamentView {
    if entry_error(t, s.player_id, s.now).is_none() {
        with_entry(t, s.player_id, s.score)
    } else {
        t
    }
}

/// `t` after the submissions of `subs` are handed in, one after the other.
pub open spec fn after_submissions(t: TournamentView, subs: Seq<Submission>) -> TournamentView
    decreases subs.len(),
{
    if subs.len() == 0 {
        t
    } else {
        after_submission(after_submissions(t, subs.drop_last()), subs.last())
    }
}

/// The score that `s` holds for `player_id`.
pub open spec fn score_of(s: Seq<EntryView>, player_id: Seq<char>) -> u64 {
    s[player_index(s, player_id)].score
}

/// In a leaderboard with one entry to a player, any entry of a player is
/// the one that `player_index` names.
pub proof fn lemma_only_entry(s: Seq<EntryView>, player_id: Seq<char>, i: int)
    requires
        distinct_players(s),
        0 <= i < s.len(),
        s[i].player_id == player_id,
    ensures
        has_player(s, player_id),
        player_index(s, player_id) == i,
{
    assert forall|j: int| 0 <= j < i implies (#[trigger] s[j]).player_id != player_id by {
        assert(s[j].player_id != s[i].player_id);
    }
    assert(first_entry_of(s, player_id, i));
    lemma_first_entry(s, player_id, i);
}

/// Whatever is submitted to a tournament, in whatever order, its entries
/// stay ordered by descending score with the ranks 1, 2, 3 and so on, never
/// outnumber `max_entries`, and hold no player twice.
pub proof fn law_submissions_keep_ranking(t: TournamentView, subs: Seq<Submission>)
    requires
        valid_tournament(t),
    ensures
        valid_tournament(after_submissions(t, subs)),
        descending(after_submissions(t, subs).entries),
        ranks_by_position(after_submissions(t, subs).entries),
        after_submissions(t, subs).entries.len() <= after_submissions(t, subs).max_entries,
        after_submissions(t, subs).max_entries == t.max_entries,
    decreases subs.len(),
{
    if subs.len() > 0 {
        let before = after_submissions(t, subs.drop_last());
        let s = subs.last();
        law_submissions_keep_ranking(t, subs.drop_last());
        if entry_error(before, s.player_id, s.now).is_none() {
            lemma_with_entry_valid(before, s.player_id, s.score, s.now);
        }
    }
}

/// Where no two players of a tournament hold the same score, each entry
/// scores strictly less than the entries before it.
pub proof fn law_strict_order_without_ties(t: TournamentView, subs: Seq<Submission>)
    requires
        valid_tournament(t),
        distinct_scores(after_submissions(t, subs).entries),
    ensures
        strictly_descending(after_submissions(t, subs).entries),
{
    law_submissions_keep_ranking(t, subs);
    lemma_descending_strict(after_submissions(t, subs).entries);
}

/// A submission never lowers the score that a tournament holds for a
/// player, whoever submits: the player keeps an entry, with a score no
/// lower than before.
pub proof fn law_scores_never_regress(t: TournamentView, player_id: Seq<char>, s: Submission)
    requires
        valid_tournament(t),
        has_player(t.entries, player_id),
    ensures
        has_player(after_submission(t, s).entries, player_id),
        score_of(after_submission(t, s).entries, player_id) >= score_of(t.entries, player_id),
{
    if entry_error(t, s.player_id, s.now).is_none() {
        let w = with_score(t.entries, s.player_id, s.score);
        let r = ranked(w);
        lemma_has_first_entry(t.entries, player_id);
        let i = player_index(t.entries, player_id);
        lemma_with_score(t.entries, s.player_id, s.score);
        assert(w[i].player_id == player_id && w[i].score >= t.entries[i].score);
        lemma_ranked_keeps_scores(w);
        let j = choose|j: int|
            0 <= j < r.len() && r[j].player_id == w[i].player_id && r[j].score == w[i].score;
        lemma_only_entry(r, player_id, j);
    }
}

/// Over any sequence of submissions a player's score in a tournament never
/// goes down.
pub proof fn law_scores_never_regress_over_time(
    t: TournamentView,
    player_id: Seq<char>,
    subs: Seq<Submission>,
)
    requires
        valid_tournament(t),
        has_player(t.entries, player_id),
    ensures
        has_player(after_submissions(t, subs).entries, player_id),
        score_of(after_submissions(t, subs).entries, player_id) >= score_of(t.entries, player_id),
    decreases subs.len(),
{
    if subs.len() > 0 {
        law_scores_never_regress_over_time(t, player_id, subs.drop_last());
        law_submissions_keep_ranking(t, subs.drop_last());
        law_scores_never_regress(after_submissions(t, subs.drop_last()), player_id, subs.last());
    }
}

/// After an accepted submission the tournament holds for the player the
/// higher of the submitted score and the score it held before.
pub proof fn law_entry_holds_best_score(t: TournamentView, s: Submission)
    requires
        valid_tournament(t),
        entry_error(t, s.player_id, s.now).is_none(),
    ensures
        has_player(after_submission(t, s).entries, s.player_id),
        score_of(after_submission(t, s).entries, s.player_id) == (if has_player(
            t.entries,
            s.player_id,
        ) && score_of(t.entries, s.player_id) >= s.score {
            score_of(t.entries, s.player_id)
        } else {
            s.score
        }),
{
    let w = with_score(t.entries, s.player_id, s.score);
    let r = ranked(w);
    lemma_with_score(t.entries, s.player_id, s.score);
    lemma_ranked_keeps_scores(w);
    let k = if has_player(t.entries, s.player_id) {
        player_index(t.entries, s.player_id)
    } else {
        t.entries.len() as int
    };
    if has_player(t.entries, s.player_id) {
        lemma_has_first_entry(t.entries, s.player_id);
    }
    assert(w[k].player_id == s.player_id);
    let j = choose|j: int|
        0 <= j < r.len() && r[j].player_id == w[k].player_id && r[j].score == w[k].score;
    lemma_only_entry(r, s.player_id, j);
}

/// A full tournament refuses a player that has no entry with
/// `TournamentFull`, and is left as it was.
pub proof fn law_full_tournament_refuses_newcomer(t: TournamentView, s: Submission)
    requires
        is_active(t, s.now),
        !has_player(t.entries, s.player_id),
        t.entries.len() >= t.max_entries,
    ensures
        entry_error(t, s.player_id, s.now) == Some(Error::TournamentFull),
        after_submission(t, s) == t,
{
}

/// A global leaderboard never holds more than 1000 entries. What it holds
/// is the head of the ranking of all entries: what is dropped ranks below
/// everything that stays, and scores no higher.
pub proof fn law_global_keeps_top(s: Seq<EntryView>, player_id: Seq<char>, score: u64)
    ensures
        global_after(s, player_id, score).len() <= GLOBAL_LEADERBOARD_CAPACITY,
        global_after(s, player_id, score).len() <= ranked(with_score(s, player_id, score)).len(),
        forall|i: int|
            0 <= i < global_after(s, player_id, score).len() ==> (#[trigger] global_after(
                s,
                player_id,
                score,
            )[i]) == ranked(with_score(s, player_id, score))[i],
        forall|i: int, j: int|
            0 <= i < global_after(s, player_id, score).len() <= j < ranked(
                with_score(s, player_id, score),
            ).len() ==> global_after(s, player_id, score)[i].score >= ranked(
                with_score(s, player_id, score),
            )[j].score,
{
    let r = ranked(with_score(s, player_id, score));
    let g = global_after(s, player_id, score);
    lemma_ranked_is_ranked(with_score(s, player_id, score));
    assert forall|i: int, j: int| 0 <= i < g.len() <= j < r.len() implies g[i].score
        >= r[j].score by {
        assert(r[i].score >= r[j].score);
    }
}

/// A history never holds more than 100 records. It ends with the record
/// added last, and what is dropped is the oldest: the history is the tail
/// of the records in the order they came.
pub proof fn law_history_keeps_latest(h: Seq<RecordView>, record: RecordView)
    ensures
        history_after(h, record).len() <= PLAYER_HISTORY_CAPACITY,
        history_after(h, record).len() > 0,
        history_after(h, record).last() == record,
        h.len() < PLAYER_HISTORY_CAPACITY ==> history_after(h, record) == h.push(record),
        h.len() == PLAYER_HISTORY_CAPACITY ==> history_after(h, record) == h.drop_first().push(
            record,
        ),
        forall|i: int|
            0 <= i < history_after(h, record).len() ==> (#[trigger] history_after(h, record)[i])
                == h.push(record)[h.len() + 1 - history_after(h, record).len() + i],
{
    if h.len() == PLAYER_HISTORY_CAPACITY {
        assert(history_after(h, record) =~= h.drop_first().push(record));
    }
}

/// Submitting the same score of the same player a second time changes
/// nothing in the tournament: the player has exactly one entry, and the
/// leaderboard is the one that the first submission left.
pub proof fn law_resubmission_changes_nothing(t: TournamentView, s: Submission)
    requires
        valid_tournament(t),
        entry_error(t, s.player_id, s.now).is_none(),
    ensures
        entry_error(after_submission(t, s), s.player_id, s.now).is_none(),
        after_submission(after_submission(t, s), s) == after_submission(t, s),
        has_player(after_submission(t, s).entries, s.player_id),
        forall|i: int, j: int|
            0 <= i < after_submission(t, s).entries.len() && 0 <= j < after_submission(
                t,
                s,
            ).entries.len() && after_submission(t, s).entries[i].player_id == s.player_id
                && after_submission(t, s).entries[j].player_id == s.player_id ==> i == j,
{
    let t1 = after_submission(t, s);
    lemma_with_entry_valid(t, s.player_id, s.score, s.now);
    lemma_ranked_has_player(t.entries, s.player_id, s.score);
    law_entry_holds_best_score(t, s);
    assert(score_of(t1.entries, s.player_id) >= s.score);
    assert(with_score(t1.entries, s.player_id, s.score) == t1.entries);
    lemma_ranked_fixes_ranked(t1.entries);
    assert(with_entry(t1, s.player_id, s.score) == t1);
}

/// A submission to one tournament touches nothing else: every other
/// tournament, the leaderboard of every other game, the history of every
/// other player and the list of tournaments stay as they were.
pub proof fn law_submission_is_isolated(
    v: StorageView,
    tournament_id: Seq<char>,
    player_id: Seq<char>,
    score: u64,
    now: u64,
)
    requires
        v.tournaments.dom().contains(tournament_id),
    ensures
        submitted(v, tournament_id, player_id, score, now).tournament_list == v.tournament_list,
        forall|id: Seq<char>|
            id != tournament_id ==> (#[trigger] submitted(
                v,
                tournament_id,
                player_id,
                score,
                now,
            ).tournaments.dom().contains(id)) == v.tournaments.dom().contains(id),
        forall|id: Seq<char>|
            id != tournament_id && v.tournaments.dom().contains(id) ==> (#[trigger] submitted(
                v,
                tournament_id,
                player_id,
                score,
                now,
            ).tournaments[id]) == v.tournaments[id],
        forall|g: Seq<char>|
            g != v.tournaments[tournament_id].game_id ==> (#[trigger] submitted(
                v,
                tournament_id,
                player_id,
                score,
                now,
            ).leaderboard(g)) == v.leaderboard(g),
        forall|p: Seq<char>|
            p != player_id ==> (#[trigger] submitted(
                v,
                tournament_id,
                player_id,
                score,
                now,
            ).history(p)) == v.history(p),
{
}

} // verus!
