//! What it means to rank a leaderboard: order by score, highest first,
//! entries of equal score in the order they came in, and number the places
//! from 1.

use vstd::prelude::*;
use crate::types::EntryView;

verus! {

/// `s` with `e` put behind every entry whose score is at least `e.score`.
pub open spec fn insert_by_score(s: Seq<EntryView>, e: EntryView) -> Seq<EntryView>
    decreases s.len(),
{
    if s.len() > 0 && s.last().score < e.score {
        insert_by_score(s.drop_last(), e).push(s.last())
    } else {
        s.push(e)
    }
}

/// The entries of `s` by descending score; entries of equal score keep the
/// order they have in `s`.
pub open spec fn sort_by_score(s: Seq<EntryView>) -> Seq<EntryView>
    decreases s.len(),
{
    if s.len() == 0 {
        s
    } else {
        insert_by_score(sort_by_score(s.drop_last()), s.last())
    }
}

/// `e` at place `i` (counted from 0) of a leaderboard.
pub open spec fn placed(e: EntryView, i: int) -> EntryView {
    EntryView { player_id: e.player_id, score: e.score, rank: (i + 1) as u32 }
}

/// The entries of `s`, each with the rank of its position: the first has
/// rank 1.
pub open spec fn number_ranks(s: Seq<EntryView>) -> Seq<EntryView> {
    Seq::new(s.len(), |i: int| placed(s[i], i))
}

/// The leaderboard that holds the entries of `s`: ordered by descending
/// score, ties in the order of `s`, ranks by position.
pub open spec fn ranked(s: Seq<EntryView>) -> Seq<EntryView> {
    number_ranks(sort_by_score(s))
}

/// No entry has a higher score than an entry before it.
pub open spec fn descending(s: Seq<EntryView>) -> bool {
    forall|i: int, j: int| 0 <= i < j < s.len() ==> s[i].score >= s[j].score
}

/// Every entry has a lower score than each entry before it.
pub open spec fn strictly_descending(s: Seq<EntryView>) -> bool {
    forall|i: int, j: int| 0 <= i < j < s.len() ==> s[i].score > s[j].score
}

/// No two entries have the same score.
pub open spec fn distinct_scores(s: Seq<EntryView>) -> bool {
    forall|i: int, j: int| 0 <= i < j < s.len() ==> s[i].score != s[j].score
}

/// The entry at position `i` has rank `i + 1`.
pub open spec fn ranks_by_position(s: Seq<EntryView>) -> bool {
    forall|i: int| 0 <= i < s.len() ==> s[i].rank == i + 1
}

/// `s` is a leaderboard in its final form.
pub open spec fn is_ranked(s: Seq<EntryView>) -> bool {
    descending(s) && ranks_by_position(s)
}

/// Inserting adds one entry.
pub proof fn lemma_insert_len(s: Seq<EntryView>, e: EntryView)
    ensures
        insert_by_score(s, e).len() == s.len() + 1,
    decreases s.len(),
{
    if s.len() > 0 && s.last().score < e.score {
        lemma_insert_len(s.drop_last(), e);
    }
}

/// Sorting keeps the number of entries.
pub proof fn lemma_sort_len(s: Seq<EntryView>)
    ensures
        sort_by_score(s).len() == s.len(),
    decreases s.len(),
{
    if s.len() > 0 {
        lemma_sort_len(s.drop_last());
        lemma_insert_len(sort_by_score(s.drop_last()), s.last());
    }
}

/// Where the entries from `j` on all score less than `e`, inserting `e`
/// into `s` inserts it into the first `j` entries and leaves the rest
/// behind it.
pub proof fn lemma_insert_split(s: Seq<EntryView>, e: EntryView, j: int)
    requires
        0 <= j <= s.len(),
        forall|k: int| j <= k < s.len() ==> s[k].score < e.score,
    ensures
        insert_by_score(s, e) == insert_by_score(s.subrange(0, j), e) + s.subrange(
            j,
            s.len() as int,
        ),
    decreases s.len() - j,
{
    if j == s.len() {
        assert(s.subrange(0, j) =~= s);
        assert(insert_by_score(s, e) + s.subrange(j, s.len() as int) =~= insert_by_score(s, e));
    } else {
        let t = s.drop_last();
        lemma_insert_split(t, e, j);
        assert(t.subrange(0, j) =~= s.subrange(0, j));
        assert((insert_by_score(s.subrange(0, j), e) + t.subrange(j, t.len() as int)).push(
            s.last(),
        ) =~= insert_by_score(s.subrange(0, j), e) + s.subrange(j, s.len() as int));
    }
}

/// Inserting into a descending sequence leaves it descending.
pub proof fn lemma_insert_descending(s: Seq<EntryView>, e: EntryView)
    requires
        descending(s),
    ensures
        descending(insert_by_score(s, e)),
        forall|k: int|
            0 <= k < insert_by_score(s, e).len() ==> insert_by_score(s, e)[k] == e || exists|
                m: int,
            |
                0 <= m < s.len() && s[m] == #[trigger] insert_by_score(s, e)[k],
    decreases s.len(),
{
    let r = insert_by_score(s, e);
    lemma_insert_len(s, e);
    if s.len() > 0 && s.last().score < e.score {
        let t = s.drop_last();
        let u = insert_by_score(t, e);
        lemma_insert_descending(t, e);
        lemma_insert_len(t, e);
        assert forall|k: int| 0 <= k < r.len() implies r[k] == e || exists|m: int|
            0 <= m < s.len() && s[m] == #[trigger] r[k] by {
            if k < u.len() {
                if u[k] != e {
                    let m = choose|m: int| 0 <= m < t.len() && t[m] == u[k];
                    assert(s[m] == r[k]);
                }
            } else {
                assert(s[s.len() - 1] == r[k]);
            }
        }
        assert forall|i: int, j: int| 0 <= i < j < r.len() implies r[i].score >= r[j].score by {
            if j < u.len() {
                assert(u[i].score >= u[j].score);
            } else {
                if u[i] != e {
                    let m = choose|m: int| 0 <= m < t.len() && t[m] == u[i];
                    assert(s[m].score >= s[s.len() - 1].score);
                }
            }
        }
    } else {
        assert forall|k: int| 0 <= k < r.len() implies r[k] == e || exists|m: int|
            0 <= m < s.len() && s[m] == #[trigger] r[k] by {
            if k < s.len() {
                assert(s[k] == r[k]);
            }
        }
        assert forall|i: int, j: int| 0 <= i < j < r.len() implies r[i].score >= r[j].score by {
            if j == s.len() && s.len() > 0 {
                assert(s[i].score >= s[s.len() - 1].score);
            }
        }
    }
}

/// A sorted sequence is descending.
pub proof fn lemma_sort_descending(s: Seq<EntryView>)
    ensures
        descending(sort_by_score(s)),
    decreases s.len(),
{
    if s.len() > 0 {
        lemma_sort_descending(s.drop_last());
        lemma_insert_descending(sort_by_score(s.drop_last()), s.last());
    }
}

/// Sorting leaves a descending sequence as it is.
pub proof fn lemma_sort_fixes_descending(s: Seq<EntryView>)
    requires
        descending(s),
    ensures
        sort_by_score(s) == s,
    decreases s.len(),
{
    if s.len() > 0 {
        let t = s.drop_last();
        lemma_sort_fixes_descending(t);
        if t.len() > 0 {
            assert(s[t.len() - 1].score >= s[s.len() - 1].score);
        }
        assert(t.push(s.last()) =~= s);
    }
}

/// A ranked leaderboard has as many entries as went in, is descending and
/// carries the ranks 1, 2, 3 and so on.
pub proof fn lemma_ranked_is_ranked(s: Seq<EntryView>)
    ensures
        ranked(s).len() == s.len(),
        descending(ranked(s)),
        s.len() <= u32::MAX ==> is_ranked(ranked(s)),
{
    lemma_sort_len(s);
    lemma_sort_descending(s);
    let t = sort_by_score(s);
    assert forall|i: int, j: int| 0 <= i < j < t.len() implies ranked(s)[i].score >= ranked(
        s,
    )[j].score by {
        assert(t[i].score >= t[j].score);
    }
}

/// Ranking leaves a ranked leaderboard as it is.
pub proof fn lemma_ranked_fixes_ranked(s: Seq<EntryView>)
    requires
        is_ranked(s),
    ensures
        ranked(s) == s,
{
    lemma_sort_fixes_descending(s);
    assert(number_ranks(s) =~= s);
}

/// The place that `e` takes in `s`: behind every entry whose score is at
/// least `e.score`.
pub open spec fn insert_position(s: Seq<EntryView>, e: EntryView) -> int
    decreases s.len(),
{
    if s.len() > 0 && s.last().score < e.score {
        insert_position(s.drop_last(), e)
    } else {
        s.len() as int
    }
}

/// Inserting by score puts the entry at its place and moves nothing else.
pub proof fn lemma_insert_position(s: Seq<EntryView>, e: EntryView)
    ensures
        0 <= insert_position(s, e) <= s.len(),
        insert_by_score(s, e) == s.insert(insert_position(s, e), e),
    decreases s.len(),
{
    if s.len() > 0 && s.last().score < e.score {
        let t = s.drop_last();
        lemma_insert_position(t, e);
        assert(t.insert(insert_position(t, e), e).push(s.last()) =~= s.insert(
            insert_position(s, e),
            e,
        ));
    } else {
        assert(s.push(e) =~= s.insert(s.len() as int, e));
    }
}

/// `s` and `t` hold the same players with the same scores: each entry of
/// one has an entry of the other with its player and its score.
pub open spec fn same_scores(s: Seq<EntryView>, t: Seq<EntryView>) -> bool {
    &&& s.len() == t.len()
    &&& scores_within(s, t)
    &&& scores_within(t, s)
}

/// No player has two entries.
pub open spec fn distinct_players(s: Seq<EntryView>) -> bool {
    forall|i: int, j: int| 0 <= i < j < s.len() ==> s[i].player_id != s[j].player_id
}

/// Sorting keeps every entry, and adds none.
pub proof fn lemma_sort_keeps_entries(s: Seq<EntryView>)
    ensures
        sort_by_score(s).len() == s.len(),
        forall|i: int| 0 <= i < s.len() ==> sort_by_score(s).contains(#[trigger] s[i]),
        forall|j: int| 0 <= j < s.len() ==> s.contains(#[trigger] sort_by_score(s)[j]),
        distinct_players(s) ==> distinct_players(sort_by_score(s)),
    decreases s.len(),
{
    lemma_sort_len(s);
    if s.len() > 0 {
        let t = s.drop_last();
        let e = s.last();
        let u = sort_by_score(t);
        let r = sort_by_score(s);
        lemma_sort_keeps_entries(t);
        lemma_sort_len(t);
        lemma_insert_position(u, e);
        let pos = insert_position(u, e);
        assert(r == u.insert(pos, e));
        assert forall|i: int| 0 <= i < s.len() implies r.contains(#[trigger] s[i]) by {
            if i < t.len() {
                assert(s[i] == t[i]);
                assert(u.contains(t[i]));
                let k = choose|k: int| 0 <= k < u.len() && u[k] == t[i];
                if k < pos {
                    assert(r[k] == s[i]);
                } else {
                    assert(r[k + 1] == s[i]);
                }
            } else {
                assert(r[pos] == s[i]);
            }
        }
        assert forall|j: int| 0 <= j < s.len() implies s.contains(#[trigger] r[j]) by {
            if j == pos {
                assert(s[s.len() - 1] == r[j]);
            } else {
                let k = if j < pos {
                    j
                } else {
                    j - 1
                };
                assert(r[j] == u[k]);
                assert(t.contains(u[k]));
                let m = choose|m: int| 0 <= m < t.len() && t[m] == u[k];
                assert(s[m] == r[j]);
            }
        }
        if distinct_players(s) {
            assert(distinct_players(t)) by {
                assert forall|i: int, j: int| 0 <= i < j < t.len() implies t[i].player_id
                    != t[j].player_id by {
                    assert(s[i].player_id != s[j].player_id);
                }
            }
            assert forall|k: int| 0 <= k < u.len() implies (#[trigger] u[k]).player_id
                != e.player_id by {
                assert(t.contains(u[k]));
                let m = choose|m: int| 0 <= m < t.len() && t[m] == u[k];
                assert(s[m].player_id != s[s.len() - 1].player_id);
            }
            assert forall|i: int, j: int| 0 <= i < j < r.len() implies r[i].player_id
                != r[j].player_id by {
                let a = if i < pos {
                    i
                } else {
                    i - 1
                };
                let b = if j < pos {
                    j
                } else {
                    j - 1
                };
                if i == pos {
                    assert(r[j] == u[b]);
                } else if j == pos {
                    assert(r[i] == u[a]);
                } else {
                    assert(r[i] == u[a] && r[j] == u[b]);
                    assert(u[a].player_id != u[b].player_id);
                }
            }
        }
    }
}

/// Each entry of `s` has an entry of `t` with its player and its score.
pub open spec fn scores_within(s: Seq<EntryView>, t: Seq<EntryView>) -> bool {
    forall|i: int|
        0 <= i < s.len() ==> exists|j: int|
            0 <= j < t.len() && t[j].player_id == (#[trigger] s[i]).player_id && t[j].score
                == s[i].score
}

proof fn lemma_ranked_holds_given(s: Seq<EntryView>)
    ensures
        scores_within(s, ranked(s)),
{
    let u = sort_by_score(s);
    let r = ranked(s);
    lemma_sort_keeps_entries(s);
    assert forall|i: int| 0 <= i < s.len() implies exists|j: int|
        0 <= j < r.len() && r[j].player_id == (#[trigger] s[i]).player_id && r[j].score
            == s[i].score by {
        assert(u.contains(s[i]));
        let k = choose|k: int| 0 <= k < u.len() && u[k] == s[i];
        assert(r[k] == placed(u[k], k));
        assert(0 <= k < r.len() && r[k].player_id == s[i].player_id && r[k].score == s[i].score);
    }
}

proof fn lemma_given_holds_ranked(s: Seq<EntryView>)
    ensures
        scores_within(ranked(s), s),
{
    let u = sort_by_score(s);
    let r = ranked(s);
    lemma_sort_keeps_entries(s);
    assert forall|j: int| 0 <= j < r.len() implies exists|i: int|
        0 <= i < s.len() && s[i].player_id == (#[trigger] r[j]).player_id && s[i].score
            == r[j].score by {
        assert(r[j] == placed(u[j], j));
        assert(s.contains(u[j]));
        let m = choose|m: int| 0 <= m < s.len() && s[m] == u[j];
        assert(0 <= m < s.len() && s[m].player_id == r[j].player_id && s[m].score == r[j].score);
    }
}

proof fn lemma_ranked_distinct(s: Seq<EntryView>)
    requires
        distinct_players(s),
    ensures
        distinct_players(ranked(s)),
{
    let u = sort_by_score(s);
    let r = ranked(s);
    lemma_sort_keeps_entries(s);
    assert forall|i: int, j: int| 0 <= i < j < r.len() implies r[i].player_id
        != r[j].player_id by {
        assert(r[i] == placed(u[i], i));
        assert(r[j] == placed(u[j], j));
        assert(u[i].player_id != u[j].player_id);
    }
}

/// A ranked leaderboard holds the players that went in, each with the
/// score it came with, and no player twice unless it came twice.
pub proof fn lemma_ranked_keeps_scores(s: Seq<EntryView>)
    ensures
        same_scores(s, ranked(s)),
        distinct_players(s) ==> distinct_players(ranked(s)),
{
    lemma_sort_len(s);
    lemma_ranked_holds_given(s);
    lemma_given_holds_ranked(s);
    if distinct_players(s) {
        lemma_ranked_distinct(s);
    }
}

/// Where no two entries of a descending sequence have the same score, each
/// entry scores strictly less than those before it.
pub proof fn lemma_descending_strict(s: Seq<EntryView>)
    requires
        descending(s),
        distinct_scores(s),
    ensures
        strictly_descending(s),
{
}

/// The entries of `s` that score exactly `score`, in the order of `s`.
pub open spec fn with_score_of(s: Seq<EntryView>, score: u64) -> Seq<EntryView>
    decreases s.len(),
{
    if s.len() == 0 {
        s
    } else if s.last().score == score {
        with_score_of(s.drop_last(), score).push(s.last())
    } else {
        with_score_of(s.drop_last(), score)
    }
}

proof fn lemma_insert_keeps_ties(s: Seq<EntryView>, e: EntryView, score: u64)
    ensures
        with_score_of(insert_by_score(s, e), score) == (if e.score == score {
            with_score_of(s, score).push(e)
        } else {
            with_score_of(s, score)
        }),
    decreases s.len(),
{
    if s.len() > 0 && s.last().score < e.score {
        let t = s.drop_last();
        let u = insert_by_score(t, e);
        lemma_insert_keeps_ties(t, e, score);
        assert(u.push(s.last()).drop_last() =~= u);
    } else {
        assert(s.push(e).drop_last() =~= s);
    }
}

/// Sorting moves no entry past an entry of the same score: for each score,
/// the entries that hold it come out in the order in which they went in.
pub proof fn lemma_sort_keeps_ties(s: Seq<EntryView>, score: u64)
    ensures
        with_score_of(sort_by_score(s), score) == with_score_of(s, score),
    decreases s.len(),
{
    if s.len() > 0 {
        lemma_sort_keeps_ties(s.drop_last(), score);
        lemma_insert_keeps_ties(sort_by_score(s.drop_last()), s.last(), score);
    }
}

proof fn lemma_tie_found(s: Seq<EntryView>, score: u64, i: int)
    requires
        0 <= i < s.len(),
        s[i].score == score,
    ensures
        with_score_of(s, score).len() > 0,
    decreases s.len(),
{
    if i < s.len() - 1 {
        lemma_tie_found(s.drop_last(), score, i);
    }
}

proof fn lemma_tie_exists(s: Seq<EntryView>, score: u64) -> (i: int)
    requires
        with_score_of(s, score).len() > 0,
    ensures
        0 <= i < s.len(),
        s[i].score == score,
    decreases s.len(),
{
    if s.last().score == score {
        s.len() - 1
    } else {
        lemma_tie_exists(s.drop_last(), score)
    }
}

proof fn lemma_lowest_comes_last(a: Seq<EntryView>, b: Seq<EntryView>)
    requires
        descending(a),
        descending(b),
        a.len() > 0,
        forall|x: u64| with_score_of(a, x) == with_score_of(b, x),
    ensures
        b.len() > 0,
        b.last().score <= a.last().score,
{
    let m = a.last().score;
    lemma_tie_found(a, m, a.len() - 1);
    assert(with_score_of(b, m).len() > 0);
    let j = lemma_tie_exists(b, m);
    if j < b.len() - 1 {
        assert(b[j].score >= b[b.len() - 1].score);
    }
}

/// Two descending sequences of the same length that hold, for each score,
/// the same entries in the same order are the same sequence.
pub proof fn lemma_ranking_is_unique(a: Seq<EntryView>, b: Seq<EntryView>)
    requires
        descending(a),
        descending(b),
        a.len() == b.len(),
        forall|x: u64| with_score_of(a, x) == with_score_of(b, x),
    ensures
        a == b,
    decreases a.len(),
{
    if a.len() > 0 {
        lemma_lowest_comes_last(a, b);
        lemma_lowest_comes_last(b, a);
        let m = a.last().score;
        let a0 = a.drop_last();
        let b0 = b.drop_last();
        assert(with_score_of(a, m) == with_score_of(a0, m).push(a.last()));
        assert(with_score_of(b, m) == with_score_of(b0, m).push(b.last()));
        assert(a.last() == b.last()) by {
            assert(with_score_of(a, m).last() == a.last());
            assert(with_score_of(b, m).last() == b.last());
        }
        assert forall|x: u64| with_score_of(a0, x) == with_score_of(b0, x) by {
            if x == m {
                assert(with_score_of(a, m).drop_last() =~= with_score_of(a0, m));
                assert(with_score_of(b, m).drop_last() =~= with_score_of(b0, m));
            } else {
                assert(with_score_of(a, x) == with_score_of(a0, x));
                assert(with_score_of(b, x) == with_score_of(b0, x));
            }
        }
        assert(descending(a0)) by {
            assert forall|i: int, j: int| 0 <= i < j < a0.len() implies a0[i].score
                >= a0[j].score by {
                assert(a[i].score >= a[j].score);
            }
        }
        assert(descending(b0)) by {
            assert forall|i: int, j: int| 0 <= i < j < b0.len() implies b0[i].score
                >= b0[j].score by {
                assert(b[i].score >= b[j].score);
            }
        }
        lemma_ranking_is_unique(a0, b0);
        assert(a =~= a0.push(a.last()));
        assert(b =~= b0.push(b.last()));
    } else {
        assert(a =~= b);
    }
}

/// Sorting by score is the one way to order entries by descending score
/// that keeps, for each score, the entries that hold it in the order they
/// came in.
pub proof fn lemma_sort_is_the_stable_order(s: Seq<EntryView>, r: Seq<EntryView>)
    requires
        r.len() == s.len(),
        descending(r),
        forall|x: u64| with_score_of(r, x) == with_score_of(s, x),
    ensures
        r == sort_by_score(s),
{
    lemma_sort_len(s);
    lemma_sort_descending(s);
    assert forall|x: u64| with_score_of(r, x) == with_score_of(sort_by_score(s), x) by {
        lemma_sort_keeps_ties(s, x);
    }
    lemma_ranking_is_unique(r, sort_by_score(s));
}

} // verus!
