//! Ranking of leaderboard entries, the per-game global leaderboard and
//! paginated reads.

use vstd::prelude::*;
use crate::bounded::trim_tail;
use crate::errors::Error;
use crate::pagination::{paginate, paginate_spec};
use crate::ranking::{insert_by_score, lemma_insert_split, number_ranks, placed, ranked, sort_by_score};
use crate::rules::{
    first_entry_of, global_after, has_player, lemma_first_entry, lemma_global_after_valid,
    scoring, valid_leaderboard, valid_storage, with_score, GLOBAL_LEADERBOARD_CAPACITY,
};
use crate::storage::{Storage, StorageView};
use crate::types::{EntryView, LeaderboardEntry};

verus! {

/// Ranks `entries`: orders them by descending score and numbers them from
/// 1. An entry moves in front of those of its predecessors whose score is
/// strictly lower, so entries of equal score keep their order. Nothing is
/// copied or allocated.
pub fn sort_entries(entries: &mut Vec<LeaderboardEntry>)
    requires
        old(entries).len() <= u32::MAX,
    ensures
        final(entries).deep_view() == ranked(old(entries).deep_view()),
{
    let ghost given = entries.deep_view();
    let len: usize = entries.len();
    let mut i: usize = 0;
    while i < len
        invariant
            i <= len,
            entries.len() == len,
            given.len() == len,
            entries.deep_view().subrange(0, i as int) == sort_by_score(given.subrange(0, i as int)),
            entries.deep_view().subrange(i as int, len as int) == given.subrange(
                i as int,
                len as int,
            ),
        decreases len - i,
    {
        let ghost before = entries.deep_view();
        let ghost sorted = before.subrange(0, i as int);
        let ghost moving = before[i as int];
        assert(moving == given[i as int]) by {
            assert(before.subrange(i as int, len as int)[0] == given.subrange(
                i as int,
                len as int,
            )[0]);
        }
        let mut place: usize = i;
        while place > 0 && entries[place - 1].score < entries[i].score
            invariant
                place <= i < len,
                entries.len() == len,
                entries.deep_view() == before,
                before.len() == len,
                sorted == before.subrange(0, i as int),
                moving == before[i as int],
                forall|k: int| place <= k < i ==> sorted[k].score < moving.score,
            decreases place,
        {
            assert(sorted[place - 1] == before[place - 1]);
            place -= 1;
        }
        if place < i {
            let entry = entries.remove(i);
            entries.insert(place, entry);
        }
        proof {
            let now = entries.deep_view();
            let head = sorted.subrange(0, place as int);
            assert forall|k: int| 0 <= k < len implies #[trigger] now[k] == (if k < place {
                before[k]
            } else if k == place {
                moving
            } else if k <= i {
                before[k - 1]
            } else {
                before[k]
            }) by {}
            lemma_insert_split(sorted, moving, place as int);
            assert(insert_by_score(head, moving) == head.push(moving)) by {
                if place > 0 {
                    assert(head.last() == sorted[place - 1]);
                    assert(sorted[place - 1] == before[place - 1]);
                }
            }
            assert(now.subrange(0, i + 1) =~= head.push(moving) + sorted.subrange(
                place as int,
                i as int,
            ));
            assert(given.subrange(0, i + 1).drop_last() =~= given.subrange(0, i as int));
            assert(given.subrange(0, i + 1).last() == moving);
            assert(now.subrange(i + 1, len as int) =~= given.subrange(i + 1, len as int)) by {
                assert forall|k: int| i + 1 <= k < len implies now[k] == given[k] by {
                    assert(before.subrange(i as int, len as int)[k - i] == given.subrange(
                        i as int,
                        len as int,
                    )[k - i]);
                }
            }
        }
        i += 1;
    }
    let ghost sorted = entries.deep_view();
    assert(sorted == sort_by_score(given)) by {
        assert(sorted.subrange(0, len as int) =~= sorted);
        assert(given.subrange(0, len as int) =~= given);
    }
    let mut k: usize = 0;
    while k < len
        invariant
            k <= len <= u32::MAX,
            entries.len() == len,
            sorted.len() == len,
            forall|m: int| 0 <= m < k ==> entries.deep_view()[m] == placed(sorted[m], m),
            forall|m: int| k <= m < len ==> entries.deep_view()[m] == sorted[m],
        decreases len - k,
    {
        let ghost before = entries.deep_view();
        entries[k].rank = (k + 1) as u32;
        assert forall|m: int| 0 <= m < len implies entries.deep_view()[m] == (if m == k {
            placed(sorted[m], m)
        } else {
            before[m]
        }) by {}
        k += 1;
    }
    assert(entries.deep_view() =~= number_ranks(sorted));
}

/// The position of the first entry of `player_id` in `entries`, if the
/// player has one.
pub fn find_entry(entries: &Vec<LeaderboardEntry>, player_id: &String) -> (found: Option<usize>)
    ensures
        match found {
            Some(i) => first_entry_of(entries.deep_view(), player_id@, i as int),
            None => !has_player(entries.deep_view(), player_id@),
        },
{
    let mut i: usize = 0;
    while i < entries.len()
        invariant
            i <= entries.len(),
            forall|j: int| 0 <= j < i ==> (#[trigger] entries.deep_view()[j]).player_id != player_id@,
        decreases entries.len() - i,
    {
        if entries[i].player_id == *player_id {
            assert(entries.deep_view()[i as int].player_id == player_id@);
            return Some(i);
        }
        assert(entries.deep_view()[i as int].player_id != player_id@);
        i += 1;
    }
    None
}

/// Raises the score of the entry at `i` to `score` where that is strictly
/// higher than the score it holds.
pub fn improve_entry(entries: &mut Vec<LeaderboardEntry>, i: usize, score: u64)
    requires
        i < old(entries).len(),
    ensures
        final(entries).deep_view() == (if score > old(entries).deep_view()[i as int].score {
            old(entries).deep_view().update(
                i as int,
                scoring(old(entries).deep_view()[i as int], score),
            )
        } else {
            old(entries).deep_view()
        }),
{
    if score > entries[i].score {
        entries[i].score = score;
        assert(entries.deep_view() =~= old(entries).deep_view().update(
            i as int,
            scoring(old(entries).deep_view()[i as int], score),
        ));
    }
}

/// Puts a first entry for `player_id`, with `score`, at the end of
/// `entries`.
pub fn add_entry(entries: &mut Vec<LeaderboardEntry>, player_id: &String, score: u64)
    ensures
        final(entries).deep_view() == old(entries).deep_view().push(
            EntryView { player_id: player_id@, score: score, rank: 1 },
        ),
{
    entries.push(LeaderboardEntry { player_id: player_id.clone(), score: score, rank: 1 });
    assert(entries.deep_view() =~= old(entries).deep_view().push(
        EntryView { player_id: player_id@, score: score, rank: 1 },
    ));
}

/// Brings a score of `player_id` into a global leaderboard: the player's
/// entry is raised or added, the entries are ranked again, and the
/// lowest-ranked are dropped until the leaderboard is within its capacity.
pub fn apply_global_score(entries: &mut Vec<LeaderboardEntry>, player_id: &String, score: u64)
    requires
        old(entries).len() < u32::MAX,
    ensures
        final(entries).deep_view() == global_after(old(entries).deep_view(), player_id@, score),
        final(entries).len() <= GLOBAL_LEADERBOARD_CAPACITY,
        valid_leaderboard(old(entries).deep_view()) ==> valid_leaderboard(
            final(entries).deep_view(),
        ),
{
    let ghost given = entries.deep_view();
    match find_entry(entries, player_id) {
        Some(i) => {
            proof {
                lemma_first_entry(given, player_id@, i as int);
            }
            improve_entry(entries, i, score);
        },
        None => {
            add_entry(entries, player_id, score);
        },
    }
    assert(entries.deep_view() == with_score(given, player_id@, score));
    sort_entries(entries);
    let ghost all = entries.deep_view();
    trim_tail(entries, GLOBAL_LEADERBOARD_CAPACITY);
    assert(entries.deep_view() =~= global_after(given, player_id@, score));
    proof {
        if valid_leaderboard(given) {
            lemma_global_after_valid(given, player_id@, score);
        }
    }
}

/// Page `page` of the leaderboard of tournament `tournament_id`, with
/// `page_size` entries to a page. Fails with `TournamentNotFound` where no
/// tournament has that id.
pub fn get_leaderboard(
    storage: &Storage,
    tournament_id: String,
    page: u32,
    page_size: u32,
) -> (result: Result<Vec<LeaderboardEntry>, Error>)
    ensures
        match result {
            Ok(entries) => storage@.tournaments.dom().contains(tournament_id@)
                && entries.deep_view() == paginate_spec(
                storage@.tournaments[tournament_id@].entries,
                page,
                page_size,
            ),
            Err(e) => e == Error::TournamentNotFound && !storage@.tournaments.dom().contains(
                tournament_id@,
            ),
        },
{
    match storage.get_tournament(&tournament_id) {
        Some(tournament) => Ok(paginate(&tournament.entries, page, page_size)),
        None => Err(Error::TournamentNotFound),
    }
}

/// Page `page` of the global leaderboard of `game_id`, with `page_size`
/// entries to a page. A game without scores has an empty leaderboard.
pub fn get_global_leaderboard(
    storage: &Storage,
    game_id: String,
    page: u32,
    page_size: u32,
) -> (result: Result<Vec<LeaderboardEntry>, Error>)
    ensures
        result.is_ok(),
        result.unwrap().deep_view() == paginate_spec(
            storage@.leaderboard(game_id@),
            page,
            page_size,
        ),
{
    let entries = storage.get_global_leaderboard(&game_id);
    Ok(paginate(&entries, page, page_size))
}

/// Brings a score of `player_id` into the global leaderboard of `game_id`
/// and stores the leaderboard.
pub fn update_global_leaderboard(
    storage: &mut Storage,
    game_id: &String,
    player_id: &String,
    score: u64,
)
    requires
        valid_storage(old(storage)@),
    ensures
        final(storage)@ == (StorageView {
            leaderboards: old(storage)@.leaderboards.insert(
                game_id@,
                global_after(old(storage)@.leaderboard(game_id@), player_id@, score),
            ),
            ..old(storage)@
        }),
        valid_storage(final(storage)@),
{
    let mut entries = storage.get_global_leaderboard(game_id);
    assert(valid_leaderboard(entries.deep_view()));
    apply_global_score(&mut entries, player_id, score);
    storage.save_global_leaderboard(game_id.clone(), entries);
}

} // verus!
