//! Tournaments: creation, lookup, status, results and the list of the
//! active ones.

use vstd::prelude::*;
use crate::errors::Error;
use crate::rules::{is_active, valid_storage, valid_tournament, MAX_TOURNAMENT_ENTRIES};
use crate::storage::{Storage, StorageView};
use crate::types::{copy_entries, EntryView, LeaderboardEntry, Tournament, TournamentView};

verus! {

/// The parameters of a tournament are malformed: the window is empty, or
/// the capacity is 0 or over the limit.
pub open spec fn malformed(start_time: u64, end_time: u64, max_entries: u32) -> bool {
    start_time >= end_time || max_entries == 0 || max_entries > MAX_TOURNAMENT_ENTRIES
}

/// A tournament as it is created: without entries.
pub open spec fn fresh_tournament(
    id: Seq<char>,
    game_id: Seq<char>,
    start_time: u64,
    end_time: u64,
    max_entries: u32,
) -> TournamentView {
    TournamentView {
        id: id,
        game_id: game_id,
        start_time: start_time,
        end_time: end_time,
        max_entries: max_entries,
        entries: Seq::empty(),
    }
}

/// Why the creation of tournament `id` is refused, if it is: the id is
/// taken, or else the parameters are malformed.
pub open spec fn create_error(
    v: StorageView,
    id: Seq<char>,
    start_time: u64,
    end_time: u64,
    max_entries: u32,
) -> Option<Error> {
    if v.tournaments.dom().contains(id) {
        Some(Error::TournamentExists)
    } else if malformed(start_time, end_time, max_entries) {
        Some(Error::InvalidParameters)
    } else {
        None
    }
}

/// The state after tournament `id` is created: the tournament is stored
/// without entries, and its id ends the list of all tournaments.
pub open spec fn created(
    v: StorageView,
    id: Seq<char>,
    game_id: Seq<char>,
    start_time: u64,
    end_time: u64,
    max_entries: u32,
) -> StorageView {
    StorageView {
        tournaments: v.tournaments.insert(
            id,
            fresh_tournament(id, game_id, start_time, end_time, max_entries),
        ),
        tournament_list: v.tournament_list.push(id),
        leaderboards: v.leaderboards,
        histories: v.histories,
    }
}

/// The name of the phase that `t` is in at `now`: "upcoming" before the
/// window, "active" within it, both ends included, "ended" after it.
pub open spec fn status_name(t: TournamentView, now: u64) -> Seq<char> {
    if now < t.start_time {
        "upcoming"@
    } else if now <= t.end_time {
        "active"@
    } else {
        "ended"@
    }
}

/// `t` is active at `now` and, where a game is asked for, of that game.
pub open spec fn is_wanted(t: TournamentView, game_id: Option<Seq<char>>, now: u64) -> bool {
    is_active(t, now) && (game_id is None || t.game_id == game_id.unwrap())
}

/// Tournament `id` is stored, active at `now` and, where a game is asked
/// for, of that game.
pub open spec fn is_listed(v: StorageView, id: Seq<char>, game_id: Option<Seq<char>>, now: u64) -> bool {
    v.tournaments.dom().contains(id) && is_wanted(v.tournaments[id], game_id, now)
}

/// Of the tournaments that `ids` names, in that order, those that
/// `is_listed` admits.
pub open spec fn active_among(
    v: StorageView,
    ids: Seq<Seq<char>>,
    game_id: Option<Seq<char>>,
    now: u64,
) -> Seq<TournamentView>
    decreases ids.len(),
{
    if ids.len() == 0 {
        Seq::empty()
    } else {
        let earlier = active_among(v, ids.drop_last(), game_id, now);
        if is_listed(v, ids.last(), game_id, now) {
            earlier.push(v.tournaments[ids.last()])
        } else {
            earlier
        }
    }
}

/// Whether `tournament` accepts scores at `now`: from its start time to its
/// end time, both included.
pub fn is_active_at(tournament: &Tournament, now: u64) -> (active: bool)
    ensures
        active == is_active(tournament@, now),
{
    now >= tournament.start_time && now <= tournament.end_time
}

/// Whether `tournament` is active at `now` and, where `game_id` is given,
/// of that game.
pub fn is_wanted_at(tournament: &Tournament, game_id: &Option<String>, now: u64) -> (wanted: bool)
    ensures
        wanted == is_wanted(tournament@, game_id.deep_view(), now),
{
    if !is_active_at(tournament, now) {
        return false;
    }
    match game_id {
        Some(g) => tournament.game_id == *g,
        None => true,
    }
}

/// A tournament without entries. Fails with `InvalidParameters` where the
/// window is empty or the capacity is outside 1 to 10000.
pub fn new_tournament(
    tournament_id: String,
    game_id: String,
    start_time: u64,
    end_time: u64,
    max_entries: u32,
) -> (result: Result<Tournament, Error>)
    ensures
        match result {
            Ok(t) => {
                &&& !malformed(start_time, end_time, max_entries)
                &&& t@ == fresh_tournament(
                    tournament_id@,
                    game_id@,
                    start_time,
                    end_time,
                    max_entries,
                )
                &&& valid_tournament(t@)
            },
            Err(e) => e == Error::InvalidParameters && malformed(
                start_time,
                end_time,
                max_entries,
            ),
        },
{
    if start_time >= end_time {
        return Err(Error::InvalidParameters);
    }
    if max_entries == 0 || max_entries > MAX_TOURNAMENT_ENTRIES {
        return Err(Error::InvalidParameters);
    }
    let tournament = Tournament {
        id: tournament_id,
        game_id: game_id,
        start_time: start_time,
        end_time: end_time,
        max_entries: max_entries,
        entries: Vec::new(),
    };
    assert(tournament.entries.deep_view() =~= Seq::<EntryView>::empty());
    Ok(tournament)
}

/// Creates tournament `tournament_id` for game `game_id`. Fails with
/// `TournamentExists` where the id is taken, else with `InvalidParameters`
/// where the parameters are malformed; a failure changes nothing.
pub fn create_tournament(
    storage: &mut Storage,
    tournament_id: String,
    game_id: String,
    start_time: u64,
    end_time: u64,
    max_entries: u32,
) -> (result: Result<(), Error>)
    requires
        valid_storage(old(storage)@),
    ensures
        valid_storage(final(storage)@),
        match result {
            Ok(_) => {
                &&& create_error(
                    old(storage)@,
                    tournament_id@,
                    start_time,
                    end_time,
                    max_entries,
                ).is_none()
                &&& final(storage)@ == created(
                    old(storage)@,
                    tournament_id@,
                    game_id@,
                    start_time,
                    end_time,
                    max_entries,
                )
            },
            Err(e) => {
                &&& create_error(old(storage)@, tournament_id@, start_time, end_time, max_entries)
                    == Some(e)
                &&& final(storage)@ == old(storage)@
            },
        },
{
    if storage.get_tournament(&tournament_id).is_some() {
        return Err(Error::TournamentExists);
    }
    let tournament = match new_tournament(
        tournament_id.clone(),
        game_id,
        start_time,
        end_time,
        max_entries,
    ) {
        Ok(t) => t,
        Err(e) => {
            return Err(e);
        },
    };
    storage.save_tournament(tournament_id.clone(), tournament);
    storage.add_to_tournament_list(tournament_id);
    proof {
        let before = old(storage)@;
        let after = storage@;
        let id = tournament_id@;
        assert(after == created(before, id, game_id@, start_time, end_time, max_entries));
        assert(after.tournament_list.last() == id);
        assert forall|x: Seq<char>| #[trigger]
            after.tournaments.dom().contains(x) implies after.tournament_list.contains(x) by {
            if x == id {
                assert(after.tournament_list[after.tournament_list.len() - 1] == x);
            } else {
                assert(before.tournaments.dom().contains(x));
                let k = choose|k: int|
                    0 <= k < before.tournament_list.len() && before.tournament_list[k] == x;
                assert(after.tournament_list[k] == x);
            }
        }
        assert forall|i: int| 0 <= i < after.tournament_list.len() implies after.tournaments.dom().contains(
            #[trigger] after.tournament_list[i],
        ) by {
            if i < before.tournament_list.len() {
                assert(after.tournament_list[i] == before.tournament_list[i]);
            }
        }
        assert(after.tournament_list.no_duplicates()) by {
            assert forall|i: int, j: int|
                0 <= i < after.tournament_list.len() && 0 <= j < after.tournament_list.len() && i
                    != j implies after.tournament_list[i] != after.tournament_list[j] by {
                if i < before.tournament_list.len() {
                    assert(before.tournaments.dom().contains(before.tournament_list[i]));
                }
                if j < before.tournament_list.len() {
                    assert(before.tournaments.dom().contains(before.tournament_list[j]));
                }
            }
        }
    }
    Ok(())
}

/// The tournament `tournament_id`. Fails with `TournamentNotFound` where
/// no tournament has that id.
pub fn get_tournament_info(storage: &Storage, tournament_id: String) -> (result: Result<
    Tournament,
    Error,
>)
    ensures
        match result {
            Ok(t) => storage@.tournaments.dom().contains(tournament_id@)
                && t@ == storage@.tournaments[tournament_id@],
            Err(e) => e == Error::TournamentNotFound && !storage@.tournaments.dom().contains(
                tournament_id@,
            ),
        },
{
    match storage.get_tournament(&tournament_id) {
        Some(t) => Ok(t),
        None => Err(Error::TournamentNotFound),
    }
}

/// The final leaderboard of `tournament`. Fails with `TournamentNotActive`
/// before the end of the tournament's window.
pub fn results_at(tournament: &Tournament, now: u64) -> (result: Result<
    Vec<LeaderboardEntry>,
    Error,
>)
    ensures
        match result {
            Ok(entries) => now >= tournament.end_time && entries.deep_view()
                == tournament@.entries,
            Err(e) => e == Error::TournamentNotActive && now < tournament.end_time,
        },
{
    if now < tournament.end_time {
        return Err(Error::TournamentNotActive);
    }
    Ok(copy_entries(&tournament.entries))
}

/// Why the results of tournament `id` are refused at `now`, if they are:
/// the tournament is unknown, or its window has not reached its end.
pub open spec fn results_error(v: StorageView, id: Seq<char>, now: u64) -> Option<Error> {
    if !v.tournaments.dom().contains(id) {
        Some(Error::TournamentNotFound)
    } else if now < v.tournaments[id].end_time {
        Some(Error::TournamentNotActive)
    } else {
        None
    }
}

/// The final leaderboard of tournament `tournament_id`. Fails with
/// `TournamentNotFound` where no tournament has that id, and with
/// `TournamentNotActive` before the end of the tournament's window.
pub fn get_tournament_results(storage: &Storage, tournament_id: String, now: u64) -> (result:
    Result<Vec<LeaderboardEntry>, Error>)
    ensures
        match result {
            Ok(entries) => results_error(storage@, tournament_id@, now).is_none()
                && entries.deep_view() == storage@.tournaments[tournament_id@].entries,
            Err(e) => results_error(storage@, tournament_id@, now) == Some(e),
        },
{
    match storage.get_tournament(&tournament_id) {
        Some(t) => results_at(&t, now),
        None => Err(Error::TournamentNotFound),
    }
}

/// The ids of all tournaments, in the order of their creation.
pub fn get_tournaments(storage: &Storage) -> (ids: Vec<String>)
    ensures
        ids.deep_view() == storage@.tournament_list,
{
    storage.get_tournament_list()
}

/// The tournaments that are active at `now`, in the order of their
/// creation; where `game_id` is given, only those of that game.
pub fn get_active_tournaments(storage: &Storage, game_id: Option<String>, now: u64) -> (active:
    Vec<Tournament>)
    ensures
        active.deep_view() == active_among(
            storage@,
            storage@.tournament_list,
            game_id.deep_view(),
            now,
        ),
{
    let ids = storage.get_tournament_list();
    let mut active: Vec<Tournament> = Vec::new();
    let mut i: usize = 0;
    assert(ids.deep_view().take(0) =~= Seq::<Seq<char>>::empty());
    assert(active.deep_view() =~= Seq::<TournamentView>::empty());
    while i < ids.len()
        invariant
            i <= ids.len(),
            ids.deep_view() == storage@.tournament_list,
            active.deep_view() == active_among(
                storage@,
                ids.deep_view().take(i as int),
                game_id.deep_view(),
                now,
            ),
        decreases ids.len() - i,
    {
        let ghost before = active.deep_view();
        assert(ids.deep_view().take(i + 1).drop_last() =~= ids.deep_view().take(i as int));
        assert(ids.deep_view().take(i + 1).last() == ids[i as int]@);
        match storage.get_tournament(&ids[i]) {
            Some(t) => {
                if is_wanted_at(&t, &game_id, now) {
                    active.push(t);
                    assert(active.deep_view() =~= before.push(t@));
                }
            },
            None => {},
        }
        i += 1;
    }
    assert(ids.deep_view().take(ids.len() as int) =~= ids.deep_view());
    active
}

/// Whether tournament `tournament_id` accepts scores at `now`. Fails with
/// `TournamentNotFound` where no tournament has that id.
pub fn is_tournament_active(storage: &Storage, tournament_id: String, now: u64) -> (result: Result<
    bool,
    Error,
>)
    ensures
        match result {
            Ok(active) => storage@.tournaments.dom().contains(tournament_id@) && active
                == is_active(storage@.tournaments[tournament_id@], now),
            Err(e) => e == Error::TournamentNotFound && !storage@.tournaments.dom().contains(
                tournament_id@,
            ),
        },
{
    match storage.get_tournament(&tournament_id) {
        Some(t) => Ok(is_active_at(&t, now)),
        None => Err(Error::TournamentNotFound),
    }
}

/// The name of the phase that `tournament` is in at `now`.
pub fn status_at(tournament: &Tournament, now: u64) -> (status: String)
    ensures
        status@ == status_name(tournament@, now),
{
    if now < tournament.start_time {
        "upcoming".to_owned()
    } else if now <= tournament.end_time {
        "active".to_owned()
    } else {
        "ended".to_owned()
    }
}

/// The name of the phase that tournament `tournament_id` is in at `now`.
/// Fails with `TournamentNotFound` where no tournament has that id.
pub fn get_tournament_status(storage: &Storage, tournament_id: String, now: u64) -> (result: Result<
    String,
    Error,
>)
    ensures
        match result {
            Ok(status) => storage@.tournaments.dom().contains(tournament_id@) && status@
                == status_name(storage@.tournaments[tournament_id@], now),
            Err(e) => e == Error::TournamentNotFound && !storage@.tournaments.dom().contains(
                tournament_id@,
            ),
        },
{
    match storage.get_tournament(&tournament_id) {
        Some(t) => Ok(status_at(&t, now)),
        None => Err(Error::TournamentNotFound),
    }
}

} // verus!
