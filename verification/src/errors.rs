//! The failures that the engine reports to its caller.

use vstd::prelude::*;

verus! {

/// Why an engine operation was refused.
#[derive(Copy, Clone, Debug, PartialEq, Eq, Structural)]
pub enum Error {
    /// A tournament with this id was created before.
    TournamentExists,
    /// No tournament has this id.
    TournamentNotFound,
    /// The tournament does not accept this operation at the given time.
    TournamentNotActive,
    /// The tournament already holds `max_entries` players.
    TournamentFull,
    /// The player is unknown.
    PlayerNotFound,
    /// The creation parameters are malformed.
    InvalidParameters,
    /// The acting identity is not the player.
    Unauthorized,
}

impl Error {
    /// The numeric code under which the failure is reported on the wire.
    pub open spec fn spec_code(self) -> u32 {
        match self {
            Error::TournamentExists => 1,
            Error::TournamentNotFound => 2,
            Error::TournamentNotActive => 3,
            Error::TournamentFull => 4,
            Error::PlayerNotFound => 5,
            Error::InvalidParameters => 6,
            Error::Unauthorized => 7,
        }
    }

    /// The numeric code under which the failure is reported on the wire.
    pub fn code(self) -> (c: u32)
        ensures
            c == self.spec_code(),
            1 <= c <= 7,
    {
        match self {
            Error::TournamentExists => 1,
            Error::TournamentNotFound => 2,
            Error::TournamentNotActive => 3,
            Error::TournamentFull => 4,
            Error::PlayerNotFound => 5,
            Error::InvalidParameters => 6,
            Error::Unauthorized => 7,
        }
    }
}

} // verus!
