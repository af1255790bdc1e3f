//! The two games the app serves, a value kept per game, and the league
//! remembered from the last run.
use vstd::prelude::*;

use crate::game_log::fits_bytes;
use crate::text::{chars_of, owned, utf8_len};

verus! {

/// Which game a value belongs to.
#[derive(Debug, Clone, Copy, PartialEq, Eq, Hash, Structural)]
pub enum GameVersion {
    Poe1,
    Poe2,
}

pub open spec fn game_key(game: GameVersion) -> Seq<char> {
    match game {
        GameVersion::Poe1 => "poe1"@,
        GameVersion::Poe2 => "poe2"@,
    }
}

impl GameVersion {
    /// The game's short name, as file and directory names carry it.
    pub fn as_str(self) -> (r: &'static str)
        ensures
            r@ == game_key(self),
    {
        match self {
            GameVersion::Poe1 => "poe1",
            GameVersion::Poe2 => "poe2",
        }
    }
}

/// One value for each game.
#[derive(Debug, Clone, PartialEq, Eq, Default)]
pub struct GamePair<T> {
    pub poe1: T,
    pub poe2: T,
}

impl<T> GamePair<T> {
    /// The value kept for `game`.
    pub open spec fn at(&self, game: GameVersion) -> T {
        match game {
            GameVersion::Poe1 => self.poe1,
            GameVersion::Poe2 => self.poe2,
        }
    }

    pub fn new(poe1: T, poe2: T) -> (p: Self)
        ensures
            p.poe1 == poe1,
            p.poe2 == poe2,
    {
        GamePair { poe1, poe2 }
    }

    pub fn get(&self, game: GameVersion) -> (r: &T)
        ensures
            *r == self.at(game),
    {
        match game {
            GameVersion::Poe1 => &self.poe1,
            GameVersion::Poe2 => &self.poe2,
        }
    }

    /// Replaces the value kept for `game`, leaving the other game's alone.
    pub fn set(&mut self, game: GameVersion, value: T)
        ensures
            final(self).at(game) == value,
            forall|other: GameVersion| other != game ==> final(self).at(other) == old(self).at(other),
    {
        match game {
            GameVersion::Poe1 => self.poe1 = value,
            GameVersion::Poe2 => self.poe2 = value,
        }
    }
}

/// Longer league names than this, in bytes, are not taken from a settings
/// file: no league is named like that.
pub const LEAGUE_NAME_LIMIT: usize = 40;

/// The league of the last run: one for both games, as older settings kept
/// it, or one per game.
#[derive(Debug, Clone, PartialEq, Eq)]
pub enum LastLeague {
    Shared(String),
    PerGame(GamePair<String>),
}

impl Default for LastLeague {
    fn default() -> (l: Self)
        ensures
            l is Shared,
            l->Shared_0@.len() == 0,
    {
        LastLeague::Shared(String::new())
    }
}

impl LastLeague {
    /// The league remembered for `game`.
    pub open spec fn league_for(&self, game: GameVersion) -> Seq<char> {
        match self {
            LastLeague::Shared(shared) => shared@,
            LastLeague::PerGame(pair) => pair.at(game)@,
        }
    }

    pub fn get(&self, game: GameVersion) -> (r: &str)
        ensures
            r@ == self.league_for(game),
    {
        match self {
            LastLeague::Shared(shared) => shared.as_str(),
            LastLeague::PerGame(pair) => pair.get(game).as_str(),
        }
    }

    /// Remembers `league` for `game`; the other game keeps what it had,
    /// and the value is kept per game from then on.
    pub fn set(&mut self, game: GameVersion, league: &str)
        ensures
            *final(self) is PerGame,
            final(self).league_for(game) == league@,
            forall|other: GameVersion|
                other != game ==> final(self).league_for(other) == old(self).league_for(other),
    {
        let mut pair = match self {
            LastLeague::Shared(shared) => GamePair::new(owned(shared.as_str()), owned(shared.as_str())),
            LastLeague::PerGame(pair) => GamePair::new(
                owned(pair.poe1.as_str()),
                owned(pair.poe2.as_str()),
            ),
        };
        pair.set(game, owned(league));
        *self = LastLeague::PerGame(pair);
    }

    /// The same leagues, with any name longer than [`LEAGUE_NAME_LIMIT`]
    /// bytes emptied.
    pub fn dropping_absurd_names(self) -> (r: Self)
        ensures
            (r is Shared) == (self is Shared),
            forall|game: GameVersion| #[trigger]
                r.league_for(game) == sane_name(self.league_for(game)),
    {
        match self {
            LastLeague::Shared(shared) => LastLeague::Shared(sane(shared.as_str())),
            LastLeague::PerGame(pair) => LastLeague::PerGame(
                GamePair::new(sane(pair.poe1.as_str()), sane(pair.poe2.as_str())),
            ),
        }
    }
}

/// A league name as a settings file may give it: kept when it fits in
/// [`LEAGUE_NAME_LIMIT`] bytes, emptied when it does not.
pub open spec fn sane_name(name: Seq<char>) -> Seq<char> {
    if utf8_len(name) > LEAGUE_NAME_LIMIT {
        Seq::empty()
    } else {
        name
    }
}

fn sane(name: &str) -> (r: String)
    ensures
        r@ == sane_name(name@),
{
    let cs = chars_of(name);
    if !fits_bytes(cs.as_slice(), LEAGUE_NAME_LIMIT) {
        String::new()
    } else {
        owned(name)
    }
}

} // verus!
