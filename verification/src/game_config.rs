//! What the game's own configuration file says that the app needs, and
//! where that file is.
use vstd::prelude::*;

use crate::game::GameVersion;
use crate::paths::{is_join, join_path, joined_twice, kept_dir, plain_name};

verus! {

/// The game's configuration file, if found, and the key it binds to show
/// an item's mods; `read` says whether the key came from the file.
#[derive(Debug, Clone, PartialEq, Eq)]
pub struct GameConfigInfo {
    pub path: Option<String>,
    pub show_mods_key: String,
    pub read: bool,
}

pub open spec fn config_file(game: GameVersion) -> Seq<char> {
    match game {
        GameVersion::Poe1 => "production_Config.ini"@,
        GameVersion::Poe2 => "poe2_production_Config.ini"@,
    }
}

pub open spec fn config_dir(game: GameVersion) -> Seq<char> {
    match game {
        GameVersion::Poe1 => "Path of Exile"@,
        GameVersion::Poe2 => "Path of Exile 2"@,
    }
}

/// The name of the game's configuration file.
pub fn config_file_name(game: GameVersion) -> (r: &'static str)
    ensures
        r@ == config_file(game),
{
    match game {
        GameVersion::Poe1 => "production_Config.ini",
        GameVersion::Poe2 => "poe2_production_Config.ini",
    }
}

/// The directory, under `My Games`, the game keeps its files in.
pub fn config_dir_name(game: GameVersion) -> (r: &'static str)
    ensures
        r@ == config_dir(game),
{
    match game {
        GameVersion::Poe1 => "Path of Exile",
        GameVersion::Poe2 => "Path of Exile 2",
    }
}

/// `r` is where the game's configuration file lies under `documents`:
/// `My Games`, then the game's directory, then its file.
pub open spec fn config_path_is(documents: Seq<char>, game: GameVersion, r: Seq<char>) -> bool {
    exists|mine: Seq<char>, dir: Seq<char>|
        #![trigger joined_twice(documents, "My Games"@, config_dir(game), mine, dir)]
        joined_twice(documents, "My Games"@, config_dir(game), mine, dir) && (kept_dir(dir)
            ==> is_join(dir, config_file(game), r))
}

/// Where to look for the game's configuration file under the user's
/// documents: one place for each game.
pub fn candidate_paths(documents: &str, game: GameVersion) -> (r: Vec<String>)
    ensures
        r@.len() == 1,
        config_path_is(documents@, game, r@[0]@),
{
    proof {
        reveal_strlit("My Games");
        reveal_strlit("Path of Exile");
        reveal_strlit("Path of Exile 2");
        reveal_strlit("production_Config.ini");
        reveal_strlit("poe2_production_Config.ini");
        assert(plain_name("My Games"@));
        assert(plain_name(config_dir(game)));
        assert(plain_name(config_file(game)));
    }
    let mine = join_path(documents, "My Games");
    let dir = join_path(mine.as_str(), config_dir_name(game));
    let file = join_path(dir.as_str(), config_file_name(game));
    assert(joined_twice(documents@, "My Games"@, config_dir(game), mine@, dir@));
    let mut r: Vec<String> = Vec::new();
    r.push(file);
    r
}

} // verus!
