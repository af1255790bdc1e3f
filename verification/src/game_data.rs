//! Where the game data tables were loaded from.
use vstd::prelude::*;

use crate::game::{game_key, GameVersion};
use crate::paths::{is_join, join_path, kept_dir, plain_name};
use crate::text::{owned, push_str};

verus! {

/// Where a game's tables came from: a folder the user named, the refreshed
/// cache, or the copy built into the app.
#[derive(Debug, Clone, Copy, PartialEq, Eq, Structural)]
pub enum Origin {
    Directory,
    Cache,
    Embedded,
}

pub open spec fn origin_name(origin: Origin) -> Seq<char> {
    match origin {
        Origin::Directory => "directory"@,
        Origin::Cache => "cache"@,
        Origin::Embedded => "embedded"@,
    }
}

impl Origin {
    /// The origin's name, for the log and the status tab.
    pub fn as_str(self) -> (r: &'static str)
        ensures
            r@ == origin_name(self),
    {
        match self {
            Origin::Directory => "directory",
            Origin::Cache => "cache",
            Origin::Embedded => "embedded",
        }
    }
}

/// Where the refreshed tables of `game` are cached: a directory of its own
/// under the configuration directory.
pub fn cache_dir(config_dir: &str, game: GameVersion) -> (r: String)
    ensures
        kept_dir(config_dir@) ==> is_join(config_dir@, "data-"@ + game_key(game), r@),
{
    let mut name = owned("data-");
    push_str(&mut name, game.as_str());
    proof {
        reveal_strlit("data-");
        reveal_strlit("poe1");
        reveal_strlit("poe2");
        assert(plain_name(name@));
    }
    join_path(config_dir, name.as_str())
}

} // verus!
