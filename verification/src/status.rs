//! What the status tab says: how healthy the app is, and a caption for the
//! game, the league, the data and its last refresh.
//!
//! Instants are nanoseconds since the Unix epoch, as `SystemTime` gives
//! them on a clock set after 1970.
use vstd::prelude::*;

use crate::data_refresh::MAX_AGE;
use crate::game::GameVersion;
use crate::text::{
    chars_of, decimal, decimal_chars, is_blank, is_blank_chars, owned, push_all, push_str,
};

verus! {

/// How the app stands, worst first where more than one holds.
#[derive(Debug, Clone, Copy, PartialEq, Eq, Structural)]
pub enum Health {
    Ready,
    Waiting,
    Paused,
    Degraded,
}

impl Health {
    pub open spec fn name(self) -> Seq<char> {
        match self {
            Health::Ready => "ready"@,
            Health::Waiting => "waiting"@,
            Health::Paused => "paused"@,
            Health::Degraded => "degraded"@,
        }
    }

    /// The state's name, for the log.
    pub fn as_str(self) -> (r: &'static str)
        ensures
            r@ == self.name(),
    {
        match self {
            Health::Ready => "ready",
            Health::Waiting => "waiting",
            Health::Paused => "paused",
            Health::Degraded => "degraded",
        }
    }
}

/// Where the league in use came from.
#[derive(Debug, Clone, Copy, PartialEq, Eq, Structural)]
pub enum LeagueFrom {
    Configured,
    Chosen,
    TradeApi,
    LastRun,
    GameLog,
    Fallback,
}

/// Everything the status tab shows.
#[derive(Debug, Clone)]
pub struct Status {
    pub game: Option<GameVersion>,
    pub pinned: bool,
    pub window_title: String,
    pub hotkey: String,
    pub league: String,
    pub league_source: LeagueFrom,
    pub origin: String,
    pub stats: usize,
    pub items: usize,
    pub augments: usize,
    pub last_refresh: Option<u128>,
    pub paused: bool,
    pub network: bool,
    pub note: Option<String>,
}

impl Default for Status {
    fn default() -> (s: Self)
        ensures
            s.game is None,
            !s.pinned,
            s.window_title@.len() == 0,
            s.hotkey@.len() == 0,
            s.league@.len() == 0,
            s.league_source == LeagueFrom::Configured,
            s.origin@.len() == 0,
            s.stats == 0,
            s.items == 0,
            s.augments == 0,
            s.last_refresh is None,
            !s.paused,
            !s.network,
            s.note is None,
    {
        Status {
            game: None,
            pinned: false,
            window_title: String::new(),
            hotkey: String::new(),
            league: String::new(),
            league_source: LeagueFrom::Configured,
            origin: String::new(),
            stats: 0,
            items: 0,
            augments: 0,
            last_refresh: None,
            paused: false,
            network: false,
            note: None,
        }
    }
}

/// The app's health: paused above all, then degraded without data or
/// network, then ready once a game runs.
pub open spec fn health_of(s: Status) -> Health {
    if s.paused {
        Health::Paused
    } else if s.stats == 0 {
        Health::Degraded
    } else if !s.network {
        Health::Degraded
    } else {
        match s.game {
            Some(_) => Health::Ready,
            None => Health::Waiting,
        }
    }
}

/// Pausing beats every other state, because the user asked for it; short
/// of that, missing data or network is degraded whether or not a game
/// runs.
pub proof fn paused_beats_every_other_state(s: Status)
    ensures
        s.paused ==> health_of(s) == Health::Paused,
        !s.paused && (s.stats == 0 || !s.network) ==> health_of(s) == Health::Degraded,
        health_of(s) == Health::Ready ==> s.game is Some && s.network && s.stats > 0,
{
}

pub fn health(status: &Status) -> (h: Health)
    ensures
        h == health_of(*status),
{
    if status.paused {
        return Health::Paused;
    }
    if status.stats == 0 {
        return Health::Degraded;
    }
    if !status.network {
        return Health::Degraded;
    }
    match status.game {
        Some(_) => Health::Ready,
        None => Health::Waiting,
    }
}

/// The one line at the top of the tab.
pub open spec fn headline_of(s: Status) -> Seq<char> {
    match health_of(s) {
        Health::Paused => "Paused. The hotkey is ignored."@,
        Health::Degraded => if s.stats == 0 {
            "No game data loaded."@
        } else {
            "Network is off. Pricing will not work."@
        },
        Health::Waiting => "Waiting for Path of Exile to start."@,
        Health::Ready => "Watching "@ + s.window_title@ + ". Press "@ + s.hotkey@
            + " over an item."@,
    }
}

pub fn headline(status: &Status) -> (r: String)
    ensures
        r@ == headline_of(*status),
{
    match health(status) {
        Health::Paused => owned("Paused. The hotkey is ignored."),
        Health::Degraded => if status.stats == 0 {
            owned("No game data loaded.")
        } else {
            owned("Network is off. Pricing will not work.")
        },
        Health::Waiting => owned("Waiting for Path of Exile to start."),
        Health::Ready => {
            let mut r = owned("Watching ");
            push_str(&mut r, status.window_title.as_str());
            push_str(&mut r, ". Press ");
            push_str(&mut r, status.hotkey.as_str());
            push_str(&mut r, " over an item.");
            r
        },
    }
}

pub open spec fn game_name(game: GameVersion) -> Seq<char> {
    match game {
        GameVersion::Poe1 => "Path of Exile"@,
        GameVersion::Poe2 => "Path of Exile 2"@,
    }
}

/// Which game runs, and whether it was pinned by hand or detected.
pub open spec fn game_caption_of(s: Status) -> Seq<char> {
    match s.game {
        None => "no game running"@,
        Some(game) => if s.pinned {
            game_name(game) + ", pinned by hand"@
        } else {
            game_name(game) + ", detected"@
        },
    }
}

pub fn game_caption(status: &Status) -> (r: String)
    ensures
        r@ == game_caption_of(*status),
{
    let name = match status.game {
        Some(GameVersion::Poe1) => "Path of Exile",
        Some(GameVersion::Poe2) => "Path of Exile 2",
        None => return owned("no game running"),
    };
    let mut r = owned(name);
    if status.pinned {
        push_str(&mut r, ", pinned by hand");
    } else {
        push_str(&mut r, ", detected");
    }
    r
}

/// Where the data came from, in plain words.
pub open spec fn origin_words(origin: Seq<char>) -> Seq<char> {
    if origin == "embedded"@ {
        "built into this app"@
    } else if origin == "cache"@ {
        "refreshed from the trade site"@
    } else if origin == "directory"@ {
        "from the folder you named"@
    } else {
        origin
    }
}

/// How much data is loaded, and from where.
pub open spec fn data_caption_of(s: Status) -> Seq<char> {
    decimal(s.stats as nat) + " stats, "@ + decimal(s.items as nat) + " items, "@ + decimal(
        s.augments as nat,
    ) + " runes, "@ + origin_words(s.origin@)
}

pub fn data_caption(status: &Status) -> (r: String)
    ensures
        r@ == data_caption_of(*status),
{
    let origin = chars_of(status.origin.as_str());
    let where_from = if crate::text::same(origin.as_slice(), chars_of("embedded").as_slice()) {
        owned("built into this app")
    } else if crate::text::same(origin.as_slice(), chars_of("cache").as_slice()) {
        owned("refreshed from the trade site")
    } else if crate::text::same(origin.as_slice(), chars_of("directory").as_slice()) {
        owned("from the folder you named")
    } else {
        owned(status.origin.as_str())
    };
    let mut r = String::new();
    push_all(&mut r, decimal_chars(status.stats as u64).as_slice());
    push_str(&mut r, " stats, ");
    push_all(&mut r, decimal_chars(status.items as u64).as_slice());
    push_str(&mut r, " items, ");
    push_all(&mut r, decimal_chars(status.augments as u64).as_slice());
    push_str(&mut r, " runes, ");
    push_str(&mut r, where_from.as_str());
    r
}

pub open spec fn source_words(from: LeagueFrom) -> Seq<char> {
    match from {
        LeagueFrom::Configured => "as configured"@,
        LeagueFrom::Chosen => "chosen by hand"@,
        LeagueFrom::TradeApi => "the trade site's current league"@,
        LeagueFrom::LastRun => "from the last run"@,
        LeagueFrom::GameLog => "read from the game"@,
        LeagueFrom::Fallback => "a fallback, nothing named one"@,
    }
}

/// Where a league came from, in plain words.
pub fn source_caption(from: LeagueFrom) -> (r: &'static str)
    ensures
        r@ == source_words(from),
{
    match from {
        LeagueFrom::Configured => "as configured",
        LeagueFrom::Chosen => "chosen by hand",
        LeagueFrom::TradeApi => "the trade site's current league",
        LeagueFrom::LastRun => "from the last run",
        LeagueFrom::GameLog => "read from the game",
        LeagueFrom::Fallback => "a fallback, nothing named one",
    }
}

/// The league in use, or "not set", and where it came from.
pub open spec fn league_caption_of(s: Status) -> Seq<char> {
    let league = if is_blank(s.league@) {
        "not set"@
    } else {
        s.league@
    };
    league + ", "@ + source_words(s.league_source)
}

pub fn league_caption(status: &Status) -> (r: String)
    ensures
        r@ == league_caption_of(*status),
{
    let league = chars_of(status.league.as_str());
    let mut r = if is_blank_chars(league.as_slice()) {
        owned("not set")
    } else {
        owned(status.league.as_str())
    };
    push_str(&mut r, ", ");
    push_str(&mut r, source_caption(status.league_source));
    r
}

/// Nanoseconds in a second, an hour and a day.
pub const NANOS_PER_SECOND: u128 = 1_000_000_000;

pub const SECONDS_PER_HOUR: u128 = 3_600;

pub const SECONDS_PER_DAY: u128 = 86_400;

/// An instant a `SystemTime` can hold: under 2^64 seconds after the epoch.
pub open spec fn representable(t: u128) -> bool {
    t < 0x1_0000_0000_0000_0000 * 1_000_000_000
}

/// How long ago an age of `age` nanoseconds was, in hours under a day and
/// in days from one day on.
pub open spec fn ago_words(age: u128) -> Seq<char> {
    let secs = age / NANOS_PER_SECOND;
    let days = secs / SECONDS_PER_DAY;
    let hours = secs / SECONDS_PER_HOUR;
    if days == 0 && hours == 0 {
        "less than an hour ago"@
    } else if days == 0 && hours == 1 {
        "an hour ago"@
    } else if days == 0 {
        decimal(hours as nat) + " hours ago"@
    } else if days == 1 {
        "a day ago"@
    } else {
        decimal(days as nat) + " days ago"@
    }
}

fn ago(age: u128) -> (r: String)
    requires
        representable(age),
    ensures
        r@ == ago_words(age),
{
    let secs = age / NANOS_PER_SECOND;
    let days = secs / SECONDS_PER_DAY;
    let hours = secs / SECONDS_PER_HOUR;
    if days == 0 && hours == 0 {
        owned("less than an hour ago")
    } else if days == 0 && hours == 1 {
        owned("an hour ago")
    } else if days == 0 {
        let mut r = String::new();
        push_all(&mut r, decimal_chars(hours as u64).as_slice());
        push_str(&mut r, " hours ago");
        r
    } else if days == 1 {
        owned("a day ago")
    } else {
        let mut r = String::new();
        push_all(&mut r, decimal_chars(days as u64).as_slice());
        push_str(&mut r, " days ago");
        r
    }
}

/// How long until a refresh that is `due` nanoseconds away.
pub open spec fn remaining_words(due: u128) -> Seq<char> {
    let days = due / NANOS_PER_SECOND / SECONDS_PER_DAY;
    if days == 0 && due == 0 {
        "any moment"@
    } else if days == 0 {
        "under a day"@
    } else if days == 1 {
        "a day"@
    } else {
        decimal(days as nat) + " days"@
    }
}

fn remaining(due: u128) -> (r: String)
    requires
        due <= MAX_AGE,
    ensures
        r@ == remaining_words(due),
{
    let days = due / NANOS_PER_SECOND / SECONDS_PER_DAY;
    if days == 0 && due == 0 {
        owned("any moment")
    } else if days == 0 {
        owned("under a day")
    } else if days == 1 {
        owned("a day")
    } else {
        let mut r = String::new();
        push_all(&mut r, decimal_chars(days as u64).as_slice());
        push_str(&mut r, " days");
        r
    }
}

/// When the data was last refreshed and when it will be next: never, just
/// now for a stamp later than the clock, or how long ago and how long to
/// go until [`MAX_AGE`] has passed.
pub open spec fn refresh_words(last: Option<u128>, now: u128) -> Seq<char> {
    match last {
        None => "never, it runs on the next start"@,
        Some(last) => if now < last {
            "just now"@
        } else {
            let age = (now - last) as u128;
            let due = if age >= MAX_AGE {
                0u128
            } else {
                (MAX_AGE - age) as u128
            };
            ago_words(age) + ", next in "@ + remaining_words(due)
        },
    }
}

pub fn refresh_caption(last: Option<u128>, now: u128) -> (r: String)
    requires
        representable(now),
    ensures
        r@ == refresh_words(last, now),
{
    let last = match last {
        None => return owned("never, it runs on the next start"),
        Some(last) => last,
    };
    if now < last {
        return owned("just now");
    }
    let age = now - last;
    let due = MAX_AGE.saturating_sub(age);
    let mut r = ago(age);
    push_str(&mut r, ", next in ");
    let rest = remaining(due);
    push_str(&mut r, rest.as_str());
    r
}

/// The rows of the status tab, each a label and what it shows.
pub fn rows(status: &Status, now: u128) -> (r: Vec<(&'static str, String)>)
    requires
        representable(now),
    ensures
        r@.len() == 5,
        r@[0].0@ == "Game"@ && r@[0].1@ == game_caption_of(*status),
        r@[1].0@ == "Hotkey"@ && r@[1].1@ == status.hotkey@,
        r@[2].0@ == "League"@ && r@[2].1@ == league_caption_of(*status),
        r@[3].0@ == "Data"@ && r@[3].1@ == data_caption_of(*status),
        r@[4].0@ == "Refreshed"@ && r@[4].1@ == refresh_words(status.last_refresh, now),
{
    let mut r: Vec<(&'static str, String)> = Vec::new();
    r.push(("Game", game_caption(status)));
    r.push(("Hotkey", owned(status.hotkey.as_str())));
    r.push(("League", league_caption(status)));
    r.push(("Data", data_caption(status)));
    r.push(("Refreshed", refresh_caption(status.last_refresh, now)));
    r
}

} // verus!
