//! Where the settings live: the configured directory, or the platform's
//! configuration directory, and the settings file inside it.
use vstd::prelude::*;

use crate::paths::{is_join, join_path, kept_dir, plain_name};
use crate::text::{chars_of, is_blank, is_blank_chars, owned};

verus! {

/// The directory the app keeps its files in, under the platform's
/// configuration directory.
pub const APP_DIR: &'static str = "poe-wayfinder";

/// The settings file, inside the app's directory.
pub const SETTINGS_FILE: &'static str = "settings.json";

/// The directory named in the configuration, unless it is blank; then
/// `fallback`, the platform's default.
pub fn resolve_dir(configured: &str, fallback: String) -> (r: String)
    ensures
        r@ == if is_blank(configured@) {
            fallback@
        } else {
            configured@
        },
{
    let cs = chars_of(configured);
    if !is_blank_chars(cs.as_slice()) {
        return owned(configured);
    }
    fallback
}

/// A variable of the environment that names a directory, when it is set
/// and not empty.
pub open spec fn named(v: Option<String>) -> bool {
    v matches Some(s) && s@.len() > 0
}

/// Where the platform keeps configuration, from the variables the app
/// reads: `APPDATA`, then `XDG_CONFIG_HOME`, each with the app's directory
/// in it; then `.config` under `HOME`; else the app's directory here.
pub open spec fn default_dir_is(
    appdata: Option<String>,
    xdg_config_home: Option<String>,
    home: Option<String>,
    r: Seq<char>,
) -> bool {
    if named(appdata) {
        kept_dir(appdata->0@) ==> is_join(appdata->0@, APP_DIR@, r)
    } else if named(xdg_config_home) {
        kept_dir(xdg_config_home->0@) ==> is_join(xdg_config_home->0@, APP_DIR@, r)
    } else if named(home) {
        exists|config: Seq<char>| #[trigger] through(home->0@, config, r)
    } else {
        is_join("."@, APP_DIR@, r)
    }
}

/// `r` is the app's directory inside the `.config` directory `config`
/// of the home directory `home`.
pub open spec fn through(home: Seq<char>, config: Seq<char>, r: Seq<char>) -> bool {
    &&& kept_dir(home) ==> is_join(home, ".config"@, config)
    &&& kept_dir(config) ==> is_join(config, APP_DIR@, r)
}

/// The platform's configuration directory for the app, from the values
/// of `APPDATA`, `XDG_CONFIG_HOME` and `HOME`.
pub fn default_dir(
    appdata: Option<String>,
    xdg_config_home: Option<String>,
    home: Option<String>,
) -> (r: String)
    ensures
        default_dir_is(appdata, xdg_config_home, home, r@),
{
    proof {
        reveal_strlit("poe-wayfinder");
        reveal_strlit(".config");
        reveal_strlit(".");
        assert(plain_name(APP_DIR@));
        assert(plain_name(".config"@));
        assert(kept_dir("."@));
    }
    if let Some(base) = &appdata {
        if chars_of(base.as_str()).len() > 0 {
            return join_path(base.as_str(), APP_DIR);
        }
    }
    if let Some(base) = &xdg_config_home {
        if chars_of(base.as_str()).len() > 0 {
            return join_path(base.as_str(), APP_DIR);
        }
    }
    if let Some(base) = &home {
        if chars_of(base.as_str()).len() > 0 {
            let config = join_path(base.as_str(), ".config");
            let r = join_path(config.as_str(), APP_DIR);
            assert(base@ == home->0@);
            assert(through(home->0@, config@, r@));
            return r;
        }
    }
    join_path(".", APP_DIR)
}

/// Reads and writes the settings file of one directory.
#[derive(Debug, Clone)]
pub struct ConfigStore {
    path: String,
}

impl View for ConfigStore {
    type V = Seq<char>;

    /// The settings file's path.
    closed spec fn view(&self) -> Seq<char> {
        self.path@
    }
}

impl ConfigStore {
    /// The store of the settings file in `dir`.
    pub fn new(dir: &str) -> (s: Self)
        ensures
            kept_dir(dir@) ==> is_join(dir@, SETTINGS_FILE@, s@),
    {
        proof {
            reveal_strlit("settings.json");
            assert(plain_name(SETTINGS_FILE@));
        }
        ConfigStore { path: join_path(dir, SETTINGS_FILE) }
    }

    /// The settings file's path.
    pub fn path(&self) -> (r: &str)
        ensures
            r@ == self@,
    {
        self.path.as_str()
    }
}

} // verus!
