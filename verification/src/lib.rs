//! The verified core of an overlay that prices items: log parsing, session
//! tracking, the network allowlist, status captions and the source scanners.
use vstd::prelude::*;

pub mod arch;
pub mod capability;
pub mod catalogue;
pub mod assets;
pub mod clipboard;
pub mod clock;
pub mod config_store;
pub mod copy;
pub mod data_refresh;
pub mod datacheck;
pub mod datagen;
pub mod frame_watch;
pub mod game;
pub mod game_config;
pub mod game_data;
pub mod game_log;
pub mod game_window;
pub mod gamepad;
pub mod http_policy;
pub mod input;
pub mod item_index;
pub mod keyed;
pub mod log_watch;
pub mod ndjson;
pub mod order;
pub mod outline;
pub mod paths;
pub mod price_check;
pub mod report;
pub mod scan;
pub mod session;
pub mod standing;
pub mod stat_index;
pub mod settings;
pub mod startup;
pub mod status;
pub mod text;
pub mod trader_arch;
pub mod widgets;
pub mod window_probe;

verus! {
} // verus!
