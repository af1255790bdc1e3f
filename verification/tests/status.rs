use poe_wayfinder_app::data_refresh::MAX_AGE;
use poe_wayfinder_app::game::GameVersion;
use poe_wayfinder_app::status::{
    data_caption, game_caption, headline, health, league_caption, refresh_caption, rows,
    source_caption, Health, LeagueFrom, Status,
};

const SECOND: u128 = 1_000_000_000;

fn ready() -> Status {
    Status {
        game: Some(GameVersion::Poe2),
        window_title: "Path of Exile 2".to_string(),
        hotkey: "Ctrl+D".to_string(),
        league: "Standard".to_string(),
        origin: "embedded".to_string(),
        stats: 3787,
        items: 3573,
        augments: 253,
        network: true,
        ..Status::default()
    }
}

fn at(seconds: u64) -> u128 {
    seconds as u128 * SECOND
}

#[test]
fn a_running_game_and_loaded_data_is_ready() {
    assert_eq!(health(&ready()), Health::Ready);
}

#[test]
fn no_game_yet_is_waiting_rather_than_broken() {
    let status = Status {
        game: None,
        ..ready()
    };

    assert_eq!(health(&status), Health::Waiting);
    assert!(
        headline(&status).contains("Waiting"),
        "{}",
        headline(&status)
    );
}

#[test]
fn no_data_is_degraded_even_with_a_game_running() {
    let status = Status {
        stats: 0,
        ..ready()
    };

    assert_eq!(health(&status), Health::Degraded);
    assert!(headline(&status).contains("No game data"));
}

#[test]
fn a_disabled_network_is_degraded_and_says_so() {
    let status = Status {
        network: false,
        ..ready()
    };

    assert_eq!(health(&status), Health::Degraded);
    assert!(headline(&status).contains("Network"));
}

#[test]
fn paused_beats_every_other_state_because_the_user_asked_for_it() {
    let status = Status {
        paused: true,
        stats: 0,
        game: None,
        ..ready()
    };

    assert_eq!(health(&status), Health::Paused);
}

#[test]
fn the_headline_names_the_window_and_the_key_to_press() {
    let text = headline(&ready());

    assert!(text.contains("Path of Exile 2"), "{text}");
    assert!(text.contains("Ctrl+D"), "{text}");
}

#[test]
fn a_detected_game_is_told_apart_from_one_pinned_by_hand() {
    assert!(game_caption(&ready()).contains("detected"));

    let pinned = Status {
        pinned: true,
        ..ready()
    };

    assert!(game_caption(&pinned).contains("pinned"));
}

#[test]
fn every_data_origin_reads_as_plain_english() {
    for (origin, want) in [
        ("embedded", "built into this app"),
        ("cache", "refreshed"),
        ("directory", "folder you named"),
    ] {
        let status = Status {
            origin: origin.to_string(),
            ..ready()
        };

        assert!(
            data_caption(&status).contains(want),
            "{origin}: {}",
            data_caption(&status)
        );
    }
}

#[test]
fn the_data_caption_counts_everything_that_was_loaded() {
    let text = data_caption(&ready());

    assert!(text.contains("3787"), "{text}");
    assert!(text.contains("3573"), "{text}");
    assert!(text.contains("253"), "{text}");
}

#[test]
fn the_league_caption_says_where_the_league_came_from() {
    for source in [
        LeagueFrom::Configured,
        LeagueFrom::Chosen,
        LeagueFrom::TradeApi,
        LeagueFrom::LastRun,
        LeagueFrom::GameLog,
        LeagueFrom::Fallback,
    ] {
        let status = Status {
            league_source: source,
            ..ready()
        };

        assert!(league_caption(&status).contains(source_caption(source)));
    }
}

#[test]
fn a_league_the_user_chose_by_hand_does_not_read_as_one_the_app_worked_out() {
    let chosen = Status {
        league_source: LeagueFrom::Chosen,
        ..ready()
    };

    let automatic = Status {
        league_source: LeagueFrom::TradeApi,
        ..ready()
    };

    assert_ne!(league_caption(&chosen), league_caption(&automatic));
}

#[test]
fn an_empty_league_says_not_set_rather_than_nothing() {
    let status = Status {
        league: String::new(),
        ..ready()
    };

    assert!(league_caption(&status).contains("not set"));
}

#[test]
fn a_cache_that_never_refreshed_says_when_it_will() {
    let text = refresh_caption(None, at(0));

    assert!(text.contains("never"), "{text}");
    assert!(text.contains("next start"), "{text}");
}

#[test]
fn a_fresh_refresh_reads_in_hours_and_an_old_one_in_days() {
    let now = at((MAX_AGE / SECOND) as u64 * 2);

    assert!(refresh_caption(Some(now - 60 * SECOND), now).contains("less than"));
    assert!(refresh_caption(Some(now - 3_600 * SECOND), now).contains("an hour"));
    assert!(refresh_caption(Some(now - 7_200 * SECOND), now).contains("2 hours"));
    assert!(refresh_caption(Some(now - 86_400 * SECOND), now).contains("a day ago"));
    assert!(refresh_caption(Some(now - 3 * 86_400 * SECOND), now).contains("3 days ago"));
}

#[test]
fn a_refresh_that_is_overdue_says_it_happens_any_moment() {
    let now = at((MAX_AGE / SECOND) as u64 * 2);

    assert!(refresh_caption(Some(now - MAX_AGE), now).contains("any moment"));
}

#[test]
fn a_stamp_from_the_future_does_not_panic_on_the_subtraction() {
    let now = at(100);

    assert_eq!(refresh_caption(Some(now + 60 * SECOND), now), "just now");
}

#[test]
fn every_row_carries_a_label_and_something_to_show() {
    for (label, value) in rows(&ready(), at(0)) {
        assert!(!label.is_empty());
        assert!(!value.trim().is_empty(), "{label} has nothing to show");
    }
}

#[test]
fn the_rows_cover_everything_a_user_would_check_first() {
    let labels: Vec<&str> = rows(&ready(), at(0)).into_iter().map(|(l, _)| l).collect();

    for wanted in ["Game", "Hotkey", "League", "Data", "Refreshed"] {
        assert!(labels.contains(&wanted), "{wanted} is missing");
    }
}

#[test]
fn every_health_state_names_itself_for_the_log() {
    for state in [
        Health::Ready,
        Health::Waiting,
        Health::Paused,
        Health::Degraded,
    ] {
        assert!(!state.as_str().is_empty());
    }
}

#[test]
fn the_captions_read_exactly() {
    assert_eq!(
        headline(&ready()),
        "Watching Path of Exile 2. Press Ctrl+D over an item."
    );
    assert_eq!(game_caption(&ready()), "Path of Exile 2, detected");
    assert_eq!(
        data_caption(&ready()),
        "3787 stats, 3573 items, 253 runes, built into this app"
    );
    assert_eq!(league_caption(&ready()), "Standard, as configured");
    let other = Status {
        origin: "somewhere else".to_string(),
        game: None,
        ..ready()
    };
    assert_eq!(
        data_caption(&other),
        "3787 stats, 3573 items, 253 runes, somewhere else"
    );
    assert_eq!(game_caption(&other), "no game running");
}

#[test]
fn a_refresh_caption_names_both_when_and_how_long_to_go() {
    let now = at(1_000_000);

    assert_eq!(
        refresh_caption(Some(now - 2 * 86_400 * SECOND), now),
        "2 days ago, next in 5 days"
    );
    assert_eq!(
        refresh_caption(Some(now - 6 * 86_400 * SECOND - SECOND), now),
        "6 days ago, next in under a day"
    );
    assert_eq!(
        refresh_caption(Some(now - 30 * 60 * SECOND), now),
        "less than an hour ago, next in 6 days"
    );
    assert_eq!(
        refresh_caption(Some(now - 5 * 86_400 * SECOND - 1), now),
        "5 days ago, next in a day"
    );
}
