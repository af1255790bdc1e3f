use std::path::Path;

use poe_wayfinder_app::data_refresh::{refresh_due, stamp_path, to_ndjson, MAX_AGE, STAMP};

const SECOND: u128 = 1_000_000_000;

fn ago(seconds: u64) -> u128 {
    seconds as u128 * SECOND
}

#[test]
fn a_cache_that_was_never_refreshed_is_due() {
    assert!(refresh_due(None, ago(0)));
}

#[test]
fn a_cache_refreshed_just_now_is_not_due() {
    let now = ago((MAX_AGE / SECOND) as u64 * 2);

    assert!(!refresh_due(Some(now), now));
}

#[test]
fn a_cache_older_than_the_window_is_due() {
    let now = ago((MAX_AGE / SECOND) as u64 * 2);
    let then = now - MAX_AGE;

    assert!(refresh_due(Some(then), now));
}

#[test]
fn a_cache_inside_the_window_is_not_due() {
    let now = ago((MAX_AGE / SECOND) as u64 * 2);
    let then = now - MAX_AGE + SECOND;

    assert!(!refresh_due(Some(then), now));
}

#[test]
fn a_stamp_from_the_future_is_left_alone_rather_than_refreshed_forever() {
    let now = ago(100);
    let later = ago(100) + 60 * SECOND;

    assert!(
        !refresh_due(Some(later), now),
        "a clock change must not turn into a refresh on every launch"
    );
}

#[test]
fn the_stamp_lives_beside_the_data_it_describes() {
    let cache = "/cfg/data-poe2";

    let stamp = stamp_path(cache);

    assert_eq!(Path::new(&stamp).parent(), Some(Path::new(cache)));
}

#[test]
fn an_empty_build_writes_an_empty_string_rather_than_a_blank_line() {
    assert_eq!(to_ndjson(&[]), "");
}

#[test]
fn the_refresh_window_is_seven_days() {
    assert_eq!(MAX_AGE, 7 * 24 * 60 * 60 * SECOND);
}

#[test]
fn every_rendered_line_is_ended() {
    let lines = vec!["{\"a\":1}".to_string(), "{\"b\":2}".to_string()];

    assert_eq!(to_ndjson(&lines), "{\"a\":1}\n{\"b\":2}\n");
}

#[test]
fn the_stamp_is_named_and_joined_onto_the_cache() {
    assert_eq!(STAMP, "refreshed-at");
    assert!(stamp_path("/cfg/data-poe2").ends_with("refreshed-at"));
    assert!(stamp_path("/cfg/data-poe2").starts_with("/cfg/data-poe2"));
    assert_ne!(stamp_path("/cfg/data-poe2"), "/cfg/data-poe2refreshed-at");
}

#[test]
fn a_stamp_exactly_one_window_old_is_due() {
    assert!(refresh_due(Some(0), MAX_AGE));
    assert!(!refresh_due(Some(1), MAX_AGE));
}
