use poe_wayfinder_app::clock::SystemClock;

#[test]
fn time_never_runs_backwards() {
    let clock = SystemClock::new();

    let first = clock.now();
    let second = clock.now();

    assert!(second >= first, "{second} came before {first}");
}

#[test]
fn the_first_reading_is_near_zero() {
    assert!(SystemClock::new().now() < 60_000);
}

#[test]
fn default_matches_new() {
    let made: SystemClock = Default::default();

    assert!(made.now() < 60_000);
}
