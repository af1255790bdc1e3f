use poe_wayfinder_app::frame_watch::{FrameWatch, Verdict, REPEAT_EVERY, STALL_AFTER};

#[test]
fn a_loop_that_ticked_just_now_says_nothing_at_all() {
    let mut watch = FrameWatch::default();

    assert_eq!(watch.look(1_000, 900), None);
}

#[test]
fn a_loop_silent_for_longer_than_the_stall_window_is_reported_once() {
    let mut watch = FrameWatch::default();

    assert_eq!(
        watch.look(STALL_AFTER, 0),
        Some(Verdict::Stalled {
            silent_ms: STALL_AFTER
        })
    );
    assert_eq!(watch.look(STALL_AFTER + 1_000, 0), None);
}

#[test]
fn a_stall_that_lasts_is_repeated_so_a_long_log_still_shows_it() {
    let mut watch = FrameWatch::default();

    watch.look(STALL_AFTER, 0);

    assert_eq!(
        watch.look(STALL_AFTER + REPEAT_EVERY, 0),
        Some(Verdict::Stalled {
            silent_ms: STALL_AFTER + REPEAT_EVERY
        })
    );
}

#[test]
fn a_loop_that_comes_back_is_reported_once_so_the_stall_has_an_end() {
    let mut watch = FrameWatch::default();

    watch.look(STALL_AFTER, 0);

    assert_eq!(
        watch.look(STALL_AFTER + 100, STALL_AFTER + 50),
        Some(Verdict::Ticking { silent_ms: 50 })
    );
    assert_eq!(watch.look(STALL_AFTER + 200, STALL_AFTER + 150), None);
}

#[test]
fn a_loop_that_never_stalled_never_reports_a_recovery() {
    let mut watch = FrameWatch::default();

    for now in [100, 200, 300, 400] {
        assert_eq!(watch.look(now, now), None);
    }
}

#[test]
fn a_tick_stamped_after_the_clock_read_is_treated_as_alive_rather_than_panicking() {
    let mut watch = FrameWatch::default();

    assert_eq!(watch.look(100, 500), None);
}

#[test]
fn a_stall_told_at_one_moment_is_not_told_again_at_the_same_moment() {
    let mut watch = FrameWatch::default();

    assert!(watch.look(50_000, 10_000).is_some());
    assert_eq!(watch.look(50_000, 10_000), None);
    assert_eq!(watch.told_at, Some(50_000));
}

#[test]
fn a_stall_is_told_again_one_repeat_later_and_not_one_millisecond_sooner() {
    let mut watch = FrameWatch::default();

    watch.look(STALL_AFTER, 0);

    assert_eq!(watch.look(STALL_AFTER + REPEAT_EVERY - 1, 0), None);
    assert!(watch.look(STALL_AFTER + REPEAT_EVERY, 0).is_some());
}

#[test]
fn a_recovery_puts_the_watch_back_where_it_started() {
    let mut watch = FrameWatch::default();

    watch.look(STALL_AFTER, 0);
    watch.look(STALL_AFTER + 10, STALL_AFTER + 5);

    assert_eq!(watch, FrameWatch::default());
}

#[test]
fn the_stall_window_starts_exactly_at_its_length() {
    let mut watch = FrameWatch::default();

    assert_eq!(watch.look(STALL_AFTER - 1, 0), None);
    assert_eq!(
        watch.look(STALL_AFTER, 0),
        Some(Verdict::Stalled {
            silent_ms: STALL_AFTER
        })
    );
}
