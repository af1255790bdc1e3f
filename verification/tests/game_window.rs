use poe_wayfinder_app::game_window::{
    should_draw, GameWindow, GameWindowAdapter, WindowError, WindowRect,
};

fn window(x: i32, y: i32, w: u32, h: u32, foreground: bool) -> GameWindow {
    GameWindow {
        rect: WindowRect::new(x, y, w, h),
        is_foreground: foreground,
    }
}

#[test]
fn a_visible_foreground_window_is_drawn_over() {
    assert!(should_draw(&window(0, 0, 1920, 1080, true)));
}

#[test]
fn a_background_window_is_not_drawn_over() {
    assert!(!should_draw(&window(0, 0, 1920, 1080, false)));
}

#[test]
fn a_minimised_window_is_not_drawn_over() {
    assert!(!should_draw(&window(0, 0, 0, 0, true)));
    assert!(!should_draw(&window(0, 0, 1920, 0, true)));
}

#[test]
fn a_window_at_a_negative_origin_is_still_drawn_over() {
    assert!(should_draw(&window(-1920, 0, 1920, 1080, true)));
}

#[test]
fn a_missing_window_names_the_title_it_looked_for() {
    let err = WindowError::NotFound {
        title: "Path of Exile 2".into(),
    };

    assert!(err.message().contains("Path of Exile 2"));
}

#[test]
fn every_window_error_prints_a_distinct_message() {
    let messages: Vec<String> = [
        WindowError::NotFound { title: "a".into() },
        WindowError::Rect { title: "a".into() },
        WindowError::SendInput,
    ]
    .iter()
    .map(|e| e.message())
    .collect();

    let mut seen = messages.clone();
    seen.sort();
    seen.dedup();

    assert_eq!(seen.len(), messages.len());
}

#[test]
fn the_title_looked_for_is_quoted_in_the_message() {
    let err = WindowError::NotFound {
        title: "Path of Exile 2".into(),
    };

    assert_eq!(err.message(), "no window titled \"Path of Exile 2\" is open");
}

#[test]
fn the_adapter_looks_for_the_title_it_was_last_given() {
    let mut adapter = GameWindowAdapter::new("Path of Exile");

    assert_eq!(adapter.title(), "Path of Exile");

    adapter.retarget("Path of Exile 2");

    assert_eq!(adapter.title(), "Path of Exile 2");
}
