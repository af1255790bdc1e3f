use poe_wayfinder_app::widgets::Tab;

#[test]
fn every_tab_has_a_title_and_they_are_all_different() {
    let titles: Vec<&str> = Tab::every().iter().map(|t| t.title()).collect();

    assert_eq!(titles.len(), Tab::every().len());

    for (i, title) in titles.iter().enumerate() {
        assert!(!title.is_empty());
        assert!(!titles[i + 1..].contains(title), "{title} appears twice");
    }
}

#[test]
fn the_panel_opens_on_the_status_tab() {
    assert_eq!(Tab::default(), Tab::Status);
    assert_eq!(Tab::every()[0], Tab::Status);
    assert_eq!(Tab::Status.title(), "Status");
    assert_eq!(Tab::Help.title(), "Help");
}

use poe_wayfinder_app::widgets::{Widgets, LOG_LINES_KEPT};

#[test]
fn the_status_tab_is_the_one_that_opens() {
    assert_eq!(Widgets::default().tab, Tab::Status);
}

#[test]
fn showing_a_tab_selects_it() {
    let mut w = Widgets::default();

    w.show(Tab::Maps);

    assert_eq!(w.tab, Tab::Maps);
}

#[test]
fn a_widget_can_be_turned_off_and_back_on() {
    let mut w = Widgets::default();

    w.disable_widget(Tab::Notes);

    assert!(!w.is_enabled(Tab::Notes));
    assert!(!w.enabled().contains(&Tab::Notes));

    w.enable_widget(Tab::Notes);

    assert!(w.is_enabled(Tab::Notes));
}

#[test]
fn turning_off_the_tab_you_are_on_sends_you_back_to_status() {
    let mut w = Widgets::default();

    w.show(Tab::Maps);
    w.disable_widget(Tab::Maps);

    assert_eq!(w.tab, Tab::Status);
}

#[test]
fn status_cannot_be_turned_off_because_there_would_be_nothing_left() {
    let mut w = Widgets::default();

    w.disable_widget(Tab::Status);

    assert!(w.is_enabled(Tab::Status));
}

#[test]
fn a_disabled_tab_cannot_be_opened() {
    let mut w = Widgets::default();

    w.disable_widget(Tab::Notes);
    w.show(Tab::Notes);

    assert_eq!(w.tab, Tab::Status);
}

#[test]
fn a_widget_is_found_by_the_name_it_shows() {
    let w = Widgets::default();

    assert_eq!(w.find_widget("Maps"), Some(Tab::Maps));
    assert_eq!(w.find_widget("Nothing"), None);
}

#[test]
fn the_log_view_keeps_only_the_recent_lines() {
    let mut w = Widgets::default();

    for i in 0..(LOG_LINES_KEPT + 20) {
        w.note_log(&format!("line {i}"));
    }

    assert_eq!(w.log_lines.len(), LOG_LINES_KEPT);
    assert_eq!(
        w.log_lines.last().unwrap(),
        &format!("line {}", LOG_LINES_KEPT + 19),
        "the newest line survives"
    );
}

#[test]
fn a_blank_log_line_is_not_kept() {
    let mut w = Widgets::default();

    w.note_log("   ");

    assert!(w.log_lines.is_empty());
}

#[test]
fn every_tab_but_the_hidden_ones_is_listed_in_panel_order() {
    let mut w = Widgets::default();

    w.disable_widget(Tab::Library);
    w.disable_widget(Tab::Help);
    w.disable_widget(Tab::Library);

    assert_eq!(
        w.enabled(),
        vec![
            Tab::Status,
            Tab::Maps,
            Tab::Search,
            Tab::Notes,
            Tab::Log,
            Tab::Leveling,
            Tab::Settings,
        ]
    );

    w.enable_widget(Tab::Library);

    assert_eq!(w.enabled().len(), 8);
    assert!(!w.is_enabled(Tab::Help));
}

#[test]
fn the_oldest_line_goes_first_when_the_view_is_full() {
    let mut w = Widgets::default();

    for i in 0..LOG_LINES_KEPT {
        w.note_log(&format!("line {i}"));
    }
    w.note_log("  newest  ");

    assert_eq!(w.log_lines.len(), LOG_LINES_KEPT);
    assert_eq!(w.log_lines[0], "line 1");
    assert_eq!(w.log_lines[LOG_LINES_KEPT - 1], "  newest  ");
}
