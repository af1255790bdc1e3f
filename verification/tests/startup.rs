use poe_wayfinder_app::game::GameVersion;
use poe_wayfinder_app::startup::{Press, Validated, AUTO_GAME};

#[derive(Debug, Clone, Copy, PartialEq, Eq)]
enum Site {
    Wiki,
    Poedb,
    CraftOfExile,
}

fn key(spelling: &str) -> String {
    spelling.to_string()
}

fn bindings(
    locked: &[&str],
    overlay: Option<&str>,
    commands: &[(&str, &str)],
    searches: &[(&str, &str)],
    links: &[(&str, Site)],
) -> Validated<String, String, Site> {
    Validated {
        game: None,
        hotkey: key("Ctrl+D"),
        locked: locked.iter().map(|k| key(k)).collect(),
        overlay: overlay.map(key),
        commands: commands.iter().map(|(k, c)| (key(k), c.to_string())).collect(),
        searches: searches.iter().map(|(k, c)| (key(k), c.to_string())).collect(),
        links: links.iter().map(|(k, s)| (key(k), *s)).collect(),
        network_disabled: false,
    }
}

#[test]
fn the_plain_binding_checks_the_price() {
    let got = bindings(&[], None, &[], &[], &[]);

    assert_eq!(got.every_hotkey(), vec!["Ctrl+D".to_string()]);
    assert_eq!(got.role_of(0), Press::Check);
}

#[test]
fn each_binding_does_the_job_of_the_group_it_stands_in() {
    let got = bindings(
        &["Alt+D"],
        Some("Ctrl+Space"),
        &[("F5", "/hideout"), ("F6", "/exit")],
        &[("F7", "chaos")],
        &[("F8", Site::Wiki)],
    );

    assert_eq!(
        got.every_hotkey(),
        vec!["Ctrl+D", "Alt+D", "Ctrl+Space", "F5", "F6", "F7", "F8"]
    );
    assert_eq!(got.role_of(0), Press::Check);
    assert_eq!(got.role_of(1), Press::Locked);
    assert_eq!(got.role_of(2), Press::ToggleOverlay);
    assert_eq!(got.role_of(3), Press::Command { index: 0 });
    assert_eq!(got.role_of(4), Press::Command { index: 1 });
    assert_eq!(got.role_of(5), Press::StashSearch { index: 0 });
    assert_eq!(got.role_of(6), Press::OpenLink { site: Site::Wiki });
}

#[test]
fn commands_line_up_right_after_the_locked_bindings_when_there_is_no_overlay_key() {
    let got = bindings(&["Alt+D", "Shift+D"], None, &[("F5", "/hideout")], &[], &[]);

    assert_eq!(got.role_of(1), Press::Locked);
    assert_eq!(got.role_of(2), Press::Locked);
    assert_eq!(got.role_of(3), Press::Command { index: 0 });
}

#[test]
fn each_link_opens_its_own_site() {
    let got = bindings(
        &[],
        None,
        &[],
        &[],
        &[("F1", Site::Wiki), ("F2", Site::Poedb), ("F3", Site::CraftOfExile)],
    );

    assert_eq!(got.role_of(1), Press::OpenLink { site: Site::Wiki });
    assert_eq!(got.role_of(2), Press::OpenLink { site: Site::Poedb });
    assert_eq!(got.role_of(3), Press::OpenLink { site: Site::CraftOfExile });
}

#[test]
fn a_binding_past_the_last_checks_the_price() {
    let got = bindings(&["Alt+D"], Some("Ctrl+Space"), &[], &[], &[]);

    assert_eq!(got.every_hotkey().len(), 3);
    assert_eq!(got.role_of(3), Press::Check);
    assert_eq!(got.role_of(50), Press::Check);
}

#[test]
fn with_nothing_pinned_the_run_starts_on_poe2() {
    let mut got = bindings(&[], None, &[], &[], &[]);

    assert_eq!(got.starting_game(), GameVersion::Poe2);

    got.game = Some(GameVersion::Poe1);

    assert_eq!(got.starting_game(), GameVersion::Poe1);
    assert_eq!(AUTO_GAME, "auto");
}
