use poe_wayfinder_app::game::{GamePair, GameVersion, LastLeague, LEAGUE_NAME_LIMIT};

#[test]
fn a_league_remembered_for_one_game_is_not_read_back_for_the_other() {
    let mut league = LastLeague::default();

    league.set(GameVersion::Poe1, "Mercenaries");
    league.set(GameVersion::Poe2, "Rise of the Abyssal");

    assert_eq!(league.get(GameVersion::Poe1), "Mercenaries");
    assert_eq!(league.get(GameVersion::Poe2), "Rise of the Abyssal");
}

#[test]
fn upgrading_a_single_league_keeps_it_for_the_game_that_was_not_named() {
    let mut league = LastLeague::Shared("Standard".into());

    league.set(GameVersion::Poe2, "Rise of the Abyssal");

    assert_eq!(league.get(GameVersion::Poe1), "Standard");
    assert_eq!(league.get(GameVersion::Poe2), "Rise of the Abyssal");
}

#[test]
fn a_shared_league_is_read_back_for_both_games() {
    let league = LastLeague::Shared("Standard".into());

    assert_eq!(league.get(GameVersion::Poe1), "Standard");
    assert_eq!(league.get(GameVersion::Poe2), "Standard");
    assert_eq!(LastLeague::default().get(GameVersion::Poe2), "");
}

#[test]
fn setting_a_league_keeps_it_per_game_from_then_on() {
    let mut league = LastLeague::default();

    league.set(GameVersion::Poe1, "Mercenaries");

    assert_eq!(
        league,
        LastLeague::PerGame(GamePair::new(
            "Mercenaries".to_string(),
            String::new()
        ))
    );
}

#[test]
fn an_absurd_league_name_is_dropped() {
    let absurd = "x".repeat(LEAGUE_NAME_LIMIT + 1);
    let fits = "y".repeat(LEAGUE_NAME_LIMIT);

    let shared = LastLeague::Shared(absurd.clone()).dropping_absurd_names();
    assert_eq!(shared, LastLeague::Shared(String::new()));

    let pair = LastLeague::PerGame(GamePair::new(absurd, fits.clone())).dropping_absurd_names();
    assert_eq!(pair.get(GameVersion::Poe1), "");
    assert_eq!(pair.get(GameVersion::Poe2), fits);
}

#[test]
fn the_name_limit_counts_bytes_rather_than_characters() {
    let wide = "é".repeat(21);

    assert_eq!(
        LastLeague::Shared(wide).dropping_absurd_names(),
        LastLeague::Shared(String::new())
    );
}

#[test]
fn a_pair_keeps_one_value_per_game() {
    let mut pair = GamePair::new(1, 2);

    pair.set(GameVersion::Poe2, 5);

    assert_eq!(*pair.get(GameVersion::Poe1), 1);
    assert_eq!(*pair.get(GameVersion::Poe2), 5);
}
