use poe_wayfinder_app::game::GameVersion;
use poe_wayfinder_app::game_data::cache_dir;
use poe_wayfinder_app::game_data::Origin;

#[test]
fn every_origin_names_itself_for_the_log() {
    for origin in [Origin::Directory, Origin::Cache, Origin::Embedded] {
        assert!(!origin.as_str().is_empty(), "{origin:?}");
    }
}

#[test]
fn the_origin_names_are_the_ones_the_status_tab_reads() {
    assert_eq!(Origin::Directory.as_str(), "directory");
    assert_eq!(Origin::Cache.as_str(), "cache");
    assert_eq!(Origin::Embedded.as_str(), "embedded");
}

#[test]
fn the_cache_directory_is_per_game() {

    let config = "/cfg";

    assert_ne!(
        cache_dir(config, GameVersion::Poe1),
        cache_dir(config, GameVersion::Poe2)
    );
    assert_eq!(
        std::path::Path::new(&cache_dir(config, GameVersion::Poe2)),
        std::path::Path::new("/cfg/data-poe2")
    );
}
