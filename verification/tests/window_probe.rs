use poe_wayfinder_app::window_probe::{ProbeError, SystemWindowProbe};

#[test]
fn every_error_names_what_could_not_be_measured() {
    let missing = ProbeError::NotFound {
        title: "Path of Exile 2".to_string(),
    };

    assert!(missing.message().contains("Path of Exile 2"), "{missing:?}");
    assert!(ProbeError::Rect.message().contains("rectangle"));
}

#[test]
fn the_probe_is_made_the_same_way_however_it_is_asked_for() {
    assert_eq!(SystemWindowProbe::new(), SystemWindowProbe::default());
}
