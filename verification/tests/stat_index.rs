use poe_wayfinder_app::stat_index::{MatcherIndex, MatcherText};

fn matcher(string: &str, advanced: Option<&str>) -> MatcherText {
    MatcherText {
        string: string.to_string(),
        advanced: advanced.map(str::to_string),
    }
}

fn index() -> MatcherIndex {
    MatcherIndex::from_matchers(&[
        vec![matcher("# to maximum Life", None)],
        vec![
            matcher("# Charm Slots", None),
            matcher("# Charm Slot", Some("# Charm Slot (Advanced)")),
        ],
    ])
}

#[test]
fn a_stat_is_found_by_its_matcher() {
    assert_eq!(index().stat_by_matcher("# to maximum Life"), Some((0, 0)));
}

#[test]
fn a_second_matcher_reaches_the_same_stat() {
    let t = index();

    assert_eq!(t.stat_by_matcher("# Charm Slots"), Some((1, 0)));
    assert_eq!(t.stat_by_matcher("# Charm Slot"), Some((1, 1)));
}

#[test]
fn an_advanced_text_reaches_the_matcher_it_belongs_to() {
    assert_eq!(index().stat_by_matcher("# Charm Slot (Advanced)"), Some((1, 1)));
}

#[test]
fn an_unknown_matcher_finds_nothing() {
    assert!(index().stat_by_matcher("# to maximum Sanity").is_none());
}

#[test]
fn matching_is_exact_and_not_fuzzy() {
    let t = index();

    assert!(t.stat_by_matcher("# to maximum life").is_none());
    assert!(t.stat_by_matcher(" # to maximum Life").is_none());
}

#[test]
fn the_first_stat_to_claim_a_template_keeps_it() {
    let t = MatcherIndex::from_matchers(&[
        vec![matcher("# to maximum Life", None)],
        vec![matcher("# to maximum Life", None)],
    ]);

    assert_eq!(t.stat_by_matcher("# to maximum Life"), Some((0, 0)));
    assert_eq!(t.stat_count(), 2);
}
