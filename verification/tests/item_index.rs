use poe_wayfinder_app::item_index::ItemIndex;

fn items(entries: &[(&str, Option<&str>)]) -> Vec<(String, Option<String>)> {
    entries
        .iter()
        .map(|(name, namespace)| (name.to_string(), namespace.map(str::to_string)))
        .collect()
}

fn tables() -> (Vec<(String, Option<String>)>, ItemIndex) {
    let given = items(&[
        ("Chaos Orb", Some("ITEM")),
        ("Waystone of Chaos", Some("ITEM")),
        ("Kaom's Heart", Some("UNIQUE")),
    ]);
    let index = ItemIndex::from_items(&given);
    (given, index)
}

#[test]
fn an_item_is_found_by_name() {
    let (given, t) = tables();

    let got = t.items_by_name("Chaos Orb", "ITEM");

    assert_eq!(got.len(), 1);
    assert_eq!(given[got[0]].0, "Chaos Orb");
}

#[test]
fn item_lookup_ignores_case() {
    let (_, t) = tables();

    assert_eq!(t.items_by_name("chaos orb", "ITEM").len(), 1);
    assert_eq!(t.items_by_name("CHAOS ORB", "ITEM").len(), 1);
}

#[test]
fn an_item_in_another_namespace_is_not_returned() {
    let (_, t) = tables();

    assert!(t.items_by_name("Chaos Orb", "UNIQUE").is_empty());
}

#[test]
fn an_unknown_item_finds_nothing() {
    let (_, t) = tables();

    assert!(t.items_by_name("Mirror of Kalandra", "ITEM").is_empty());
}

#[test]
fn two_bases_with_one_name_are_both_returned() {
    let t = ItemIndex::from_items(&items(&[
        ("Two-Stone Ring", Some("ITEM")),
        ("Chaos Orb", Some("ITEM")),
        ("two-stone ring", Some("ITEM")),
    ]));

    assert_eq!(t.items_by_name("Two-Stone Ring", "ITEM"), vec![0, 2]);
    assert_eq!(t.item_name_count(), 2);
}

#[test]
fn an_unknown_namespace_is_skipped_rather_than_fatal() {
    let t = ItemIndex::from_items(&items(&[("Chaos Orb", None), ("Exalted Orb", Some("ITEM"))]));

    assert!(t.items_by_name("Chaos Orb", "ITEM").is_empty());
    assert_eq!(t.items_by_name("Exalted Orb", "ITEM"), vec![1]);
    assert_eq!(t.item_name_count(), 1);
}

#[test]
fn one_name_in_two_namespaces_counts_twice() {
    let t = ItemIndex::from_items(&items(&[("Chaos Orb", Some("ITEM")), ("Chaos Orb", Some("UNIQUE"))]));

    assert_eq!(t.item_name_count(), 2);
    assert_eq!(t.items_by_name("chaos orb", "UNIQUE"), vec![1]);
}
