use serde_json::{Map as JsonMap, Value};

use poe_wayfinder_app::data_refresh::{build, Answers, Built, RefreshError};
use poe_wayfinder_app::ndjson::{item_to_ndjson, stat_to_ndjson};
use poe_wayfinder_app::datagen::{
    build_items, build_stats, build_trade_tags, category_for_group, category_from_name,
    is_craftable, map_tier_in, namespace_for, DatagenError, ItemCategory, ItemEntry, ItemGroup,
    ItemRecord, StatEntry, StatGroup, StatRecord, StaticEntry, StaticGroup,
};

fn text(v: &Value, key: &str) -> Result<String, String> {
    v.get(key)
        .and_then(Value::as_str)
        .map(str::to_string)
        .ok_or_else(|| format!("no {key}"))
}

fn maybe_text(v: &Value, key: &str) -> Option<String> {
    v.get(key).and_then(Value::as_str).map(str::to_string)
}

fn listed(v: &Value, key: &str) -> Result<Vec<Value>, String> {
    v.get(key)
        .and_then(Value::as_array)
        .cloned()
        .ok_or_else(|| format!("no {key}"))
}

fn result_of(body: &str) -> Result<Vec<Value>, String> {
    let parsed: Value = serde_json::from_str(body).map_err(|e| e.to_string())?;
    listed(&parsed, "result")
}

fn stat_groups(body: &str) -> Result<Vec<StatGroup>, String> {
    let mut groups = Vec::new();
    for g in result_of(body)? {
        let mut entries = Vec::new();
        for e in listed(&g, "entries")? {
            entries.push(StatEntry {
                id: text(&e, "id")?,
                text: text(&e, "text")?,
                options: e
                    .get("option")
                    .and_then(|o| o.get("options"))
                    .and_then(Value::as_array)
                    .map(Vec::len),
            });
        }
        groups.push(StatGroup {
            id: text(&g, "id")?,
            entries,
        });
    }
    Ok(groups)
}

fn item_groups(body: &str) -> Result<Vec<ItemGroup>, String> {
    let mut groups = Vec::new();
    for g in result_of(body)? {
        let mut entries = Vec::new();
        for e in listed(&g, "entries")? {
            entries.push(ItemEntry {
                base_type: maybe_text(&e, "type"),
                name: maybe_text(&e, "name"),
                disc: maybe_text(&e, "disc"),
                unique: e
                    .get("flags")
                    .map(|f| f.get("unique").and_then(Value::as_bool).unwrap_or(false)),
            });
        }
        groups.push(ItemGroup {
            id: text(&g, "id")?,
            entries,
        });
    }
    Ok(groups)
}

fn static_groups(body: &str) -> Result<Vec<StaticGroup>, String> {
    let mut groups = Vec::new();
    for g in result_of(body)? {
        let entries = listed(&g, "entries")
            .unwrap_or_default()
            .iter()
            .map(|e| StaticEntry {
                id: maybe_text(e, "id"),
                text: maybe_text(e, "text"),
            })
            .collect();
        groups.push(StaticGroup { entries });
    }
    Ok(groups)
}

fn refresh(stats: &str, items: &str, statics: &str) -> Result<Built, RefreshError> {
    let tables = build(Answers {
        stats: stat_groups(stats),
        items: item_groups(items),
        statics: static_groups(statics),
    })?;
    Ok(Built::from_tables(&tables))
}

const STATS: &str = r##"{"result":[
    {"id":"explicit","label":"Explicit","entries":[
        {"id":"explicit.stat_3299347043","text":"# to maximum Life","type":"explicit"},
        {"id":"explicit.stat_2901986750","text":"Allocates #","type":"explicit",
         "option":{"options":[{"id":1,"text":"Acrobatics"},{"id":2,"text":"Ancestral Bond"}]}}
    ]},
    {"id":"implicit","label":"Implicit","entries":[
        {"id":"implicit.stat_3299347043","text":"# to maximum Life","type":"implicit"}
    ]},
    {"id":"pseudo","label":"Pseudo","entries":[
        {"id":"pseudo.pseudo_total_cold_resistance","text":"+#% total to Cold Resistance","type":"pseudo"}
    ]}
]}"##;

const ITEMS: &str = r##"{"result":[
    {"id":"accessory","label":"Accessories","entries":[
        {"type":"Sapphire Ring"},
        {"type":"Two-Stone Ring","disc":"fire_cold"},
        {"type":"Two-Stone Ring","disc":"fire_lightning"},
        {"name":"Kaom's Sign","type":"Gold Ring","flags":{"unique":true}}
    ]},
    {"id":"weapon","label":"Weapons","entries":[
        {"type":"Spine Bow"}
    ]},
    {"id":"gem","label":"Gems","entries":[
        {"type":"Awakened Fire Penetration Support"}
    ]},
    {"id":"card","label":"Cards","entries":[
        {"type":"The Doctor"}
    ]},
    {"id":"monster","label":"Itemised Monsters","entries":[
        {"type":"Cave Beast"}
    ]},
    {"id":"something.new","label":"Unmapped","entries":[
        {"type":"Mystery Thing"}
    ]}
]}"##;

fn stats() -> Vec<StatRecord> {
    build_stats(&stat_groups(STATS).unwrap()).unwrap()
}

fn items() -> Vec<ItemRecord> {
    build_items(&item_groups(ITEMS).unwrap(), &Vec::new()).unwrap()
}

fn ids_in<'a>(record: &'a StatRecord, namespace: &str) -> Option<&'a Vec<String>> {
    record
        .trade_ids
        .iter()
        .find(|(n, _)| n == namespace)
        .map(|(_, ids)| ids)
}

#[test]
fn the_live_stats_shape_builds() {
    assert_eq!(stats().len(), 3);
}

#[test]
fn one_stat_merges_every_namespace_it_appears_in() {
    let life = stats()
        .into_iter()
        .find(|s| s.reference == "# to maximum Life")
        .unwrap();

    assert_eq!(life.trade_ids.len(), 2);
    assert_eq!(
        ids_in(&life, "explicit"),
        Some(&vec!["explicit.stat_3299347043".to_string()])
    );
    assert_eq!(
        ids_in(&life, "implicit"),
        Some(&vec!["implicit.stat_3299347043".to_string()])
    );
}

#[test]
fn a_stat_with_a_fixed_option_list_is_flagged() {
    let allocates = stats()
        .into_iter()
        .find(|s| s.reference == "Allocates #")
        .unwrap();

    assert!(allocates.option);
}

#[test]
fn a_stat_without_options_is_not_flagged() {
    let life = stats()
        .into_iter()
        .find(|s| s.reference == "# to maximum Life")
        .unwrap();

    assert!(!life.option);
}

#[test]
fn pseudo_stats_are_kept() {
    assert!(stats()
        .iter()
        .any(|s| s.reference.contains("total to Cold Resistance")));
}

#[test]
fn the_output_is_sorted_so_two_runs_produce_the_same_file() {
    let a = stats();
    let mut sorted = a.clone();
    sorted.sort_by(|x, y| x.reference.cmp(&y.reference));

    assert_eq!(a, sorted);
}

#[test]
fn a_stat_with_empty_text_is_dropped() {
    let body = r##"{"result":[{"id":"explicit","entries":[
        {"id":"a","text":""},{"id":"b","text":"  "},{"id":"c","text":"# to maximum Life"}
    ]}]}"##;

    assert_eq!(build_stats(&stat_groups(body).unwrap()).unwrap().len(), 1);
}

#[test]
fn a_stats_response_that_is_not_json_is_a_decode_error() {
    let err = build(Answers {
        stats: stat_groups("<html>503</html>"),
        items: item_groups(ITEMS),
        statics: static_groups(STATIC),
    })
    .err()
    .unwrap();

    assert!(err.message().contains("stats"));
    assert!(matches!(
        err,
        RefreshError::Build {
            source: DatagenError::Decode { table: "stats", .. },
            ..
        }
    ));
}

#[test]
fn an_empty_stats_response_is_an_error_and_not_an_empty_file() {
    let err = build_stats(&stat_groups(r#"{"result":[]}"#).unwrap()).unwrap_err();

    assert!(matches!(err, DatagenError::Empty { table: "stats" }));
}

#[test]
fn the_live_items_shape_builds() {
    assert_eq!(items().len(), 9);
}

#[test]
fn an_accessory_gets_its_category_from_its_name() {
    let ring = items()
        .into_iter()
        .find(|i| i.name == "Sapphire Ring")
        .unwrap();

    assert_eq!(ring.category.as_deref(), Some("Ring"));
    assert_eq!(ring.namespace, "ITEM");
}

#[test]
fn a_waystone_carries_the_tier_from_its_name() {
    assert_eq!(map_tier_in("Waystone (Tier 16)"), Some(16));
    assert_eq!(map_tier_in("Waystone (Tier 1)"), Some(1));
}

#[test]
fn a_base_with_no_tier_in_its_name_has_none() {
    assert_eq!(map_tier_in("Sapphire Ring"), None);
    assert_eq!(map_tier_in("Waystone"), None);
}

#[test]
fn a_tier_that_is_not_a_number_is_not_a_tier() {
    assert_eq!(map_tier_in("Thing (Tier of Doom)"), None);
    assert_eq!(map_tier_in("Thing (Tier )"), None);
}

#[test]
fn a_tier_must_be_at_the_end_of_the_name() {
    assert_eq!(map_tier_in("Waystone (Tier 3) of Doom"), None);
}

#[test]
fn a_tier_too_large_for_a_number_is_not_a_tier() {
    assert_eq!(map_tier_in("Waystone (Tier 99999999999)"), None);
    assert_eq!(map_tier_in("Waystone (Tier +3)"), None);
}

#[test]
fn a_weapon_base_is_craftable() {
    let bow = items().into_iter().find(|i| i.name == "Spine Bow").unwrap();

    assert!(bow.craftable);
}

#[test]
fn an_accessory_is_craftable() {
    let ring = items()
        .into_iter()
        .find(|i| i.name == "Sapphire Ring")
        .unwrap();

    assert!(ring.craftable);
}

#[test]
fn a_gem_is_not_craftable() {
    let gem = items()
        .into_iter()
        .find(|i| i.name == "Awakened Fire Penetration Support")
        .unwrap();

    assert!(!gem.craftable);
}

#[test]
fn a_divination_card_is_not_craftable() {
    let card = items()
        .into_iter()
        .find(|i| i.name == "The Doctor")
        .unwrap();

    assert!(!card.craftable);
}

#[test]
fn a_gem_is_filed_in_the_gem_table() {
    let gem = items()
        .into_iter()
        .find(|i| i.name == "Awakened Fire Penetration Support")
        .unwrap();

    assert_eq!(gem.namespace, "GEM");
}

#[test]
fn a_divination_card_is_filed_in_the_card_table() {
    let card = items()
        .into_iter()
        .find(|i| i.name == "The Doctor")
        .unwrap();

    assert_eq!(card.namespace, "DIVINATION_CARD");
}

#[test]
fn an_itemised_monster_is_filed_in_the_beast_table() {
    let beast = items()
        .into_iter()
        .find(|i| i.name == "Cave Beast")
        .unwrap();

    assert_eq!(beast.namespace, "CAPTURED_BEAST");
}

#[test]
fn a_weapon_base_carries_no_category_from_this_source() {
    let bow = items().into_iter().find(|i| i.name == "Spine Bow").unwrap();

    assert_eq!(bow.category, None);
}

#[test]
fn a_unique_is_filed_by_its_own_name_in_the_unique_namespace() {
    let unique = items()
        .into_iter()
        .find(|i| i.namespace == "UNIQUE")
        .unwrap();

    assert_eq!(unique.name, "Kaom's Sign");
}

#[test]
fn both_discriminated_variants_survive() {
    let discs: Vec<Option<String>> = items()
        .into_iter()
        .filter(|i| i.name == "Two-Stone Ring")
        .map(|i| i.trade_discriminator)
        .collect();

    assert_eq!(discs.len(), 2);
    assert!(discs.contains(&Some("fire_cold".to_string())));
    assert!(discs.contains(&Some("fire_lightning".to_string())));
}

#[test]
fn an_unmapped_group_still_yields_its_bases() {
    let mystery = items()
        .into_iter()
        .find(|i| i.name == "Mystery Thing")
        .unwrap();

    assert_eq!(mystery.category, None);
}

#[test]
fn duplicate_entries_are_collapsed() {
    let body = r##"{"result":[
        {"id":"accessory","entries":[{"type":"Sapphire Ring"}]},
        {"id":"accessory","entries":[{"type":"Sapphire Ring"}]}
    ]}"##;

    assert_eq!(
        build_items(&item_groups(body).unwrap(), &Vec::new())
            .unwrap()
            .len(),
        1
    );
}

#[test]
fn an_entry_with_no_name_at_all_is_dropped() {
    let body = r##"{"result":[{"id":"accessory","entries":[
        {},{"type":""},{"type":"Sapphire Ring"}
    ]}]}"##;

    assert_eq!(
        build_items(&item_groups(body).unwrap(), &Vec::new())
            .unwrap()
            .len(),
        1
    );
}

#[test]
fn an_empty_items_response_is_an_error() {
    let err = build_items(&item_groups(r#"{"result":[]}"#).unwrap(), &Vec::new()).unwrap_err();

    assert!(matches!(err, DatagenError::Empty { table: "items" }));
}

#[test]
fn the_items_are_sorted_by_every_field_in_turn() {
    let names: Vec<(String, Option<String>)> = items()
        .into_iter()
        .map(|i| (i.name, i.trade_discriminator))
        .collect();
    let mut sorted = names.clone();
    sorted.sort();

    assert_eq!(names, sorted);
    assert_eq!(names[0].0, "Awakened Fire Penetration Support");
}

#[test]
fn a_group_that_is_already_one_category_resolves() {
    assert_eq!(category_for_group("flask"), Some(ItemCategory::Flask));
    assert_eq!(category_for_group("jewel"), Some(ItemCategory::Jewel));
    assert_eq!(category_for_group("map"), Some(ItemCategory::MapItem));
    assert_eq!(category_for_group("currency"), Some(ItemCategory::Currency));
}

#[test]
fn a_coarse_group_yields_no_category_of_its_own() {
    assert_eq!(category_for_group("accessory"), None);
    assert_eq!(category_for_group("armour"), None);
    assert_eq!(category_for_group("weapon"), None);
    assert_eq!(category_for_group(""), None);
}

#[test]
fn an_accessory_resolves_from_its_name() {
    assert_eq!(
        category_from_name("accessory", "Sapphire Ring"),
        Some(ItemCategory::Ring)
    );
    assert_eq!(
        category_from_name("accessory", "Gold Amulet"),
        Some(ItemCategory::Amulet)
    );
    assert_eq!(
        category_from_name("accessory", "Rawhide Belt"),
        Some(ItemCategory::Belt)
    );
}

#[test]
fn an_armour_or_weapon_name_is_not_guessed_from() {
    assert_eq!(category_from_name("armour", "Iron Greathelm"), None);
    assert_eq!(category_from_name("weapon", "Spine Bow"), None);
}

#[test]
fn an_unrecognised_accessory_ending_yields_nothing() {
    assert_eq!(category_from_name("accessory", "Heavy Chain"), None);
    assert_eq!(category_from_name("accessory", ""), None);
}

#[test]
fn the_namespace_and_craftability_follow_the_group() {
    assert_eq!(namespace_for("gem", true), "UNIQUE");
    assert_eq!(namespace_for("weapon", false), "ITEM");
    assert!(is_craftable("heistequipment"));
    assert!(!is_craftable("currency"));
}

const STATIC: &str = r##"{"result":[{"id":"Currency","label":"Currency","entries":[{"id":"chaos","text":"Chaos Orb"}]}]}"##;

const NOTHING: &str = r##"{"result":[]}"##;

#[test]
fn the_first_tag_named_for_a_text_wins() {
    let body = r##"{"result":[{"entries":[
        {"id":"chaos","text":"Chaos Orb"},{"id":"chaos2","text":"Chaos Orb"},
        {"id":" ","text":"Blank"},{"text":"No Id"},{"id":"alch","text":"Orb of Alchemy"}
    ]}]}"##;

    let tags = build_trade_tags(&static_groups(body).unwrap()).unwrap();

    assert_eq!(
        tags,
        vec![
            ("Chaos Orb".to_string(), "chaos".to_string()),
            ("Orb of Alchemy".to_string(), "alch".to_string()),
        ]
    );
}

#[test]
fn a_base_named_by_the_static_table_carries_its_tag() {
    let body = r##"{"result":[{"id":"currency","entries":[{"type":"Chaos Orb"}]}]}"##;
    let tags = build_trade_tags(&static_groups(STATIC).unwrap()).unwrap();

    let got = build_items(&item_groups(body).unwrap(), &tags).unwrap();

    assert_eq!(got[0].trade_tag.as_deref(), Some("chaos"));
    assert_eq!(got[0].category.as_deref(), Some("Currency"));
    assert!(!got[0].craftable);
}

#[test]
fn a_good_answer_becomes_two_ndjson_files() {
    let built = refresh(STATS, ITEMS, STATIC).expect("a build");

    assert!(built.stat_count > 0);
    assert!(built.item_count > 0);
    assert!(built.stats.ends_with('\n'));
    assert!(built.items.ends_with('\n'));

    for line in built.stats.lines().chain(built.items.lines()) {
        assert!(line.starts_with('{') && line.ends_with('}'), "{line}");
    }
}

#[test]
fn an_answer_with_no_stats_is_refused_rather_than_written() {
    let err = refresh(NOTHING, ITEMS, STATIC).expect_err("a refusal");

    assert!(err.message().contains("stats"), "{err:?}");
}

#[test]
fn an_answer_with_no_items_is_refused_rather_than_written() {
    let err = refresh(STATS, NOTHING, STATIC).expect_err("a refusal");

    assert!(err.message().contains("items"), "{err:?}");
}

#[test]
fn an_answer_with_no_static_table_is_refused_rather_than_written() {
    let err = refresh(STATS, ITEMS, NOTHING).expect_err("a refusal");

    assert!(err.message().contains("trade tags"), "{err:?}");
}

#[test]
fn a_body_that_is_not_json_names_the_table_it_came_from() {
    let err = refresh("not json", ITEMS, STATIC).expect_err("a refusal");

    assert!(err.message().contains("stats"), "{err:?}");
}

#[test]
fn the_refusal_names_the_first_table_that_failed() {
    let err = refresh(NOTHING, NOTHING, NOTHING).expect_err("a refusal");

    assert_eq!(
        err,
        RefreshError::Build {
            table: "trade tags",
            source: DatagenError::Empty { table: "static" }
        }
    );
    assert_eq!(
        err.message(),
        "building trade tags from what the trade api returned"
    );
}

#[test]
fn a_datagen_error_names_its_table() {

    assert_eq!(
        DatagenError::Empty { table: "stats" }.message(),
        "the stats table held no usable records"
    );
    assert_eq!(
        DatagenError::Decode {
            table: "items",
            message: "expected value at line 1 column 1".to_string()
        }
        .message(),
        "reading the items table"
    );
}

#[test]
fn a_stat_record_renders_as_the_shape_the_loader_reads() {
    let record = &stats()[0];

    let line = stat_to_ndjson(record);
    let parsed: Value = serde_json::from_str(&line).unwrap();

    assert!(parsed["ref"].is_string());
    assert!(parsed["matchers"][0]["string"].is_string());
    assert!(parsed["trade"]["ids"].is_object());
}

#[test]
fn an_item_record_renders_as_the_shape_the_loader_reads() {
    let ring = items()
        .into_iter()
        .find(|i| i.name == "Sapphire Ring")
        .unwrap();

    let line = item_to_ndjson(&ring);
    let parsed: Value = serde_json::from_str(&line).unwrap();

    assert_eq!(parsed["name"], "Sapphire Ring");
    assert_eq!(parsed["refName"], "Sapphire Ring");
    assert_eq!(parsed["namespace"], "ITEM");
    assert_eq!(parsed["craftable"]["category"], "Ring");
}

#[test]
fn an_item_with_no_discriminator_omits_the_key() {
    let ring = items()
        .into_iter()
        .find(|i| i.name == "Sapphire Ring")
        .unwrap();

    let parsed: Value = serde_json::from_str(&item_to_ndjson(&ring)).unwrap();

    assert!(parsed.get("tradeDisc").is_none());
}

#[test]
fn a_discriminated_item_carries_its_discriminator() {
    let two_stone = items()
        .into_iter()
        .find(|i| i.trade_discriminator.is_some())
        .unwrap();

    let parsed: Value = serde_json::from_str(&item_to_ndjson(&two_stone)).unwrap();

    assert!(parsed["tradeDisc"].is_string());
}

#[test]
fn every_rendered_line_holds_no_newline() {
    for record in stats() {
        assert!(!stat_to_ndjson(&record).contains('\n'));
    }

    for record in items() {
        assert!(!item_to_ndjson(&record).contains('\n'));
    }
}

#[test]
fn every_rendered_line_is_written_as_serde_json_writes_it() {
    for record in stats() {
        let line = stat_to_ndjson(&record);
        let parsed: Value = serde_json::from_str(&line).unwrap();
        assert_eq!(parsed.to_string(), line);
    }

    for record in items() {
        let line = item_to_ndjson(&record);
        let parsed: Value = serde_json::from_str(&line).unwrap();
        assert_eq!(parsed.to_string(), line);
    }
}

#[test]
fn a_quote_in_a_name_is_escaped() {
    let record = ItemRecord {
        name: "The \"Doctor\"\nCard".to_string(),
        namespace: "ITEM".to_string(),
        trade_discriminator: None,
        category: None,
        craftable: true,
        map_tier: Some(16),
        trade_tag: Some("doctor".to_string()),
    };

    assert_eq!(
        item_to_ndjson(&record),
        r#"{"craftable":{},"map":{"tier":16},"name":"The \"Doctor\"\nCard","namespace":"ITEM","refName":"The \"Doctor\"\nCard","tradeTag":"doctor"}"#
    );
}

#[test]
fn a_name_with_quotes_backslashes_and_control_characters_is_escaped() {
    let record = ItemRecord {
        name: "a\"b\\c\nd\u{1}e\u{1f}\u{8}\u{c}\t\r".to_string(),
        namespace: "ITEM".to_string(),
        trade_discriminator: None,
        category: None,
        craftable: false,
        map_tier: None,
        trade_tag: None,
    };

    let line = item_to_ndjson(&record);
    let escaped = "\"a\\\"b\\\\c\\nd\\u0001e\\u001f\\b\\f\\t\\r\"";

    assert!(line.contains(&format!("\"name\":{escaped}")));
    assert!(!line.contains('\n'));
    let parsed: Value = serde_json::from_str(&line).unwrap();
    assert_eq!(parsed["name"], Value::String(record.name.clone()));
}
