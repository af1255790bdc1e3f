use poe_wayfinder_app::standing::{status_of, tally, Standing};

const WAIVED: &[&str] = &["parseVaalGemName"];
const ALIASES: &[(&str, &str)] = &[("itemTextToSections", "text_to_sections")];

#[test]
fn a_function_defined_under_its_snake_case_name_is_found() {
    let ours = "pub fn parse_augment_sockets(section: &[String]) {}";

    assert_eq!(status_of("parseAugmentSockets", ours, WAIVED, ALIASES), Standing::Found);
}

#[test]
fn a_generic_function_is_found() {
    let ours = "pub fn copy_item<F>(clipboard: &mut dyn Clipboard) {}";

    assert_eq!(status_of("copyItem", ours, WAIVED, ALIASES), Standing::Found);
}

#[test]
fn a_function_the_source_lacks_is_missing() {
    assert_eq!(status_of("parseSomethingNew", "", WAIVED, ALIASES), Standing::Missing);
}

#[test]
fn a_longer_name_that_starts_alike_does_not_count() {
    let ours = "pub fn parse_foo_bar() {}";

    assert_eq!(status_of("parseFoo", ours, WAIVED, ALIASES), Standing::Missing);
}

#[test]
fn an_aliased_function_is_found_under_its_alias() {
    let ours = "pub fn text_to_sections(text: &str) {}";

    assert_eq!(status_of("itemTextToSections", ours, WAIVED, ALIASES), Standing::Found);
}

#[test]
fn an_alias_that_points_nowhere_is_still_missing() {
    assert_eq!(status_of("itemTextToSections", "", WAIVED, ALIASES), Standing::Missing);
}

#[test]
fn a_waived_function_is_not_missing() {
    assert_eq!(status_of("parseVaalGemName", "", WAIVED, ALIASES), Standing::Waived);
}

#[test]
fn the_tally_counts_and_groups_the_missing_by_shortened_path() {
    let files = vec![
        (
            "/x/renderer/src/parser/Parser.ts".to_string(),
            vec!["parseFoo".to_string(), "parseVaalGemName".to_string(), "parseBar".to_string()],
        ),
        (
            "/x/renderer/src/web/Price.ts".to_string(),
            vec!["copyItem".to_string()],
        ),
        (
            "/x/renderer/src/parser/Parser.ts".to_string(),
            vec!["parseBaz".to_string()],
        ),
    ];
    let ours = "fn parse_foo() {}\nfn copy_item<T>() {}";

    let got = tally(&files, ours, WAIVED, ALIASES);

    assert_eq!(got.found, 2);
    assert_eq!(got.waived, 1);
    assert_eq!(
        got.missing,
        vec![(
            "parser/Parser.ts".to_string(),
            vec!["parseBar".to_string(), "parseBaz".to_string()]
        )]
    );
}
