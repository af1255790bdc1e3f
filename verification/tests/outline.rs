use poe_wayfinder_app::outline::{
    arrow_binding, script_block, short_path, to_snake_case, top_level_function_declarations,
    top_level_functions,
};

#[test]
fn top_level_functions_are_found() {
    let text = "\
export function parseFoo(a: string) {}
function parseBar() {}
export function* linesToStatStrings() {}
";

    assert_eq!(
        top_level_functions(text),
        vec!["linesToStatStrings", "parseBar", "parseFoo"]
    );
}

#[test]
fn an_indented_function_is_not_top_level() {
    let text = "  function inner() {}\n    function deeper() {}";

    assert!(top_level_functions(text).is_empty());
}

#[test]
fn a_function_is_listed_once_however_often_it_appears() {
    let text = "function parseFoo() {}\nfunction parseFoo() {}";

    assert_eq!(top_level_functions(text), vec!["parseFoo"]);
}

#[test]
fn camel_case_becomes_snake_case() {
    assert_eq!(
        to_snake_case("parseAugmentSockets"),
        "parse_augment_sockets"
    );
    assert_eq!(to_snake_case("calcBasePercentile"), "calc_base_percentile");
    assert_eq!(to_snake_case("parse"), "parse");
}

#[test]
fn a_leading_capital_gains_no_underscore() {
    assert_eq!(to_snake_case("ParseFoo"), "parse_foo");
}

#[test]
fn the_reference_path_is_shortened_to_its_meaningful_part() {
    let path = "/home/x/reference/trade-ui/renderer/src/parser/Parser.ts";

    assert_eq!(short_path(path), "parser/Parser.ts");
}

#[test]
fn a_path_outside_the_reference_is_left_alone() {
    assert_eq!(short_path("/tmp/x.ts"), "/tmp/x.ts");
}

#[test]
fn poe_trader_parity_top_level_functions_are_found() {
    let text = "\
export function parseFoo(a: string) {}
function parseBar() {}
export function* linesToStatStrings() {}
";

    assert_eq!(
        top_level_function_declarations(text),
        vec!["linesToStatStrings", "parseBar", "parseFoo"]
    );
}

#[test]
fn poe_trader_parity_an_indented_function_is_not_top_level() {
    let text = "  function inner() {}\n    function deeper() {}";

    assert!(top_level_function_declarations(text).is_empty());
}

#[test]
fn poe_trader_parity_a_function_is_listed_once_however_often_it_appears() {
    let text = "function parseFoo() {}\nfunction parseFoo() {}";

    assert_eq!(top_level_function_declarations(text), vec!["parseFoo"]);
}

#[test]
fn poe_trader_parity_camel_case_becomes_snake_case() {
    assert_eq!(
        to_snake_case("parseAugmentSockets"),
        "parse_augment_sockets"
    );
    assert_eq!(to_snake_case("calcBasePercentile"), "calc_base_percentile");
    assert_eq!(to_snake_case("parse"), "parse");
}

#[test]
fn poe_trader_parity_a_leading_capital_gains_no_underscore() {
    assert_eq!(to_snake_case("ParseFoo"), "parse_foo");
}

#[test]
fn poe_trader_parity_the_reference_path_is_shortened_to_its_meaningful_part() {
    let path = "/home/x/reference/trade-ui/renderer/src/parser/Parser.ts";

    assert_eq!(short_path(path), "parser/Parser.ts");
}

#[test]
fn poe_trader_parity_a_path_outside_the_reference_is_left_alone() {
    assert_eq!(short_path("/tmp/x.ts"), "/tmp/x.ts");
}

#[test]
fn an_arrow_function_bound_to_a_const_is_a_function() {
    let text = "export const parseFoo = (a: string) => a\nconst helper = async (x) => x\nconst pick = x => x\nconst value = 3\nconst call = foo(1) => bar\nconst obj.x = (a) => a\n";

    assert_eq!(top_level_functions(text), vec!["helper", "parseFoo", "pick"]);
    assert!(top_level_function_declarations(text).is_empty());
}

#[test]
fn an_arrow_binding_hands_back_what_follows_const() {
    assert_eq!(
        arrow_binding("export const parseFoo = (a) => a").as_deref(),
        Some("parseFoo = (a) => a")
    );
    assert_eq!(arrow_binding("const total = items.length"), None);
    assert_eq!(arrow_binding("let x = () => 1"), None);
}

#[test]
fn the_script_of_a_vue_component_is_its_script_blocks() {
    let text = "<template><div/></template>\n<script setup lang=\"ts\">\nfunction a() {}\n</script>\n<style></style>";

    assert_eq!(script_block(text), "\nfunction a() {}\n\n");
    assert_eq!(script_block("no script here"), "");
    assert_eq!(script_block("<script>open"), "open");
    assert_eq!(
        script_block("<script>one</script><script>two</script>"),
        "one\ntwo\n"
    );
}

#[test]
fn a_capital_in_the_middle_of_a_word_gains_an_underscore() {
    assert_eq!(to_snake_case("getHTTPResponse"), "get_h_t_t_p_response");
    assert_eq!(to_snake_case(""), "");
}
