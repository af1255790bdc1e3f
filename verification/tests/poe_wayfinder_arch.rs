use poe_wayfinder_app::arch::{
    calls_in, check, layer_imports, main_is_only_wiring, production, public_functions,
    MAIN_BINARY, MAIN_MAX_LINES, NOT_A_CALLER, WAIVED,
};
use poe_wayfinder_app::scan::{
    hand_written_fakes, is_generated, modules_are_declared, no_comments, starts_a_fake, Source,
};

fn src_file(relative: &str, text: &str) -> Source {
    Source {
        path: relative.to_string(),
        relative: relative.to_string(),
        text: text.to_string(),
    }
}

#[test]
fn a_driver_reaching_an_adapter_is_a_violation() {
        let got = layer_imports(&src_file(
            "src/driver/thing_driver.rs",
            "use crate::adapter::clipboard_adapter::Clipboard;\n",
        ));

        assert_eq!(got.len(), 1, "{got:?}");
        assert_eq!(got[0].rule, "layers only depend downward");
    }

#[test]
fn a_driver_reaching_a_controller_is_fine() {
        let got = layer_imports(&src_file(
            "src/driver/thing_driver.rs",
            "use crate::controller::thing_controller::Thing;\n",
        ));

        assert!(got.is_empty(), "{got:?}");
    }

#[test]
fn a_controller_reaching_a_driver_is_a_violation() {
        let got = layer_imports(&src_file(
            "src/controller/thing_controller.rs",
            "use crate::driver::thing_driver::Thing;\n",
        ));

        assert_eq!(got.len(), 1, "{got:?}");
    }

#[test]
fn an_adapter_reaching_a_driver_is_a_violation() {
        let got = layer_imports(&src_file(
            "src/adapter/thing_adapter.rs",
            "use crate::driver::thing_driver::Thing;",
        ));

        assert_eq!(got.len(), 1, "{got:?}");
    }

#[test]
fn an_adapter_reaching_a_controller_is_a_violation() {
        let got = layer_imports(&src_file(
            "src/adapter/clock_adapter.rs",
            "use crate::controller::price_check_controller::Clock;",
        ));

        assert_eq!(got.len(), 1, "{got:?}");
    }

#[test]
fn an_adapter_reaching_another_adapter_is_a_violation() {
        let got = layer_imports(&src_file(
            "src/adapter/clock_adapter.rs",
            "use crate::adapter::rate_limit_adapter::Millis;",
        ));

        assert_eq!(got.len(), 1, "{got:?}");
    }

#[test]
fn an_adapter_may_refer_to_its_own_module() {
        let got = layer_imports(&src_file(
            "src/adapter/clock_adapter.rs",
            "use crate::adapter::clock_adapter::SystemClock;",
        ));

        assert!(got.is_empty(), "{got:?}");
    }

#[test]
fn an_adapter_may_import_core() {
        let got = layer_imports(&src_file(
            "src/adapter/thing_adapter.rs",
            "use poe_wayfinder_core::types::GameVersion;",
        ));

        assert!(got.is_empty(), "{got:?}");
    }

#[test]
fn a_driver_naming_an_adapter_by_full_path_outside_a_use_line_is_still_a_violation() {
        let got = layer_imports(&src_file(
            "src/driver/thing_driver.rs",
            "fn look(found: Option<crate::adapter::game_window_adapter::GameWindow>) {}\n",
        ));

        assert_eq!(got.len(), 1, "{got:?}");
        assert_eq!(got[0].rule, "layers only depend downward");
    }

#[test]
fn a_driver_naming_an_adapter_error_type_in_a_match_arm_is_still_a_violation() {
        let got = layer_imports(&src_file(
            "src/driver/thing_driver.rs",
            "            Err(crate::adapter::clipboard_adapter::ClipboardError::Empty) => None,\n",
        ));

        assert_eq!(got.len(), 1, "{got:?}");
    }

#[test]
fn the_word_adapter_inside_a_string_is_not_an_import() {
        let got = layer_imports(&src_file(
            "src/driver/thing_driver.rs",
            "let s = \"crate::adapter::nope\";\n",
        ));

        assert!(got.is_empty(), "{got:?}");
    }

#[test]
fn a_long_main_is_a_violation() {
        let long = "x\n".repeat(MAIN_MAX_LINES + 1);

        assert_eq!(main_is_only_wiring(&src_file(MAIN_BINARY, &long)).len(), 1);
    }

#[test]
fn a_short_main_is_fine() {
        let short = "x\n".repeat(MAIN_MAX_LINES);

        assert!(main_is_only_wiring(&src_file(MAIN_BINARY, &short)).is_empty());
    }

#[test]
fn the_line_limit_applies_only_to_main() {
        let long = "x\n".repeat(MAIN_MAX_LINES + 500);

        assert!(main_is_only_wiring(&src_file("src/driver/big.rs", &long)).is_empty());
    }

#[test]
fn a_hand_written_fake_is_a_violation() {
        for text in [
            "struct FakeClock;\n",
            "    struct MockThing;\n",
            "struct StubRepo {}\n",
        ] {
            assert_eq!(
                hand_written_fakes(&src_file("src/adapter/a.rs", text)).len(),
                1,
                "{text}"
            );
        }
    }

#[test]
fn a_type_merely_containing_fake_is_not_a_violation() {
        let got = hand_written_fakes(&src_file(
            "src/adapter/a.rs",
            "struct Faker;\nstruct Remock;\n",
        ));

        assert!(got.is_empty(), "{got:?}");
    }

#[test]
fn the_boundary_is_the_end_of_the_word() {
        assert!(starts_a_fake("struct FakeClock;", "struct Fake"));
        assert!(starts_a_fake("struct Fake;", "struct Fake"));
        assert!(!starts_a_fake("struct Faker;", "struct Fake"));
        assert!(!starts_a_fake("struct Fakery {}", "struct Fake"));
    }

#[test]
fn any_comment_is_a_violation() {
        for text in ["// a note\n", "/* a block */\n", "    /// a doc\n"] {
            assert_eq!(no_comments(&src_file("src/a.rs", text)).len(), 1, "{text}");
        }
    }

#[test]
fn a_url_in_a_string_is_not_a_comment() {
        let got = no_comments(&src_file("src/a.rs", "let u = \"https://example.com\";\n"));

        assert!(got.is_empty(), "{got:?}");
    }

#[test]
fn generated_files_are_left_alone() {
        assert!(is_generated("src/config/zz_generated_config.rs"));
        assert!(!is_generated("src/config/mod.rs"));
    }

#[test]
fn a_module_nobody_declares_is_a_violation() {
        let sources = vec![
            src_file("src/controller/mod.rs", "pub mod known;\n"),
            src_file("src/controller/known.rs", ""),
            src_file("src/controller/orphan.rs", ""),
        ];

        let got = modules_are_declared(&sources);

        assert_eq!(got.len(), 1, "{got:?}");
        assert!(got[0].path.contains("orphan"), "{got:?}");
    }

#[test]
fn a_binary_needs_no_mod_declaration() {
        let sources = vec![
            src_file("src/lib.rs", ""),
            src_file("src/bin/poe-wayfinder-arch.rs", ""),
        ];

        assert!(modules_are_declared(&sources).is_empty());
    }

#[test]
fn every_waiver_carries_a_reason() {
        for (path, reason) in WAIVED {
            assert!(
                reason.len() > 40,
                "{path} is waived without a real reason: {reason}"
            );
        }
    }

#[test]
fn a_waived_file_still_has_to_obey_the_comment_rule() {
        let waived = WAIVED[0].0;
        let sources = vec![src_file(waived, "// a note\nuse crate::adapter::x::Y;\n")];

        let found = check(&sources);

        assert!(
            found.iter().any(|v| v.rule == "no comments"),
            "a waiver must not excuse everything: {found:?}"
        );
        assert!(
            !found
                .iter()
                .any(|v| v.rule == "layers only depend downward"),
            "the waived rule should be excused: {found:?}"
        );
    }

#[test]
fn code_after_a_test_module_is_still_production_code() {
        let body =
            "fn early() {}\n#[cfg(test)]\nmod tests {\n    fn helper() {}\n}\nfn late() {}\n";

        let kept = production(body);

        assert!(kept.contains("fn early"));
        assert!(
            kept.contains("fn late"),
            "a truncating stripper hides the rest of the file"
        );
        assert!(!kept.contains("fn helper"));
    }

#[test]
fn a_nested_brace_inside_a_test_module_does_not_end_it_early() {
        let body = "#[cfg(test)]\nmod tests {\n    fn a() {\n        if x { y }\n    }\n}\nfn after() {}\n";

        let kept = production(body);

        assert!(!kept.contains("fn a("));
        assert!(kept.contains("fn after"));
    }

#[test]
fn a_file_with_no_tests_is_left_whole() {
        let body = "fn one() {}\nfn two() {}\n";

        assert_eq!(production(body), body);
    }

#[test]
fn a_definition_does_not_count_as_a_call_to_itself() {
        assert_eq!(calls_in("pub fn lonely() {}\n", "lonely"), 0);
    }

#[test]
fn a_use_of_a_function_counts_as_a_call() {
        assert_eq!(
            calls_in("pub fn lonely() {}\nfn other() { lonely(); }\n", "lonely"),
            1
        );
    }

#[test]
fn importing_a_function_counts_as_using_it() {
        assert_eq!(calls_in("use super::{lonely, other};\n", "lonely"), 1);
    }

#[test]
fn a_longer_name_that_contains_the_short_one_is_not_a_call() {
        assert_eq!(calls_in("fn other() { lonely_helper(); }\n", "lonely"), 0);
    }

#[test]
fn a_call_inside_a_test_does_not_keep_a_function_alive() {
        let body = "pub fn lonely() {}\n#[cfg(test)]\nmod tests {\n    fn t() { lonely(); }\n}\n";

        assert_eq!(calls_in(body, "lonely"), 0);
    }

#[test]
fn a_table_of_names_is_not_treated_as_a_caller() {
        assert!(
            NOT_A_CALLER.contains(&"src/bin/poe-wayfinder-uiparity.rs"),
            "the capability catalogue names every symbol it measures"
        );
        assert!(
            NOT_A_CALLER.contains(&"src/bin/poe-wayfinder-parity.rs"),
            "the alias table pairs names from elsewhere with ours, and counting it \
             hid fifty one dead functions behind a claim of 100 percent"
        );
    }

#[test]
fn a_name_inside_a_log_message_is_not_a_call() {
        let logged = r#"log.info("watching the hotkeys", &[("watching", value)]);"#;

        assert_eq!(calls_in(logged, "watching"), 0);
    }

#[test]
fn a_real_call_beside_a_string_is_still_a_call() {
        let line = r#"log.info("watching", &[]); watching();"#;

        assert_eq!(calls_in(line, "watching"), 1);
    }

#[test]
fn an_escaped_quote_does_not_swallow_the_rest_of_the_line() {
        let line = r#"println!("say \"hi\""); wired();"#;

        assert_eq!(calls_in(line, "wired"), 1);
    }

#[test]
fn a_public_function_is_found_by_name() {
        let names = public_functions("pub fn wired() {}\nfn private() {}\n");

        assert_eq!(names, vec!["wired".to_string()]);
    }

#[test]
fn a_constructor_is_exempt_because_every_type_has_one() {
        assert!(public_functions("pub fn new() -> Self { Self }\n").is_empty());
    }

