use poe_wayfinder_app::scan::{
    hand_written_fakes, is_generated, modules_are_declared, no_comments, starts_a_fake, Source,
};
use poe_wayfinder_app::trader_arch::{
    check, layer_imports, main_is_only_wiring, MAIN_BINARY, MAIN_MAX_LINES, WAIVED,
};

fn src_file(relative: &str, text: &str) -> Source {
    Source {
        path: relative.to_string(),
        relative: relative.to_string(),
        text: text.to_string(),
    }
}

#[test]
fn poe_trader_arch_a_driver_reaching_an_adapter_is_a_violation() {
        let got = layer_imports(&src_file(
            "src/driver/thing_driver.rs",
            "use crate::adapter::clipboard_adapter::Clipboard;\n",
        ));

        assert_eq!(got.len(), 1, "{got:?}");
        assert_eq!(got[0].rule, "layers only depend downward");
    }

#[test]
fn poe_trader_arch_a_driver_reaching_a_controller_is_fine() {
        let got = layer_imports(&src_file(
            "src/driver/thing_driver.rs",
            "use crate::controller::thing_controller::Thing;\n",
        ));

        assert!(got.is_empty(), "{got:?}");
    }

#[test]
fn poe_trader_arch_a_controller_reaching_a_driver_is_a_violation() {
        let got = layer_imports(&src_file(
            "src/controller/thing_controller.rs",
            "use crate::driver::thing_driver::Thing;\n",
        ));

        assert_eq!(got.len(), 1, "{got:?}");
    }

#[test]
fn an_adapter_may_import_anything_it_likes() {
        let got = layer_imports(&src_file(
            "src/adapter/thing_adapter.rs",
            "use crate::driver::thing_driver::Thing;\n",
        ));

        assert!(got.is_empty(), "{got:?}");
    }

#[test]
fn poe_trader_arch_the_word_adapter_inside_a_string_is_not_an_import() {
        let got = layer_imports(&src_file(
            "src/driver/thing_driver.rs",
            "let s = \"crate::adapter::nope\";\n",
        ));

        assert!(got.is_empty(), "{got:?}");
    }

#[test]
fn poe_trader_arch_a_long_main_is_a_violation() {
        let long = "x\n".repeat(MAIN_MAX_LINES + 1);

        assert_eq!(main_is_only_wiring(&src_file(MAIN_BINARY, &long)).len(), 1);
    }

#[test]
fn poe_trader_arch_a_short_main_is_fine() {
        let short = "x\n".repeat(MAIN_MAX_LINES);

        assert!(main_is_only_wiring(&src_file(MAIN_BINARY, &short)).is_empty());
    }

#[test]
fn poe_trader_arch_the_line_limit_applies_only_to_main() {
        let long = "x\n".repeat(MAIN_MAX_LINES + 500);

        assert!(main_is_only_wiring(&src_file("src/driver/big.rs", &long)).is_empty());
    }

#[test]
fn poe_trader_arch_a_hand_written_fake_is_a_violation() {
        for text in [
            "struct FakeClock;\n",
            "    struct MockThing;\n",
            "struct StubRepo {}\n",
        ] {
            assert_eq!(
                hand_written_fakes(&src_file("src/adapter/a.rs", text)).len(),
                1,
                "{text}"
            );
        }
    }

#[test]
fn poe_trader_arch_a_type_merely_containing_fake_is_not_a_violation() {
        let got = hand_written_fakes(&src_file(
            "src/adapter/a.rs",
            "struct Faker;\nstruct Remock;\n",
        ));

        assert!(got.is_empty(), "{got:?}");
    }

#[test]
fn poe_trader_arch_the_boundary_is_the_end_of_the_word() {
        assert!(starts_a_fake("struct FakeClock;", "struct Fake"));
        assert!(starts_a_fake("struct Fake;", "struct Fake"));
        assert!(!starts_a_fake("struct Faker;", "struct Fake"));
        assert!(!starts_a_fake("struct Fakery {}", "struct Fake"));
    }

#[test]
fn poe_trader_arch_any_comment_is_a_violation() {
        for text in ["// a note\n", "/* a block */\n", "    /// a doc\n"] {
            assert_eq!(no_comments(&src_file("src/a.rs", text)).len(), 1, "{text}");
        }
    }

#[test]
fn poe_trader_arch_a_url_in_a_string_is_not_a_comment() {
        let got = no_comments(&src_file("src/a.rs", "let u = \"https://example.com\";\n"));

        assert!(got.is_empty(), "{got:?}");
    }

#[test]
fn poe_trader_arch_generated_files_are_left_alone() {
        assert!(is_generated("src/config/zz_generated_config.rs"));
        assert!(!is_generated("src/config/mod.rs"));
    }

#[test]
fn poe_trader_arch_a_module_nobody_declares_is_a_violation() {
        let sources = vec![
            src_file("src/controller/mod.rs", "pub mod known;\n"),
            src_file("src/controller/known.rs", ""),
            src_file("src/controller/orphan.rs", ""),
        ];

        let got = modules_are_declared(&sources);

        assert_eq!(got.len(), 1, "{got:?}");
        assert!(got[0].path.contains("orphan"), "{got:?}");
    }

#[test]
fn poe_trader_arch_a_binary_needs_no_mod_declaration() {
        let sources = vec![
            src_file("src/lib.rs", ""),
            src_file("src/bin/poe-trader-arch.rs", ""),
        ];

        assert!(modules_are_declared(&sources).is_empty());
    }

#[test]
fn poe_trader_arch_every_waiver_carries_a_reason() {
        for (path, reason) in WAIVED {
            assert!(
                reason.len() > 40,
                "{path} is waived without a real reason: {reason}"
            );
        }
    }

#[test]
fn poe_trader_arch_a_waived_file_still_has_to_obey_the_comment_rule() {
        let waived = WAIVED[0].0;
        let sources = vec![src_file(waived, "// a note\nuse crate::adapter::x::Y;\n")];

        let found = check(&sources);

        assert!(
            found.iter().any(|v| v.rule == "no comments"),
            "a waiver must not excuse everything: {found:?}"
        );
        assert!(
            !found
                .iter()
                .any(|v| v.rule == "layers only depend downward"),
            "the waived rule should be excused: {found:?}"
        );
    }

