use poe_wayfinder_app::assets::Image;
use poe_wayfinder_app::report::{group_by_rule, report_body, verdict};
use poe_wayfinder_app::scan::Violation;

fn violation(rule: &str, path: &str, detail: &str) -> Violation {
    Violation {
        rule: rule.to_string(),
        path: path.to_string(),
        detail: detail.to_string(),
    }
}

fn found() -> Vec<Violation> {
    vec![
        violation("no comments", "src/a.rs", "line 1: // x"),
        violation("layers only depend downward", "src/driver/b.rs", "line 2: use"),
        violation("no comments", "src/c.rs", "line 3: /* y */"),
    ]
}

#[test]
fn the_rules_are_grouped_in_order_with_their_violations() {
    let groups = group_by_rule(&found());

    assert_eq!(
        groups,
        vec![
            ("layers only depend downward".to_string(), vec![1]),
            ("no comments".to_string(), vec![0, 2]),
        ]
    );
}

#[test]
fn a_clean_tree_has_no_sections() {
    assert!(group_by_rule(&[]).is_empty());
    assert!(report_body(&[], 120).is_empty());
}

#[test]
fn each_rule_gets_a_section_with_its_count_and_its_violations() {
    let body = report_body(&found(), 120);

    assert_eq!(
        body,
        vec![
            "layers only depend downward (1)",
            "  src/driver/b.rs line 2: use",
            "",
            "no comments (2)",
            "  src/a.rs line 1: // x",
            "  src/c.rs line 3: /* y */",
            "",
        ]
    );
}

#[test]
fn a_long_section_is_cut_short_and_says_how_many_more() {
    let body = report_body(&found(), 1);

    assert_eq!(
        body,
        vec![
            "layers only depend downward (1)",
            "  src/driver/b.rs line 2: use",
            "",
            "no comments (2)",
            "  src/a.rs line 1: // x",
            "  and 1 more",
            "",
        ]
    );
}

#[test]
fn the_ceiling_decides_the_verdict() {
    assert_eq!(verdict(3, 3), (true, "OK: 3 violations, ceiling is 3".to_string()));
    assert_eq!(
        verdict(4, 3),
        (
            false,
            "FAIL: 4 violations, ceiling is 3. Move the code rather than raising it.".to_string()
        )
    );
    assert!(verdict(0, 0).0);
}

static PIXELS: [u8; 16] = [0; 16];

#[test]
fn an_image_is_intact_when_it_holds_four_bytes_a_pixel() {
    let whole = Image {
        width: 2,
        height: 2,
        rgba: &PIXELS,
    };
    let short = Image {
        width: 3,
        height: 2,
        rgba: &PIXELS,
    };
    let huge = Image {
        width: u32::MAX,
        height: u32::MAX,
        rgba: &PIXELS,
    };

    assert!(whole.is_intact());
    assert!(!short.is_intact());
    assert!(!huge.is_intact());
}
