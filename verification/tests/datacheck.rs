use poe_wayfinder_app::datacheck::{render, ROLL};

#[test]
fn a_placeholder_becomes_a_roll() {
    assert_eq!(render("# to maximum Life"), "7 to maximum Life");
}

#[test]
fn the_sign_in_a_template_survives_rendering() {
    assert_eq!(render("+# to maximum Life"), "+7 to maximum Life");
}

#[test]
fn a_template_with_two_placeholders_fills_both() {
    assert_eq!(render("Adds # to # Fire Damage"), "Adds 7 to 7 Fire Damage");
}

#[test]
fn a_template_with_no_placeholder_is_itself() {
    assert_eq!(render("Has Alt Ailment"), "Has Alt Ailment");
}

#[test]
fn the_roll_is_not_a_value_matchers_bake_in() {
    assert_ne!(ROLL, "0");
    assert_ne!(ROLL, "1");
}

#[test]
fn an_empty_template_renders_as_nothing() {
    assert_eq!(render(""), "");
    assert_eq!(render("##"), "77");
}
