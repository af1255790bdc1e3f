use poe_wayfinder_app::input::{hold_key_for, HoldKey, Modifier};

#[test]
fn the_first_modifier_is_the_one_held() {
    assert_eq!(hold_key_for(&[Modifier::Ctrl]), HoldKey::Ctrl);
    assert_eq!(hold_key_for(&[Modifier::Alt]), HoldKey::Alt);
    assert_eq!(hold_key_for(&[Modifier::Shift]), HoldKey::Shift);
}

#[test]
fn a_hotkey_with_no_modifier_has_nothing_to_hold() {
    assert_eq!(hold_key_for(&[]), HoldKey::NoKey);
}

#[test]
fn the_windows_key_is_not_a_hold_key() {
    assert_eq!(hold_key_for(&[Modifier::Meta]), HoldKey::NoKey);
}

#[test]
fn a_combination_holds_on_its_first_modifier() {
    assert_eq!(
        hold_key_for(&[Modifier::Ctrl, Modifier::Shift]),
        HoldKey::Ctrl
    );
}
