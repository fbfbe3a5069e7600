use simple_game_utils::controller::{
    apply_button, controller_type_for_ids, ActionState, Controller, DirectionState, MenuState,
    PadButton, CNTR_MASK_EAST, CNTR_MASK_START, CNTR_MASK_UP,
};
use simple_game_utils::prefs::Preferences;

#[test]
fn masks_pack_pressed_buttons() {
    let mut direction = DirectionState::default();
    let mut action = ActionState::default();
    let mut menu = MenuState::default();
    assert_eq!(
        direction.to_mask() | action.to_mask() | menu.to_mask(),
        0
    );

    direction.up = true;
    assert_eq!(
        direction.to_mask() | action.to_mask() | menu.to_mask(),
        CNTR_MASK_UP
    );

    action.east = true;
    assert_eq!(
        direction.to_mask() | action.to_mask() | menu.to_mask(),
        CNTR_MASK_UP | CNTR_MASK_EAST
    );
}

#[test]
fn buttons_drive_state() {
    let mut direction = DirectionState::default();
    let mut action = ActionState::default();
    let mut menu = MenuState::default();
    apply_button(
        &mut direction,
        &mut action,
        &mut menu,
        PadButton::DPadLeft,
        true,
    );
    apply_button(&mut direction, &mut action, &mut menu, PadButton::Start, true);
    apply_button(&mut direction, &mut action, &mut menu, PadButton::North, true);
    assert!(direction.left);
    assert!(menu.start);
    assert!(action.north);
    assert_eq!(menu.to_mask(), CNTR_MASK_START);
    apply_button(
        &mut direction,
        &mut action,
        &mut menu,
        PadButton::DPadLeft,
        false,
    );
    assert!(!direction.left);
    apply_button(&mut direction, &mut action, &mut menu, PadButton::Other, true);
    assert!(!direction.up && !direction.down && !direction.right);
}

#[test]
fn controller_families() {
    assert_eq!(
        controller_type_for_ids(0x54c, 0x9cc),
        Some(Controller::Playstation)
    );
    assert_eq!(
        controller_type_for_ids(0x45e, 0x2fd),
        Some(Controller::Xbox)
    );
    assert_eq!(
        controller_type_for_ids(0x57e, 0x2009),
        Some(Controller::Switch)
    );
    assert_eq!(controller_type_for_ids(0x1234, 0x5678), None);
}

#[test]
fn preferences_store() {
    let mut prefs: Preferences<u32> = Preferences::new("/tmp/example".to_string(), "app.prefs");
    assert_eq!(prefs.file, "/tmp/example/app.prefs");
    assert_eq!(prefs.get("volume"), None);
    prefs.set("volume", 7);
    prefs.set("theme", 2);
    assert_eq!(prefs.get("volume"), Some(&7));
    prefs.set("volume", 9);
    assert_eq!(prefs.get("volume"), Some(&9));
    assert_eq!(prefs.get("theme"), Some(&2));
    prefs.clear("volume");
    assert_eq!(prefs.get("volume"), None);
    assert_eq!(prefs.get("theme"), Some(&2));
}
