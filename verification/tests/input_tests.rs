use pensieve::input::{direction_offset, is_navigation_key_name, pointer_release_action, InputState, KeyAction, PointerAction};

#[test]
fn vim_keys_held_in_free_mode() {
    let mut input = InputState::new();
    assert_eq!(input.keydown("h", false, false, false), KeyAction::Nothing);
    assert_eq!(input.keydown("j", false, false, false), KeyAction::Nothing);
    assert_eq!(input.keydown("h", false, false, false), KeyAction::Nothing);
    assert!(input.key_held('h'));
    assert!(input.key_held('j'));
    assert!(!input.key_held('k'));
    assert_eq!(input.keys_held, vec!['h', 'j']);
    input.keyup("h");
    assert!(!input.key_held('h'));
    assert!(input.key_held('j'));
}

#[test]
fn rail_mode_keys_navigate() {
    let mut input = InputState::new();
    assert_eq!(input.keydown("l", false, true, false), KeyAction::NavigateRail('l'));
    assert!(!input.key_held('l'));
    assert_eq!(input.keydown("K", true, true, false), KeyAction::Nothing);
    assert_eq!(input.move_node_dir, Some('k'));
    input.keyup("j");
    assert_eq!(input.move_node_dir, Some('k'));
    input.keyup("k");
    assert_eq!(input.move_node_dir, None);
    input.keydown("h", true, true, false);
    assert_eq!(input.move_node_dir, Some('h'));
    input.keydown("Shift", true, true, false);
    assert!(input.shift_held);
    input.keyup("Shift");
    assert!(!input.shift_held);
    assert_eq!(input.move_node_dir, None);
    // Shift with a capital letter outside rail mode does nothing.
    assert_eq!(input.keydown("H", true, false, false), KeyAction::Nothing);
    assert!(input.keys_held.is_empty());
}

#[test]
fn zoom_and_double_tap_keys() {
    let mut input = InputState::new();
    assert_eq!(input.keydown("Escape", false, false, true), KeyAction::ZoomOut);
    assert_eq!(input.keydown("Escape", false, false, false), KeyAction::Nothing);
    assert_eq!(input.keydown("Enter", false, false, false), KeyAction::ZoomInCurrent);
    assert_eq!(input.keydown("Enter", false, false, true), KeyAction::Nothing);
    assert_eq!(input.keydown("g", false, true, false), KeyAction::TapG);
    assert_eq!(input.keydown("b", false, false, false), KeyAction::TapB);
    assert_eq!(input.keydown("x", false, false, false), KeyAction::Nothing);
}

#[test]
fn arrow_keys() {
    let mut input = InputState::new();
    input.keydown("ArrowLeft", false, false, false);
    input.keydown("ArrowUp", false, true, false);
    assert!(input.arrow_left && input.arrow_up);
    assert!(!input.arrow_right && !input.arrow_down);
    input.keydown("ArrowRight", false, false, false);
    input.keydown("ArrowDown", false, false, false);
    assert!(input.arrow_right && input.arrow_down);
    input.keyup("ArrowLeft");
    input.keyup("ArrowUp");
    assert!(!input.arrow_left && !input.arrow_up);
    input.keyup("ArrowRight");
    input.keyup("ArrowDown");
    assert!(!input.arrow_right && !input.arrow_down);
}

#[test]
fn navigation_keys() {
    for k in ["h", "j", "k", "l", "g", "b", "Enter", "Escape", "ArrowLeft", "ArrowRight", "ArrowUp", "ArrowDown"] {
        assert!(is_navigation_key_name(k), "{}", k);
    }
    for k in ["H", "Shift", "x", "", "Tab"] {
        assert!(!is_navigation_key_name(k), "{}", k);
    }
}

#[test]
fn pointer_release_decisions() {
    assert_eq!(pointer_release_action(true, true, true, false), PointerAction::EndNodeDrag);
    assert_eq!(pointer_release_action(false, true, true, false), PointerAction::ZoomInCurrent);
    assert_eq!(pointer_release_action(false, true, true, true), PointerAction::Nothing);
    assert_eq!(pointer_release_action(false, true, false, true), PointerAction::Click);
    assert_eq!(pointer_release_action(false, false, false, false), PointerAction::Nothing);
}

#[test]
fn direction_offsets() {
    assert_eq!(direction_offset('h'), Some((-1, 0)));
    assert_eq!(direction_offset('l'), Some((1, 0)));
    assert_eq!(direction_offset('k'), Some((0, -1)));
    assert_eq!(direction_offset('j'), Some((0, 1)));
    assert_eq!(direction_offset('x'), None);
}
