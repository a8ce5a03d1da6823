use pensieve::overlay::{overlay_visible, str_contains, toggled_help_class};

#[test]
fn substring_search() {
    assert!(str_contains("intro fade-out", "fade-out"));
    assert!(str_contains("hidden", "hidden"));
    assert!(str_contains("abc", ""));
    assert!(str_contains("", ""));
    assert!(!str_contains("", "a"));
    assert!(!str_contains("hid", "hidden"));
    assert!(!str_contains("hiddxn", "hidden"));
    assert!(str_contains("ééhiddenö", "hidden"));
}

#[test]
fn overlay_visibility() {
    assert!(overlay_visible(""));
    assert!(overlay_visible("intro"));
    assert!(!overlay_visible("hidden"));
    assert!(!overlay_visible("fade-out"));
    assert!(!overlay_visible("overlay hidden"));
}

#[test]
fn help_class_toggle() {
    assert_eq!(toggled_help_class("hidden"), "");
    assert_eq!(toggled_help_class(""), "hidden");
    assert_eq!(toggled_help_class("panel hidden"), "");
    assert_eq!(toggled_help_class("panel"), "hidden");
}
