use clipforge::hotkeys::{
    hotkey_press, invalid_hotkey_error, normalize_hotkey, register_error, same_hotkeys_error,
    should_accept_press, COOLDOWN_MS,
};

#[test]
fn presses_are_throttled_without_sliding() {
    let mut last = 0u64;
    assert!(should_accept_press(&mut last, 5_000));
    assert_eq!(last, 5_000);
    assert!(!should_accept_press(&mut last, 6_000));
    assert!(!should_accept_press(&mut last, 7_999));
    // Dropped presses did not move the window.
    assert_eq!(last, 5_000);
    assert!(should_accept_press(&mut last, 8_000));
    assert_eq!(COOLDOWN_MS, 3000);
}

#[test]
fn first_press_at_time_zero_still_counts() {
    let mut last = 0u64;
    assert!(should_accept_press(&mut last, 0));
    assert_eq!(last, 1);
    assert!(!should_accept_press(&mut last, 2_000));
    assert!(should_accept_press(&mut last, 3_001));
}

#[test]
fn shortcut_events() {
    let mut last = 0u64;
    assert_eq!(hotkey_press(false, true, false, &mut last, 10_000), None);
    assert_eq!(hotkey_press(true, false, false, &mut last, 10_000), None);
    assert_eq!(last, 0);
    assert_eq!(hotkey_press(true, true, false, &mut last, 10_000), Some(false));
    assert_eq!(hotkey_press(true, false, true, &mut last, 11_000), None);
    assert_eq!(hotkey_press(true, false, true, &mut last, 13_000), Some(true));
}

#[test]
fn hotkeys_are_normalized() {
    assert_eq!(normalize_hotkey("Shift + ALT+F10"), "shift+alt+f10");
    assert_eq!(normalize_hotkey("alt++f10+"), "alt+f10");
    assert_eq!(normalize_hotkey("  "), "");
    assert_eq!(normalize_hotkey("F9"), "f9");
    assert_eq!(normalize_hotkey(&normalize_hotkey("Ctrl + Shift + S")), "ctrl+shift+s");
}

#[test]
fn hotkey_errors() {
    assert_eq!(invalid_hotkey_error("alt+nope"), "'alt+nope' is not a valid hotkey");
    assert_eq!(same_hotkeys_error(), "hotkeys must differ");
    assert_eq!(register_error("taken"), "could not register (in use by another app?): taken");
}

#[test]
fn normalizing_twice_changes_nothing() {
    let once = normalize_hotkey(" Shift + ALT++F10 ");
    assert_eq!(once, "shift+alt+f10");
    assert_eq!(normalize_hotkey(&once), once);
}
