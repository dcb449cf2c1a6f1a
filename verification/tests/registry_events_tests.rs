use hex_invaders::events::{classify_key, InputEvent};
use hex_invaders::registry::ValueRegistry;

#[test]
fn fresh_registry_has_all_labels_free() {
    let reg = ValueRegistry::new();
    assert!(reg.is_available(1));
    assert!(reg.is_available(0x2A));
    assert!(reg.is_available(0xFF));
}

#[test]
fn active_label_is_not_available() {
    let mut reg = ValueRegistry::new();
    reg.mark_active(0x2A);
    assert!(!reg.is_available(0x2A));
}

#[test]
fn freed_label_is_available_again() {
    let mut reg = ValueRegistry::new();
    reg.mark_active(0x2A);
    reg.mark_free(0x2A);
    assert!(reg.is_available(0x2A));
}

#[test]
fn labels_are_independent() {
    let mut reg = ValueRegistry::new();
    reg.mark_active(0x01);
    reg.mark_active(0x02);
    reg.mark_free(0x01);
    assert!(reg.is_available(0x01));
    assert!(!reg.is_available(0x02));
    assert!(reg.is_available(0x03));
}

#[test]
fn digit_keys_toggle_bits() {
    assert_eq!(classify_key(b'1'), Some(InputEvent::ToggleBit(0)));
    assert_eq!(classify_key(b'4'), Some(InputEvent::ToggleBit(3)));
    assert_eq!(classify_key(b'8'), Some(InputEvent::ToggleBit(7)));
}

#[test]
fn space_starts_or_restarts() {
    assert_eq!(classify_key(b' '), Some(InputEvent::StartOrRestart));
}

#[test]
fn quit_keys_quit() {
    assert_eq!(classify_key(b'q'), Some(InputEvent::Quit));
    assert_eq!(classify_key(b'Q'), Some(InputEvent::Quit));
}

#[test]
fn unrecognized_keys_are_dropped() {
    assert_eq!(classify_key(b'0'), None);
    assert_eq!(classify_key(b'9'), None);
    assert_eq!(classify_key(b'a'), None);
    assert_eq!(classify_key(0), None);
}
