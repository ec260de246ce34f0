use std::collections::HashSet;

use vortex::platform::vk_to_evdev::vk_to_evdev;

#[test]
fn known_codes_match_the_evdev_header() {
    assert_eq!(vk_to_evdev(0x41), Some(30)); // A
    assert_eq!(vk_to_evdev(0x51), Some(16)); // Q, first of its row
    assert_eq!(vk_to_evdev(0x5A), Some(44)); // Z
    assert_eq!(vk_to_evdev(0x31), Some(2)); // 1
    assert_eq!(vk_to_evdev(0x30), Some(11)); // 0, at the end of its row
    assert_eq!(vk_to_evdev(0x0D), Some(28)); // Enter
    assert_eq!(vk_to_evdev(0x1B), Some(1)); // Escape
}

#[test]
fn the_letter_row_order_is_qwerty_not_alphabetical() {
    let qwerty = [0x51u16, 0x57, 0x45, 0x52, 0x54, 0x59];
    let codes: Vec<u16> = qwerty.iter().map(|v| vk_to_evdev(*v).unwrap()).collect();
    assert_eq!(codes, vec![16, 17, 18, 19, 20, 21]);
}

#[test]
fn f_keys_are_contiguous_except_where_evdev_is_not() {
    assert_eq!(vk_to_evdev(0x70), Some(59)); // F1
    assert_eq!(vk_to_evdev(0x79), Some(68)); // F10
    // F11 and F12 jump past the numpad block rather than continuing at 69.
    assert_eq!(vk_to_evdev(0x7A), Some(87));
    assert_eq!(vk_to_evdev(0x7B), Some(88));
    assert_ne!(vk_to_evdev(0x7A), Some(69));
}

/// The sided and unsided modifiers are the only intended collisions.
#[test]
fn no_unintended_collisions() {
    let unsided = [0x10u16, 0x11, 0x12];
    let mut seen: HashSet<u16> = HashSet::new();
    for vk in 0u16..=0xFF {
        if unsided.contains(&vk) {
            continue;
        }
        if let Some(code) = vk_to_evdev(vk) {
            assert!(seen.insert(code), "vk {vk:#04x} duplicates evdev {code}");
        }
    }
}

#[test]
fn unsided_modifiers_alias_the_left_key() {
    assert_eq!(vk_to_evdev(0x10), vk_to_evdev(0xA0)); // Shift
    assert_eq!(vk_to_evdev(0x11), vk_to_evdev(0xA2)); // Ctrl
    assert_eq!(vk_to_evdev(0x12), vk_to_evdev(0xA4)); // Alt
}

#[test]
fn the_numpad_is_distinct_from_the_digit_row() {
    for (row, pad) in [(0x30u16, 0x60u16), (0x31, 0x61), (0x39, 0x69)] {
        assert_ne!(vk_to_evdev(row), vk_to_evdev(pad), "vk {row:#04x}/{pad:#04x}");
    }
}

#[test]
fn unmapped_keys_return_none_and_nothing_maps_to_zero() {
    assert_eq!(vk_to_evdev(0xB0), None); // media next-track
    assert_eq!(vk_to_evdev(0xAD), None); // volume mute
    assert_eq!(vk_to_evdev(0x00), None);
    for vk in 0u16..=0xFF {
        assert_ne!(vk_to_evdev(vk), Some(0), "vk {vk:#04x} mapped to KEY_RESERVED");
    }
}
