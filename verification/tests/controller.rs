use pad_bridge::bytes::{pack_i16, pack_u16, pack_u32, unpack_i16, unpack_u16, unpack_u32};
use pad_bridge::controller::{Button, ControllerState, StickState};

const ALL_BUTTONS: [Button; 15] = [
    Button::Cross,
    Button::Circle,
    Button::Square,
    Button::Triangle,
    Button::Up,
    Button::Down,
    Button::Left,
    Button::Right,
    Button::LeftBumper,
    Button::RightBumper,
    Button::L3,
    Button::R3,
    Button::Select,
    Button::Start,
    Button::Logo,
];

#[test]
fn integers_are_packed_little_endian() {
    assert_eq!(pack_u16(0x1234), [0x34, 0x12]);
    assert_eq!(pack_u16(0), [0, 0]);
    assert_eq!(pack_u16(u16::MAX), [0xff, 0xff]);
    assert_eq!(pack_i16(-1), [0xff, 0xff]);
    assert_eq!(pack_i16(i16::MIN), [0x00, 0x80]);
    assert_eq!(pack_i16(i16::MAX), [0xff, 0x7f]);
    assert_eq!(pack_i16(-2), [0xfe, 0xff]);
    assert_eq!(pack_u32(0x1234_5678), [0x78, 0x56, 0x34, 0x12]);
    assert_eq!(pack_u32(u32::MAX), [0xff, 0xff, 0xff, 0xff]);
    assert_eq!(pack_u32(36), [36, 0, 0, 0]);
}

#[test]
fn integers_are_unpacked_little_endian() {
    assert_eq!(unpack_u16(0x34, 0x12), 0x1234);
    assert_eq!(unpack_i16(0xff, 0xff), -1);
    assert_eq!(unpack_i16(0x00, 0x80), i16::MIN);
    assert_eq!(unpack_i16(0xff, 0x7f), i16::MAX);
    assert_eq!(unpack_u32(0x78, 0x56, 0x34, 0x12), 0x1234_5678);
    assert_eq!(unpack_u32(0xff, 0xff, 0xff, 0xff), u32::MAX);
}

#[test]
fn packing_agrees_with_the_standard_library() {
    let samples: [u32; 7] = [0, 1, 255, 256, 65_535, 0x00ff_00ff, u32::MAX];
    for x in samples {
        assert_eq!(pack_u32(x), x.to_le_bytes());
        let b = x.to_le_bytes();
        assert_eq!(unpack_u32(b[0], b[1], b[2], b[3]), x);
        let h = (x & 0xffff) as u16;
        assert_eq!(pack_u16(h), h.to_le_bytes());
        assert_eq!(pack_i16(h as i16), (h as i16).to_le_bytes());
        assert_eq!(unpack_i16(b[0], b[1]), i16::from_le_bytes([b[0], b[1]]));
    }
}

#[test]
fn default_state_is_released() {
    let state = ControllerState::default();
    assert_eq!(state.left_stick, StickState { x: 0, y: 0 });
    assert_eq!(state.right_stick, StickState { x: 0, y: 0 });
    assert_eq!(state.left_trigger, 0);
    assert_eq!(state.right_trigger, 0);
    assert_eq!(state.buttons, 0);
    for button in ALL_BUTTONS {
        assert!(!state.get(button));
    }
    assert_eq!(StickState::default(), StickState { x: 0, y: 0 });
}

#[test]
fn default_state_encodes_to_zero_bytes() {
    assert_eq!(ControllerState::default().to_le_bytes(), [0u8; 12]);
}

#[test]
fn set_presses_one_button_only() {
    for (k, button) in ALL_BUTTONS.iter().enumerate() {
        let mut state = ControllerState::default();
        state.set(*button);
        assert_eq!(state.buttons, 1u16 << k);
        for other in ALL_BUTTONS {
            assert_eq!(state.get(other), other == *button);
        }
        state.set(*button);
        assert_eq!(state.buttons, 1u16 << k);
    }
}

#[test]
fn clear_releases_one_button_only() {
    for (k, button) in ALL_BUTTONS.iter().enumerate() {
        let mut state = ControllerState::default();
        for other in ALL_BUTTONS {
            state.set(other);
        }
        assert_eq!(state.buttons, 0x7fff);
        state.clear(*button);
        assert_eq!(state.buttons, 0x7fff & !(1u16 << k));
        for other in ALL_BUTTONS {
            assert_eq!(state.get(other), other != *button);
        }
        state.clear(*button);
        assert_eq!(state.buttons, 0x7fff & !(1u16 << k));
    }
}

#[test]
fn toggle_flips_one_button_only() {
    let mut state = ControllerState::default();
    state.set(Button::Up);
    state.toggle(Button::Logo);
    assert!(state.get(Button::Logo));
    assert!(state.get(Button::Up));
    assert_eq!(state.buttons, (1 << 4) | (1 << 14));
    state.toggle(Button::Logo);
    assert!(!state.get(Button::Logo));
    assert!(state.get(Button::Up));
    state.toggle(Button::Up);
    assert_eq!(state.buttons, 0);
}

#[test]
fn button_operations_leave_the_analog_inputs() {
    let mut state = ControllerState {
        left_stick: StickState { x: 1, y: -2 },
        right_stick: StickState { x: 300, y: -400 },
        left_trigger: 5,
        right_trigger: 6,
        buttons: 0x8000,
    };
    state.set(Button::Cross);
    state.toggle(Button::Start);
    state.clear(Button::Cross);
    assert_eq!(state.left_stick, StickState { x: 1, y: -2 });
    assert_eq!(state.right_stick, StickState { x: 300, y: -400 });
    assert_eq!(state.left_trigger, 5);
    assert_eq!(state.right_trigger, 6);
    assert_eq!(state.buttons, 0x8000 | (1 << 13));
}

#[test]
fn stick_wire_form_is_x_then_y() {
    let stick = StickState { x: 0x0102, y: -2 };
    assert_eq!(stick.to_bytes(), [0x02, 0x01, 0xfe, 0xff]);
    assert_eq!(StickState::from_bytes(&[0x02, 0x01, 0xfe, 0xff]), stick);
    assert_eq!(StickState { x: i16::MAX, y: i16::MIN }.to_bytes(), [0xff, 0x7f, 0x00, 0x80]);
}

#[test]
fn controller_wire_form_has_the_documented_layout() {
    let mut state = ControllerState {
        left_stick: StickState { x: 0x0102, y: 0x0304 },
        right_stick: StickState { x: -1, y: i16::MIN },
        left_trigger: 0xaa,
        right_trigger: 0xbb,
        buttons: 0,
    };
    state.set(Button::Cross);
    state.set(Button::Logo);
    assert_eq!(
        state.to_le_bytes(),
        [0x02, 0x01, 0x04, 0x03, 0xff, 0xff, 0x00, 0x80, 0xaa, 0xbb, 0x01, 0x40]
    );
}

#[test]
fn controller_state_round_trips() {
    let samples: [i16; 6] = [0, 1, -1, i16::MAX, i16::MIN, 12_345];
    for (n, x) in samples.iter().enumerate() {
        for y in samples {
            let state = ControllerState {
                left_stick: StickState { x: *x, y },
                right_stick: StickState { x: y, y: *x },
                left_trigger: (n * 51) as u8,
                right_trigger: 255 - (n * 51) as u8,
                buttons: (*x as u16) ^ 0x5a5a,
            };
            assert_eq!(ControllerState::from_le_bytes(&state.to_le_bytes()), state);
        }
    }
}

#[test]
fn any_twelve_bytes_decode_and_encode_back() {
    let mut bytes = [0u8; 12];
    for round in 0..64u32 {
        for (i, b) in bytes.iter_mut().enumerate() {
            *b = (round.wrapping_mul(2_654_435_761).wrapping_add(i as u32 * 97) >> 7) as u8;
        }
        let state = ControllerState::from_le_bytes(&bytes);
        assert_eq!(state.to_le_bytes(), bytes);
    }
    let all_ones = [0xffu8; 12];
    let state = ControllerState::from_le_bytes(&all_ones);
    assert_eq!(state.buttons, 0xffff);
    assert_eq!(state.left_stick, StickState { x: -1, y: -1 });
    assert_eq!(state.to_le_bytes(), all_ones);
}

#[test]
fn from_inputs_holds_exactly_the_given_buttons() {
    let left = StickState { x: 11, y: -12 };
    let right = StickState { x: -13, y: 14 };
    let state = ControllerState::from_inputs(left, right, 15, 16, &[]);
    assert_eq!(
        state,
        ControllerState { left_stick: left, right_stick: right, left_trigger: 15, right_trigger: 16, buttons: 0 }
    );
    let held = [Button::Logo, Button::Cross, Button::Logo, Button::Left];
    let state = ControllerState::from_inputs(left, right, 15, 16, &held);
    assert_eq!(state.buttons, (1 << 14) | 1 | (1 << 6));
    for button in ALL_BUTTONS {
        assert_eq!(state.get(button), held.contains(&button));
    }
    assert_eq!(state.left_stick, left);
    assert_eq!(state.right_stick, right);
    assert_eq!(state.left_trigger, 15);
    assert_eq!(state.right_trigger, 16);
    let state = ControllerState::from_inputs(left, right, 0, 0, &ALL_BUTTONS);
    assert_eq!(state.buttons, 0x7fff);
}
