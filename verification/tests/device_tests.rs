use litnergy::device::{
    button_convert, is_letter_keycode, is_modifier_keycode, is_shift_keycode, raw,
    scancode_to_key, state_convert, ButtonType, DeviceAction, FakeDevice, KeyFlags, KeyState,
    MappedKey, MouseButton, MouseEventType,
};
use litnergy::protocol::ScreenSize;

const NONE: KeyFlags = KeyFlags { shift: false, command: false, control: false, alternate: false };
const SHIFT: KeyFlags = KeyFlags { shift: true, command: false, control: false, alternate: false };

fn key(keycode: u16, down: bool, flags: KeyFlags) -> DeviceAction {
    DeviceAction::Key { keycode, down, autorepeat: false, flags }
}

fn device() -> FakeDevice {
    FakeDevice::new(ScreenSize { x: 1920, y: 1080 })
}

#[test]
fn scancode_table() {
    assert_eq!(scancode_to_key(1), Some(MappedKey::Raw(53)));
    assert_eq!(scancode_to_key(30), Some(MappedKey::Raw(0)));
    assert_eq!(scancode_to_key(29), Some(MappedKey::Raw(55)));
    assert_eq!(scancode_to_key(42), Some(MappedKey::Raw(56)));
    assert_eq!(scancode_to_key(58), Some(MappedKey::CapsLock));
    assert_eq!(scancode_to_key(311), Some(MappedKey::PrintScreen));
    assert_eq!(scancode_to_key(349), Some(MappedKey::Raw(110)));
    assert_eq!(scancode_to_key(84), None);
    assert_eq!(scancode_to_key(0), None);
    assert_eq!(raw(7), Some(MappedKey::Raw(7)));
}

#[test]
fn key_classes() {
    assert!(is_shift_keycode(56) && is_shift_keycode(60) && !is_shift_keycode(59));
    for k in [56, 60, 59, 55, 54, 58, 61, 57] {
        assert!(is_modifier_keycode(k));
    }
    assert!(!is_modifier_keycode(49));
    assert!(is_letter_keycode(0) && is_letter_keycode(46) && !is_letter_keycode(10));
    assert!(state_convert(KeyState::DOWN) && !state_convert(KeyState::UP));
}

#[test]
fn plain_key_passes_through() {
    let mut d = device();
    assert_eq!(d.keyboard(30, KeyState::DOWN), vec![key(0, true, NONE)]);
    assert_eq!(d.keyboard(30, KeyState::UP), vec![key(0, false, NONE)]);
    assert_eq!(d.keyboard(84, KeyState::DOWN), vec![]);
}

#[test]
fn control_maps_to_command() {
    let mut d = device();
    let cmd = KeyFlags { command: true, ..NONE };
    assert_eq!(d.keyboard(29, KeyState::DOWN), vec![key(55, true, cmd)]);
    assert_eq!(d.keyboard(46, KeyState::DOWN), vec![key(8, true, cmd)]);
    assert_eq!(d.keyboard(46, KeyState::UP), vec![key(8, false, cmd)]);
    assert_eq!(d.keyboard(29, KeyState::UP), vec![key(55, false, NONE)]);
}

#[test]
fn shift_tapped_alone_switches_input_source() {
    let mut d = device();
    assert_eq!(d.keyboard(42, KeyState::DOWN), vec![]);
    let ctrl = KeyFlags { control: true, ..NONE };
    assert_eq!(
        d.keyboard(42, KeyState::UP),
        vec![key(59, true, NONE), key(49, true, ctrl), key(49, false, ctrl), key(59, false, NONE)]
    );
}

#[test]
fn shift_with_letter_is_passed_on() {
    let mut d = device();
    assert_eq!(d.keyboard(42, KeyState::DOWN), vec![]);
    assert_eq!(d.keyboard(30, KeyState::DOWN), vec![key(56, true, SHIFT), key(0, true, SHIFT)]);
    assert_eq!(d.keyboard(30, KeyState::UP), vec![key(0, false, SHIFT)]);
    assert_eq!(d.keyboard(42, KeyState::UP), vec![key(56, false, NONE)]);
}

#[test]
fn caps_lock_shifts_letters() {
    let mut d = device();
    assert_eq!(d.keyboard(58, KeyState::DOWN), vec![]);
    assert_eq!(d.keyboard(58, KeyState::UP), vec![]);
    assert_eq!(d.keyboard(30, KeyState::DOWN), vec![key(56, true, NONE), key(0, true, SHIFT)]);
    assert_eq!(d.keyboard(30, KeyState::UP), vec![key(0, false, SHIFT), key(56, false, NONE)]);
    // Digits are not shifted.
    assert_eq!(d.keyboard(2, KeyState::DOWN), vec![key(18, true, NONE)]);
    assert_eq!(d.keyboard(2, KeyState::UP), vec![key(18, false, NONE)]);
    // A second press turns it off.
    assert_eq!(d.keyboard(58, KeyState::DOWN), vec![]);
    assert_eq!(d.keyboard(30, KeyState::DOWN), vec![key(0, true, NONE)]);
}

#[test]
fn print_screen_takes_screenshot() {
    let mut d = device();
    let c = KeyFlags { command: true, ..NONE };
    let cc = KeyFlags { command: true, control: true, ..NONE };
    let ccs = KeyFlags { command: true, control: true, shift: true, alternate: false };
    assert_eq!(
        d.keyboard(311, KeyState::DOWN),
        vec![
            key(55, true, NONE),
            key(59, true, c),
            key(56, true, cc),
            key(21, true, ccs),
            key(21, false, ccs),
            key(56, false, cc),
            key(59, false, c),
            key(55, false, NONE),
        ]
    );
    assert_eq!(d.keyboard(311, KeyState::UP), vec![]);
}

#[test]
fn repeat_taps_key() {
    let mut d = device();
    assert_eq!(
        d.repeat_keyboard(30),
        vec![
            DeviceAction::Key { keycode: 0, down: true, autorepeat: true, flags: NONE },
            key(0, false, NONE),
        ]
    );
    assert_eq!(d.repeat_keyboard(42), vec![]);
    assert_eq!(d.repeat_keyboard(29), vec![]);
    assert_eq!(d.repeat_keyboard(58), vec![]);
    assert_eq!(d.repeat_keyboard(84), vec![]);
}

#[test]
fn leave_screen_releases_everything() {
    let mut d = device();
    d.keyboard(29, KeyState::DOWN);
    d.keyboard(30, KeyState::DOWN);
    d.keyboard(42, KeyState::DOWN);
    let released = d.leave_screen();
    assert_eq!(released, vec![key(55, false, NONE), key(0, false, NONE)]);
    assert_eq!(d.leave_screen(), vec![]);
    // The pending Shift was dropped: releasing it is an ordinary release.
    assert_eq!(d.keyboard(42, KeyState::UP), vec![key(56, false, NONE)]);
}

#[test]
fn scroll_accumulates_wheel_units() {
    let mut d = device();
    assert_eq!(d.scroll(0, 60), vec![]);
    assert_eq!(
        d.scroll(0, 60),
        vec![DeviceAction::Scroll { vertical: 5, horizontal: 0 }]
    );
    assert_eq!(
        d.scroll(-250, 0),
        vec![
            DeviceAction::Scroll { vertical: 0, horizontal: -5 },
            DeviceAction::Pause,
            DeviceAction::Scroll { vertical: 0, horizontal: -5 },
        ]
    );
    // -10 remains; +10 brings it back to zero.
    assert_eq!(d.scroll(10, 0), vec![]);
    assert_eq!(d.scroll(119, 0), vec![]);
    assert_eq!(
        d.scroll(1, -360),
        vec![
            DeviceAction::Scroll { vertical: 0, horizontal: 5 },
            DeviceAction::Scroll { vertical: -5, horizontal: 0 },
            DeviceAction::Pause,
            DeviceAction::Scroll { vertical: -5, horizontal: 0 },
            DeviceAction::Pause,
            DeviceAction::Scroll { vertical: -5, horizontal: 0 },
        ]
    );
}

#[test]
fn mouse_moves_and_drags() {
    let mut d = device();
    let mv = |event, x, y| DeviceAction::Mouse { event, x, y, button: MouseButton::Left };
    assert_eq!(d.move_abs(10, 20), vec![mv(MouseEventType::MouseMoved, 10, 20)]);
    assert_eq!(
        d.button(ButtonType::Right, KeyState::DOWN),
        vec![DeviceAction::Mouse {
            event: MouseEventType::RightMouseDown,
            x: 10,
            y: 20,
            button: MouseButton::Right
        }]
    );
    assert_eq!(d.move_abs(11, 21), vec![mv(MouseEventType::RightMouseDragged, 11, 21)]);
    assert_eq!(
        d.button(ButtonType::Right, KeyState::UP),
        vec![DeviceAction::Mouse {
            event: MouseEventType::RightMouseUp,
            x: 11,
            y: 21,
            button: MouseButton::Right
        }]
    );
    d.button(ButtonType::Extra, KeyState::DOWN);
    assert_eq!(d.move_abs(0, 0), vec![mv(MouseEventType::OtherMouseDragged, 0, 0)]);
    d.button(ButtonType::Left, KeyState::DOWN);
    assert_eq!(d.move_abs(1, 1), vec![mv(MouseEventType::LeftMouseDragged, 1, 1)]);
}

#[test]
fn button_conversion() {
    assert_eq!(
        button_convert(ButtonType::Middle),
        (MouseButton::Center, MouseEventType::OtherMouseDown, MouseEventType::OtherMouseUp)
    );
    assert_eq!(
        button_convert(ButtonType::Left),
        (MouseButton::Left, MouseEventType::LeftMouseDown, MouseEventType::LeftMouseUp)
    );
}
