//! The virtual keyboard and mouse. `FakeDevice` keeps the input state (keys
//! held, pending Shift presses, the emulated Caps Lock, scroll remainders,
//! cursor and buttons) and turns each input from the server into the
//! `DeviceAction`s the platform layer posts, in order.
use vstd::prelude::*;

use crate::keyset::{lemma_with_key, lemma_without_key, with_key, without_key, KeySet};
use crate::protocol::ScreenSize;

verus! {

/// Whether a key or button goes up or down.
#[derive(Debug, Clone, Copy, PartialEq, Eq, Structural)]
pub enum KeyState {
    UP,
    DOWN,
}

/// The mouse buttons the server tells apart.
#[derive(Debug, Clone, Copy, PartialEq, Eq, Structural)]
pub enum ButtonType {
    Left,
    Middle,
    Right,
    Extra,
}

/// What a scancode from the server stands for on this keyboard.
#[derive(Debug, Clone, Copy, PartialEq, Eq, Structural)]
pub enum MappedKey {
    /// A key with this virtual key code.
    Raw(u16),
    /// Caps Lock, emulated by holding Shift on letters.
    CapsLock,
    /// Print Screen, turned into the screenshot shortcut.
    PrintScreen,
}

/// Modifier flags carried by a key event.
#[derive(Debug, Clone, Copy, PartialEq, Eq, Structural)]
pub struct KeyFlags {
    pub shift: bool,
    pub command: bool,
    pub control: bool,
    pub alternate: bool,
}

/// The physical mouse buttons of the platform.
#[derive(Debug, Clone, Copy, PartialEq, Eq, Structural)]
pub enum MouseButton {
    Left,
    Right,
    Center,
}

/// Kinds of mouse events.
#[derive(Debug, Clone, Copy, PartialEq, Eq, Structural)]
pub enum MouseEventType {
    LeftMouseDown,
    LeftMouseUp,
    RightMouseDown,
    RightMouseUp,
    OtherMouseDown,
    OtherMouseUp,
    LeftMouseDragged,
    RightMouseDragged,
    OtherMouseDragged,
    MouseMoved,
}

/// One input event for the platform layer to post.
#[derive(Debug, Clone, Copy, PartialEq, Eq, Structural)]
pub enum DeviceAction {
    /// A mouse event at `(x, y)`.
    Mouse { event: MouseEventType, x: i32, y: i32, button: MouseButton },
    /// One notch of scrolling, in lines.
    Scroll { vertical: i32, horizontal: i32 },
    /// A short wait between two scroll notches.
    Pause,
    /// A key event.
    Key { keycode: u16, down: bool, autorepeat: bool, flags: KeyFlags },
}

pub const CONTROL_KEYCODE: u16 = 59;

pub const COMMAND_KEYCODE: u16 = 55;

pub const RIGHT_COMMAND_KEYCODE: u16 = 54;

pub const LEFT_SHIFT_KEYCODE: u16 = 56;

pub const RIGHT_SHIFT_KEYCODE: u16 = 60;

pub const OPTION_KEYCODE: u16 = 58;

pub const RIGHT_OPTION_KEYCODE: u16 = 61;

pub const SPACE_KEYCODE: u16 = 49;

pub const NUMBER_4_KEYCODE: u16 = 21;

/// The key code of Caps Lock, counted among the modifiers.
pub const CAPS_LOCK_KEYCODE: u16 = 57;

/// Wheel units per scroll notch.
pub const SCROLL_UNIT: i32 = 120;

/// Lines scrolled per notch.
pub const SCROLL_STEPS_PER_NOTCH: i32 = 5;

/// True for the two Shift keys.
pub open spec fn spec_is_shift_keycode(keycode: u16) -> bool {
    keycode == LEFT_SHIFT_KEYCODE || keycode == RIGHT_SHIFT_KEYCODE
}

/// True for the modifier keys.
pub open spec fn spec_is_modifier_keycode(keycode: u16) -> bool {
    keycode == LEFT_SHIFT_KEYCODE || keycode == RIGHT_SHIFT_KEYCODE || keycode == CONTROL_KEYCODE
        || keycode == COMMAND_KEYCODE || keycode == RIGHT_COMMAND_KEYCODE || keycode
        == OPTION_KEYCODE || keycode == RIGHT_OPTION_KEYCODE || keycode == CAPS_LOCK_KEYCODE
}

/// The key codes of the letter keys A to Z.
pub open spec fn letter_keycodes() -> Seq<u16> {
    seq![
        0u16, 1, 2, 3, 4, 5, 6, 7, 8, 9, 11, 12, 13, 14, 15, 16, 17, 31, 32, 34, 35, 37, 38, 40,
        45, 46,
    ]
}

/// True for the letter keys.
pub open spec fn spec_is_letter_keycode(keycode: u16) -> bool {
    letter_keycodes().contains(keycode)
}

/// Whether `keycode` is a Shift key.
pub fn is_shift_keycode(keycode: u16) -> (res: bool)
    ensures
        res == spec_is_shift_keycode(keycode),
{
    keycode == LEFT_SHIFT_KEYCODE || keycode == RIGHT_SHIFT_KEYCODE
}

/// Whether `keycode` is a modifier key.
pub fn is_modifier_keycode(keycode: u16) -> (res: bool)
    ensures
        res == spec_is_modifier_keycode(keycode),
{
    keycode == LEFT_SHIFT_KEYCODE || keycode == RIGHT_SHIFT_KEYCODE || keycode == CONTROL_KEYCODE
        || keycode == COMMAND_KEYCODE || keycode == RIGHT_COMMAND_KEYCODE || keycode
        == OPTION_KEYCODE || keycode == RIGHT_OPTION_KEYCODE || keycode == CAPS_LOCK_KEYCODE
}

/// Whether `keycode` is a letter key.
pub fn is_letter_keycode(keycode: u16) -> (res: bool)
    ensures
        res == spec_is_letter_keycode(keycode),
{
    let letters: [u16; 26] = [
        0, 1, 2, 3, 4, 5, 6, 7, 8, 9, 11, 12, 13, 14, 15, 16, 17, 31, 32, 34, 35, 37, 38, 40, 45,
        46,
    ];
    proof {
        assert(letters@ =~= letter_keycodes());
    }
    let mut i: usize = 0;
    while i < 26
        invariant
            i <= 26,
            letters@ == letter_keycodes(),
            forall|j: int| 0 <= j < i ==> letters@[j] != keycode,
        decreases 26 - i,
    {
        if letters[i] == keycode {
            proof {
                assert(letter_keycodes()[i as int] == keycode);
            }
            return true;
        }
        i = i + 1;
    }
    false
}

/// Whether a key state is DOWN.
pub fn state_convert(state: KeyState) -> (down: bool)
    ensures
        down == (state == KeyState::DOWN),
{
    match state {
        KeyState::UP => false,
        KeyState::DOWN => true,
    }
}

/// A plain key with virtual key code `keycode`.
pub fn raw(keycode: u16) -> (res: Option<MappedKey>)
    ensures
        res == Some(MappedKey::Raw(keycode)),
{
    Some(MappedKey::Raw(keycode))
}

/// What each scancode from the server stands for on this keyboard.
pub open spec fn spec_scancode_to_key(scancode: u16) -> Option<MappedKey> {
    match scancode {
        1 => Some(MappedKey::Raw(53)), // Escape
        2 => Some(MappedKey::Raw(18)), // 1
        3 => Some(MappedKey::Raw(19)), // 2
        4 => Some(MappedKey::Raw(20)), // 3
        5 => Some(MappedKey::Raw(NUMBER_4_KEYCODE)),
        6 => Some(MappedKey::Raw(23)), // 5
        7 => Some(MappedKey::Raw(22)), // 6
        8 => Some(MappedKey::Raw(26)), // 7
        9 => Some(MappedKey::Raw(28)), // 8
        10 => Some(MappedKey::Raw(25)), // 9
        11 => Some(MappedKey::Raw(29)), // 0
        12 => Some(MappedKey::Raw(27)), // -
        13 => Some(MappedKey::Raw(24)), // =
        14 => Some(MappedKey::Raw(51)), // Backspace
        15 => Some(MappedKey::Raw(48)), // Tab
        16 => Some(MappedKey::Raw(12)), // Q
        17 => Some(MappedKey::Raw(13)), // W
        18 => Some(MappedKey::Raw(14)), // E
        19 => Some(MappedKey::Raw(15)), // R
        20 => Some(MappedKey::Raw(17)), // T
        21 => Some(MappedKey::Raw(16)), // Y
        22 => Some(MappedKey::Raw(32)), // U
        23 => Some(MappedKey::Raw(34)), // I
        24 => Some(MappedKey::Raw(31)), // O
        25 => Some(MappedKey::Raw(35)), // P
        26 => Some(MappedKey::Raw(33)), // [
        27 => Some(MappedKey::Raw(30)), // ]
        28 => Some(MappedKey::Raw(36)), // Return
        29 => Some(MappedKey::Raw(COMMAND_KEYCODE)), // Left Control -> Command
        30 => Some(MappedKey::Raw(0)), // A
        31 => Some(MappedKey::Raw(1)), // S
        32 => Some(MappedKey::Raw(2)), // D
        33 => Some(MappedKey::Raw(3)), // F
        34 => Some(MappedKey::Raw(5)), // G
        35 => Some(MappedKey::Raw(4)), // H
        36 => Some(MappedKey::Raw(38)), // J
        37 => Some(MappedKey::Raw(40)), // K
        38 => Some(MappedKey::Raw(37)), // L
        39 => Some(MappedKey::Raw(41)), // ;
        40 => Some(MappedKey::Raw(39)), // '
        41 => Some(MappedKey::Raw(50)), // `
        42 => Some(MappedKey::Raw(LEFT_SHIFT_KEYCODE)),
        43 => Some(MappedKey::Raw(42)), // Backslash
        44 => Some(MappedKey::Raw(6)), // Z
        45 => Some(MappedKey::Raw(7)), // X
        46 => Some(MappedKey::Raw(8)), // C
        47 => Some(MappedKey::Raw(9)), // V
        48 => Some(MappedKey::Raw(11)), // B
        49 => Some(MappedKey::Raw(45)), // N
        50 => Some(MappedKey::Raw(46)), // M
        51 => Some(MappedKey::Raw(43)), // ,
        52 => Some(MappedKey::Raw(47)), // .
        53 => Some(MappedKey::Raw(44)), // /
        54 => Some(MappedKey::Raw(RIGHT_SHIFT_KEYCODE)),
        55 => Some(MappedKey::Raw(67)), // Keypad *
        56 => Some(MappedKey::Raw(OPTION_KEYCODE)), // Left Alt / Option
        57 => Some(MappedKey::Raw(SPACE_KEYCODE)), // Space
        58 => Some(MappedKey::CapsLock),
        59 => Some(MappedKey::Raw(122)), // F1
        60 => Some(MappedKey::Raw(120)), // F2
        61 => Some(MappedKey::Raw(99)), // F3
        62 => Some(MappedKey::Raw(118)), // F4
        63 => Some(MappedKey::Raw(96)), // F5
        64 => Some(MappedKey::Raw(97)), // F6
        65 => Some(MappedKey::Raw(98)), // F7
        66 => Some(MappedKey::Raw(100)), // F8
        67 => Some(MappedKey::Raw(101)), // F9
        68 => Some(MappedKey::Raw(109)), // F10
        69 => Some(MappedKey::Raw(71)), // Num Lock -> Keypad Clear
        70 => Some(MappedKey::Raw(113)), // Scroll Lock -> F15
        71 => Some(MappedKey::Raw(89)), // Keypad 7
        72 => Some(MappedKey::Raw(91)), // Keypad 8
        73 => Some(MappedKey::Raw(92)), // Keypad 9
        74 => Some(MappedKey::Raw(78)), // Keypad -
        75 => Some(MappedKey::Raw(86)), // Keypad 4
        76 => Some(MappedKey::Raw(87)), // Keypad 5
        77 => Some(MappedKey::Raw(88)), // Keypad 6
        78 => Some(MappedKey::Raw(69)), // Keypad +
        79 => Some(MappedKey::Raw(83)), // Keypad 1
        80 => Some(MappedKey::Raw(84)), // Keypad 2
        81 => Some(MappedKey::Raw(85)), // Keypad 3
        82 => Some(MappedKey::Raw(82)), // Keypad 0
        83 => Some(MappedKey::Raw(65)), // Keypad .
        87 => Some(MappedKey::Raw(103)), // F11
        88 => Some(MappedKey::Raw(111)), // F12
        284 => Some(MappedKey::Raw(76)), // Keypad Enter
        285 => Some(MappedKey::Raw(RIGHT_COMMAND_KEYCODE)),
        309 => Some(MappedKey::Raw(75)), // Keypad /
        311 => Some(MappedKey::PrintScreen),
        312 => Some(MappedKey::Raw(RIGHT_OPTION_KEYCODE)),
        327 => Some(MappedKey::Raw(115)), // Home
        328 => Some(MappedKey::Raw(126)), // Up
        329 => Some(MappedKey::Raw(116)), // Page Up
        331 => Some(MappedKey::Raw(123)), // Left
        333 => Some(MappedKey::Raw(124)), // Right
        335 => Some(MappedKey::Raw(119)), // End
        336 => Some(MappedKey::Raw(125)), // Down
        337 => Some(MappedKey::Raw(121)), // Page Down
        338 => Some(MappedKey::Raw(114)), // Insert / Help
        339 => Some(MappedKey::Raw(117)), // Forward Delete
        347 => Some(MappedKey::Raw(COMMAND_KEYCODE)),
        348 => Some(MappedKey::Raw(RIGHT_COMMAND_KEYCODE)),
        349 => Some(MappedKey::Raw(110)), // Menu key
        _ => None,
    }
}

/// Maps a scancode from the server to a key on this keyboard.
pub fn scancode_to_key(scancode: u16) -> (res: Option<MappedKey>)
    ensures
        res == spec_scancode_to_key(scancode),
{
    match scancode {
        1 => raw(53), // Escape
        2 => raw(18), // 1
        3 => raw(19), // 2
        4 => raw(20), // 3
        5 => raw(NUMBER_4_KEYCODE),
        6 => raw(23), // 5
        7 => raw(22), // 6
        8 => raw(26), // 7
        9 => raw(28), // 8
        10 => raw(25), // 9
        11 => raw(29), // 0
        12 => raw(27), // -
        13 => raw(24), // =
        14 => raw(51), // Backspace
        15 => raw(48), // Tab
        16 => raw(12), // Q
        17 => raw(13), // W
        18 => raw(14), // E
        19 => raw(15), // R
        20 => raw(17), // T
        21 => raw(16), // Y
        22 => raw(32), // U
        23 => raw(34), // I
        24 => raw(31), // O
        25 => raw(35), // P
        26 => raw(33), // [
        27 => raw(30), // ]
        28 => raw(36), // Return
        29 => raw(COMMAND_KEYCODE), // Left Control -> Command
        30 => raw(0), // A
        31 => raw(1), // S
        32 => raw(2), // D
        33 => raw(3), // F
        34 => raw(5), // G
        35 => raw(4), // H
        36 => raw(38), // J
        37 => raw(40), // K
        38 => raw(37), // L
        39 => raw(41), // ;
        40 => raw(39), // '
        41 => raw(50), // `
        42 => raw(LEFT_SHIFT_KEYCODE),
        43 => raw(42), // Backslash
        44 => raw(6), // Z
        45 => raw(7), // X
        46 => raw(8), // C
        47 => raw(9), // V
        48 => raw(11), // B
        49 => raw(45), // N
        50 => raw(46), // M
        51 => raw(43), // ,
        52 => raw(47), // .
        53 => raw(44), // /
        54 => raw(RIGHT_SHIFT_KEYCODE),
        55 => raw(67), // Keypad *
        56 => raw(OPTION_KEYCODE), // Left Alt / Option
        57 => raw(SPACE_KEYCODE), // Space
        58 => Some(MappedKey::CapsLock),
        59 => raw(122), // F1
        60 => raw(120), // F2
        61 => raw(99), // F3
        62 => raw(118), // F4
        63 => raw(96), // F5
        64 => raw(97), // F6
        65 => raw(98), // F7
        66 => raw(100), // F8
        67 => raw(101), // F9
        68 => raw(109), // F10
        69 => raw(71), // Num Lock -> Keypad Clear
        70 => raw(113), // Scroll Lock -> F15
        71 => raw(89), // Keypad 7
        72 => raw(91), // Keypad 8
        73 => raw(92), // Keypad 9
        74 => raw(78), // Keypad -
        75 => raw(86), // Keypad 4
        76 => raw(87), // Keypad 5
        77 => raw(88), // Keypad 6
        78 => raw(69), // Keypad +
        79 => raw(83), // Keypad 1
        80 => raw(84), // Keypad 2
        81 => raw(85), // Keypad 3
        82 => raw(82), // Keypad 0
        83 => raw(65), // Keypad .
        87 => raw(103), // F11
        88 => raw(111), // F12
        284 => raw(76), // Keypad Enter
        285 => raw(RIGHT_COMMAND_KEYCODE),
        309 => raw(75), // Keypad /
        311 => Some(MappedKey::PrintScreen),
        312 => raw(RIGHT_OPTION_KEYCODE),
        327 => raw(115), // Home
        328 => raw(126), // Up
        329 => raw(116), // Page Up
        331 => raw(123), // Left
        333 => raw(124), // Right
        335 => raw(119), // End
        336 => raw(125), // Down
        337 => raw(121), // Page Down
        338 => raw(114), // Insert / Help
        339 => raw(117), // Forward Delete
        347 => raw(COMMAND_KEYCODE),
        348 => raw(RIGHT_COMMAND_KEYCODE),
        349 => raw(110), // Menu key
        _ => None,
    }
}

/// The model of a `FakeDevice`.
pub struct DeviceView {
    /// Keys held down, in the order they went down.
    pub pressed: Seq<u16>,
    /// Shift keys pressed but not yet passed on: a Shift tapped alone
    /// switches the input source instead.
    pub pending_shifts: Seq<u16>,
    /// The emulated Caps Lock.
    pub caps_lock: bool,
    /// Letter keys for which Caps Lock holds the left Shift down.
    pub caps_shifted: Seq<u16>,
    /// Wheel units not yet turned into whole notches, per axis.
    pub scroll_horizon_remainder: int,
    pub scroll_vertical_remainder: int,
    /// The cursor position.
    pub x: i32,
    pub y: i32,
    /// Mouse buttons held down.
    pub left: bool,
    pub right: bool,
    pub center: bool,
}

/// A model after an input, and the actions the input gives, in order.
pub type DeviceStep = (DeviceView, Seq<DeviceAction>);

/// The invariant of the device state.
pub open spec fn device_wf(v: DeviceView) -> bool {
    &&& v.pressed.no_duplicates()
    &&& v.pending_shifts.no_duplicates()
    &&& v.caps_shifted.no_duplicates()
    &&& forall|i: int|
        0 <= i < v.pending_shifts.len() ==> spec_is_shift_keycode(#[trigger] v.pending_shifts[i])
    &&& -SCROLL_UNIT < v.scroll_horizon_remainder < SCROLL_UNIT
    &&& -SCROLL_UNIT < v.scroll_vertical_remainder < SCROLL_UNIT
}

/// The modifier flags while the keys `pressed` are held.
pub open spec fn flags_of(pressed: Seq<u16>) -> KeyFlags {
    KeyFlags {
        shift: pressed.contains(LEFT_SHIFT_KEYCODE) || pressed.contains(RIGHT_SHIFT_KEYCODE),
        command: pressed.contains(COMMAND_KEYCODE) || pressed.contains(RIGHT_COMMAND_KEYCODE),
        control: pressed.contains(CONTROL_KEYCODE),
        alternate: pressed.contains(OPTION_KEYCODE) || pressed.contains(RIGHT_OPTION_KEYCODE),
    }
}

/// A key event posted while the keys `pressed` are held.
pub open spec fn key_event(pressed: Seq<u16>, keycode: u16, down: bool, autorepeat: bool) -> DeviceAction {
    DeviceAction::Key { keycode, down, autorepeat, flags: flags_of(pressed) }
}

/// Pressing `keys` in order: each key's event, after which it counts as held.
pub open spec fn press_keys(pressed: Seq<u16>, keys: Seq<u16>) -> (Seq<u16>, Seq<DeviceAction>)
    decreases keys.len(),
{
    if keys.len() == 0 {
        (pressed, Seq::empty())
    } else {
        let (p, acts) = press_keys(pressed, keys.drop_last());
        (with_key(p, keys.last()), acts.push(key_event(p, keys.last(), true, false)))
    }
}

/// Releasing `keys` from the last to the first: each key stops counting as
/// held, then its release event.
pub open spec fn release_keys(pressed: Seq<u16>, keys: Seq<u16>) -> (Seq<u16>, Seq<DeviceAction>)
    decreases keys.len(),
{
    if keys.len() == 0 {
        (pressed, Seq::empty())
    } else {
        let p = without_key(pressed, keys.last());
        let (q, acts) = release_keys(p, keys.drop_last());
        (q, seq![key_event(p, keys.last(), false, false)] + acts)
    }
}

/// A shortcut: `keys` pressed in order, then released in reverse.
pub open spec fn chord(pressed: Seq<u16>, keys: Seq<u16>) -> (Seq<u16>, Seq<DeviceAction>) {
    let (p, a) = press_keys(pressed, keys);
    let (q, b) = release_keys(p, keys);
    (q, a + b)
}

/// Holding `keys` in order: each key counts as held, then its press event.
pub open spec fn hold_keys(pressed: Seq<u16>, keys: Seq<u16>) -> (Seq<u16>, Seq<DeviceAction>)
    decreases keys.len(),
{
    if keys.len() == 0 {
        (pressed, Seq::empty())
    } else {
        let (p, acts) = hold_keys(pressed, keys.drop_last());
        let q = with_key(p, keys.last());
        (q, acts.push(key_event(q, keys.last(), true, false)))
    }
}

/// Passing on the pending Shift presses.
pub open spec fn flush_pending(v: DeviceView) -> DeviceStep {
    let (p, acts) = hold_keys(v.pressed, v.pending_shifts);
    (DeviceView { pressed: p, pending_shifts: Seq::empty(), ..v }, acts)
}

/// Whether a Shift is held or pending.
pub open spec fn has_active_shift(v: DeviceView) -> bool {
    v.pressed.contains(LEFT_SHIFT_KEYCODE) || v.pressed.contains(RIGHT_SHIFT_KEYCODE)
        || v.pending_shifts.len() > 0
}

/// Under Caps Lock, a letter pressed with no Shift active gets the left
/// Shift pressed before it.
pub open spec fn press_caps_shift(v: DeviceView, keycode: u16) -> DeviceStep {
    if v.caps_lock && spec_is_letter_keycode(keycode) && !has_active_shift(v) {
        (
            DeviceView {
                pressed: with_key(v.pressed, LEFT_SHIFT_KEYCODE),
                caps_shifted: with_key(v.caps_shifted, keycode),
                ..v
            },
            seq![key_event(v.pressed, LEFT_SHIFT_KEYCODE, true, false)],
        )
    } else {
        (v, Seq::empty())
    }
}

/// Releasing a letter that Caps Lock shifted releases that Shift too.
pub open spec fn release_caps_shift(v: DeviceView, keycode: u16) -> DeviceStep {
    if v.caps_shifted.contains(keycode) {
        let p = without_key(v.pressed, LEFT_SHIFT_KEYCODE);
        (
            DeviceView { pressed: p, caps_shifted: without_key(v.caps_shifted, keycode), ..v },
            seq![key_event(p, LEFT_SHIFT_KEYCODE, false, false)],
        )
    } else {
        (v, Seq::empty())
    }
}

/// The keys of the screenshot shortcut: Command, Control, Shift, 4.
pub open spec fn screenshot_keys() -> Seq<u16> {
    seq![COMMAND_KEYCODE, CONTROL_KEYCODE, LEFT_SHIFT_KEYCODE, NUMBER_4_KEYCODE]
}

/// The keys of the input-source shortcut: Control, Space.
pub open spec fn input_source_keys() -> Seq<u16> {
    seq![CONTROL_KEYCODE, SPACE_KEYCODE]
}

/// Print Screen: pending Shifts are passed on, then the screenshot shortcut.
pub open spec fn screenshot(v: DeviceView) -> DeviceStep {
    let (v1, a1) = flush_pending(v);
    let (p, a2) = chord(v1.pressed, screenshot_keys());
    (DeviceView { pressed: p, ..v1 }, a1 + a2)
}

/// A Shift tapped alone: the input-source shortcut.
pub open spec fn switch_input_source(v: DeviceView) -> DeviceStep {
    let (p, a) = chord(v.pressed, input_source_keys());
    (DeviceView { pressed: p, ..v }, a)
}

/// What a key press or release from the server does.
pub open spec fn spec_keyboard(v: DeviceView, scancode: u16, state: KeyState) -> DeviceStep {
    match spec_scancode_to_key(scancode) {
        None => (v, Seq::empty()),
        Some(MappedKey::CapsLock) => if state == KeyState::DOWN {
            (DeviceView { caps_lock: !v.caps_lock, ..v }, Seq::empty())
        } else {
            (v, Seq::empty())
        },
        Some(MappedKey::PrintScreen) => if state == KeyState::DOWN {
            screenshot(v)
        } else {
            (v, Seq::empty())
        },
        Some(MappedKey::Raw(k)) => if spec_is_shift_keycode(k) && state == KeyState::DOWN {
            (DeviceView { pending_shifts: with_key(v.pending_shifts, k), ..v }, Seq::empty())
        } else if spec_is_shift_keycode(k) && v.pending_shifts.contains(k) {
            switch_input_source(
                DeviceView { pending_shifts: without_key(v.pending_shifts, k), ..v },
            )
        } else if state == KeyState::DOWN {
            let (v1, a1) = flush_pending(v);
            let (v2, a2) = press_caps_shift(v1, k);
            let p = with_key(v2.pressed, k);
            (DeviceView { pressed: p, ..v2 }, a1 + a2 + seq![key_event(p, k, true, false)])
        } else {
            let p = without_key(v.pressed, k);
            let (v2, a2) = release_caps_shift(DeviceView { pressed: p, ..v }, k);
            (v2, seq![key_event(p, k, false, false)] + a2)
        },
    }
}

/// What a key repeat does: a press and release of the key flagged as a
/// repeat; nothing for modifiers and keys that are not plain keys.
pub open spec fn spec_repeat_keyboard(v: DeviceView, scancode: u16) -> DeviceStep {
    match spec_scancode_to_key(scancode) {
        Some(MappedKey::Raw(k)) => if spec_is_shift_keycode(k) || spec_is_modifier_keycode(k) {
            (v, Seq::empty())
        } else {
            let (v1, a1) = flush_pending(v);
            let (v2, a2) = press_caps_shift(v1, k);
            let tap = seq![
                key_event(v2.pressed, k, true, true),
                key_event(v2.pressed, k, false, false),
            ];
            let (v3, a3) = release_caps_shift(v2, k);
            (v3, a1 + a2 + tap + a3)
        },
        _ => (v, Seq::empty()),
    }
}

/// Leaving the screen: every held key is released, with no modifier
/// flags, and nothing stays held, pending or shifted.
pub open spec fn spec_leave_screen(v: DeviceView) -> DeviceStep {
    (
        DeviceView {
            pressed: Seq::empty(),
            pending_shifts: Seq::empty(),
            caps_shifted: Seq::empty(),
            ..v
        },
        v.pressed.map_values(|k: u16| key_event(Seq::empty(), k, false, false)),
    )
}

/// Integer division rounding toward zero.
pub open spec fn trunc_div(a: int, b: int) -> int {
    if a >= 0 {
        a / b
    } else {
        -((-a) / b)
    }
}

/// The remainder of `trunc_div`, with the sign of `a`.
pub open spec fn trunc_rem(a: int, b: int) -> int {
    a - b * trunc_div(a, b)
}

/// The sign of `n`.
pub open spec fn sign(n: int) -> int {
    if n > 0 {
        1
    } else if n < 0 {
        -1
    } else {
        0
    }
}

/// `count` scroll notches, with a pause between each two.
pub open spec fn notches(count: nat, notch: DeviceAction) -> Seq<DeviceAction>
    decreases count,
{
    if count == 0 {
        Seq::empty()
    } else if count == 1 {
        seq![notch]
    } else {
        notches((count - 1) as nat, notch) + seq![DeviceAction::Pause, notch]
    }
}

/// The notches for `steps` on one axis, in the direction of its sign.
pub open spec fn axis_notches(steps: int, vertical: bool) -> Seq<DeviceAction> {
    let amount = (sign(steps) * SCROLL_STEPS_PER_NOTCH) as i32;
    let count = if steps < 0 {
        (-steps) as nat
    } else {
        steps as nat
    };
    if vertical {
        notches(count, DeviceAction::Scroll { vertical: amount, horizontal: 0 })
    } else {
        notches(count, DeviceAction::Scroll { vertical: 0, horizontal: amount })
    }
}

/// Scrolling: the wheel units are added to what remains of earlier
/// scrolling; each whole `SCROLL_UNIT` becomes a notch, horizontal ones
/// first, and the rest remains.
pub open spec fn spec_scroll(v: DeviceView, horizon: i16, vertical: i16) -> DeviceStep {
    let th = v.scroll_horizon_remainder + horizon;
    let tv = v.scroll_vertical_remainder + vertical;
    (
        DeviceView {
            scroll_horizon_remainder: trunc_rem(th, SCROLL_UNIT as int),
            scroll_vertical_remainder: trunc_rem(tv, SCROLL_UNIT as int),
            ..v
        },
        axis_notches(trunc_div(th, SCROLL_UNIT as int), false) + axis_notches(
            trunc_div(tv, SCROLL_UNIT as int),
            true,
        ),
    )
}

/// The kind of a cursor move: a drag while a button is held.
pub open spec fn move_type(v: DeviceView) -> MouseEventType {
    if v.left {
        MouseEventType::LeftMouseDragged
    } else if v.right {
        MouseEventType::RightMouseDragged
    } else if v.center {
        MouseEventType::OtherMouseDragged
    } else {
        MouseEventType::MouseMoved
    }
}

/// Moving the cursor to `(x, y)`.
pub open spec fn spec_move_abs(v: DeviceView, x: i32, y: i32) -> DeviceStep {
    (
        DeviceView { x, y, ..v },
        seq![DeviceAction::Mouse { event: move_type(v), x, y, button: MouseButton::Left }],
    )
}

/// The platform button for a server button, with its down and up events.
pub open spec fn spec_button_convert(button: ButtonType) -> (MouseButton, MouseEventType, MouseEventType) {
    match button {
        ButtonType::Left => (
            MouseButton::Left,
            MouseEventType::LeftMouseDown,
            MouseEventType::LeftMouseUp,
        ),
        ButtonType::Middle => (
            MouseButton::Center,
            MouseEventType::OtherMouseDown,
            MouseEventType::OtherMouseUp,
        ),
        ButtonType::Right => (
            MouseButton::Right,
            MouseEventType::RightMouseDown,
            MouseEventType::RightMouseUp,
        ),
        ButtonType::Extra => (
            MouseButton::Center,
            MouseEventType::OtherMouseDown,
            MouseEventType::OtherMouseUp,
        ),
    }
}

/// The model with one platform button held or not.
pub open spec fn set_button(v: DeviceView, button: MouseButton, down: bool) -> DeviceView {
    match button {
        MouseButton::Left => DeviceView { left: down, ..v },
        MouseButton::Right => DeviceView { right: down, ..v },
        MouseButton::Center => DeviceView { center: down, ..v },
    }
}

/// Pressing or releasing a mouse button where the cursor is.
pub open spec fn spec_button(v: DeviceView, button: ButtonType, state: KeyState) -> DeviceStep {
    let (b, down_event, up_event) = spec_button_convert(button);
    let down = state == KeyState::DOWN;
    (
        set_button(v, b, down),
        seq![
            DeviceAction::Mouse {
                event: if down {
                    down_event
                } else {
                    up_event
                },
                x: v.x,
                y: v.y,
                button: b,
            },
        ],
    )
}

/// A fresh device: nothing held, the cursor at the origin.
pub open spec fn initial_view() -> DeviceView {
    DeviceView {
        pressed: Seq::empty(),
        pending_shifts: Seq::empty(),
        caps_lock: false,
        caps_shifted: Seq::empty(),
        scroll_horizon_remainder: 0,
        scroll_vertical_remainder: 0,
        x: 0,
        y: 0,
        left: false,
        right: false,
        center: false,
    }
}

/// Mouse buttons held down.
#[derive(Debug, Default)]
struct MouseButtons {
    left: bool,
    right: bool,
    center: bool,
}

/// The virtual keyboard and mouse.
#[derive(Debug)]
pub struct FakeDevice {
    pressed_keys: KeySet,
    pending_shifts: KeySet,
    caps_lock: bool,
    caps_shifted_keys: KeySet,
    scroll_horizon_remainder: i32,
    scroll_vertical_remainder: i32,
    mouse_x: i32,
    mouse_y: i32,
    mouse_buttons: MouseButtons,
}

impl View for FakeDevice {
    type V = DeviceView;

    closed spec fn view(&self) -> DeviceView {
        DeviceView {
            pressed: self.pressed_keys@,
            pending_shifts: self.pending_shifts@,
            caps_lock: self.caps_lock,
            caps_shifted: self.caps_shifted_keys@,
            scroll_horizon_remainder: self.scroll_horizon_remainder as int,
            scroll_vertical_remainder: self.scroll_vertical_remainder as int,
            x: self.mouse_x,
            y: self.mouse_y,
            left: self.mouse_buttons.left,
            right: self.mouse_buttons.right,
            center: self.mouse_buttons.center,
        }
    }
}

/// The platform button for a server button, with its down and up events.
pub fn button_convert(button: ButtonType) -> (res: (MouseButton, MouseEventType, MouseEventType))
    ensures
        res == spec_button_convert(button),
{
    match button {
        ButtonType::Left => (
            MouseButton::Left,
            MouseEventType::LeftMouseDown,
            MouseEventType::LeftMouseUp,
        ),
        ButtonType::Middle => (
            MouseButton::Center,
            MouseEventType::OtherMouseDown,
            MouseEventType::OtherMouseUp,
        ),
        ButtonType::Right => (
            MouseButton::Right,
            MouseEventType::RightMouseDown,
            MouseEventType::RightMouseUp,
        ),
        ButtonType::Extra => (
            MouseButton::Center,
            MouseEventType::OtherMouseDown,
            MouseEventType::OtherMouseUp,
        ),
    }
}

impl FakeDevice {
    /// The invariant of the device state.
    pub open spec fn wf(&self) -> bool {
        device_wf(self@)
    }

    /// A fresh device for a screen of the given size.
    pub fn new(_screen_size: ScreenSize) -> (res: Self)
        ensures
            res@ == initial_view(),
            res.wf(),
    {
        FakeDevice {
            pressed_keys: KeySet::new(),
            pending_shifts: KeySet::new(),
            caps_lock: false,
            caps_shifted_keys: KeySet::new(),
            scroll_horizon_remainder: 0,
            scroll_vertical_remainder: 0,
            mouse_x: 0,
            mouse_y: 0,
            mouse_buttons: MouseButtons { left: false, right: false, center: false },
        }
    }

    /// The modifier flags of the keys held.
    fn key_flags(&self) -> (res: KeyFlags)
        ensures
            res == flags_of(self@.pressed),
    {
        KeyFlags {
            shift: self.pressed_keys.contains(LEFT_SHIFT_KEYCODE) || self.pressed_keys.contains(
                RIGHT_SHIFT_KEYCODE,
            ),
            command: self.pressed_keys.contains(COMMAND_KEYCODE) || self.pressed_keys.contains(
                RIGHT_COMMAND_KEYCODE,
            ),
            control: self.pressed_keys.contains(CONTROL_KEYCODE),
            alternate: self.pressed_keys.contains(OPTION_KEYCODE) || self.pressed_keys.contains(
                RIGHT_OPTION_KEYCODE,
            ),
        }
    }

    /// Emits a key event with the flags of the keys held now.
    fn raw_key(&self, keycode: u16, down: bool, autorepeat: bool, out: &mut Vec<DeviceAction>)
        ensures
            final(out)@ == old(out)@.push(key_event(self@.pressed, keycode, down, autorepeat)),
    {
        let flags = self.key_flags();
        out.push(DeviceAction::Key { keycode, down, autorepeat, flags });
    }

    /// Presses `keys` in order, then releases them in reverse.
    fn press_chord(&mut self, keys: &[u16], out: &mut Vec<DeviceAction>)
        requires
            old(self)@.pressed.no_duplicates(),
        ensures
            final(self)@ == (DeviceView { pressed: chord(old(self)@.pressed, keys@).0, ..old(self)@ }),
            final(out)@ == old(out)@ + chord(old(self)@.pressed, keys@).1,
            final(self)@.pressed.no_duplicates(),
    {
        let ghost p0 = self@.pressed;
        let ghost out0 = out@;
        let n: usize = keys.len();
        let mut i: usize = 0;
        proof {
            assert(keys@.subrange(0, 0) =~= Seq::<u16>::empty());
            assert(out@ =~= out0 + Seq::<DeviceAction>::empty());
        }
        while i < n
            invariant
                n == keys@.len(),
                i <= n,
                self@ == (DeviceView { pressed: self@.pressed, ..old(self)@ }),
                p0 == old(self)@.pressed,
                (self@.pressed, out@.subrange(out0.len() as int, out@.len() as int)) == press_keys(
                    p0,
                    keys@.subrange(0, i as int),
                ),
                out@.subrange(0, out0.len() as int) == out0,
                out@.len() >= out0.len(),
                self@.pressed.no_duplicates(),
            decreases n - i,
        {
            let k: u16 = keys[i];
            let ghost before = out@;
            self.raw_key(k, true, false, out);
            proof {
                lemma_with_key(self@.pressed, k);
                let t = keys@.subrange(0, i + 1);
                assert(t.drop_last() =~= keys@.subrange(0, i as int));
                assert(t.last() == k);
                assert(out@.subrange(out0.len() as int, out@.len() as int) =~= before.subrange(
                    out0.len() as int,
                    before.len() as int,
                ).push(key_event(self@.pressed, k, true, false)));
                assert(out@.subrange(0, out0.len() as int) =~= before.subrange(
                    0,
                    out0.len() as int,
                ));
            }
            self.pressed_keys.insert(k);
            i = i + 1;
        }
        proof {
            assert(keys@.subrange(0, n as int) =~= keys@);
        }
        let ghost p1 = self@.pressed;
        let ghost pressed_acts = out@.subrange(out0.len() as int, out@.len() as int);
        let ghost mid = out@;
        let mut j: usize = n;
        proof {
            assert(out@.subrange(mid.len() as int, out@.len() as int) =~= Seq::<DeviceAction>::empty());
            let (q, b) = release_keys(p1, keys@.subrange(0, n as int));
            assert(b =~= Seq::<DeviceAction>::empty() + b);
        }
        while j > 0
            invariant
                n == keys@.len(),
                j <= n,
                self@ == (DeviceView { pressed: self@.pressed, ..old(self)@ }),
                mid.len() <= out@.len(),
                out@.subrange(0, mid.len() as int) == mid,
                release_keys(p1, keys@) == (
                    release_keys(self@.pressed, keys@.subrange(0, j as int)).0,
                    out@.subrange(mid.len() as int, out@.len() as int) + release_keys(
                        self@.pressed,
                        keys@.subrange(0, j as int),
                    ).1,
                ),
                self@.pressed.no_duplicates(),
            decreases j,
        {
            let k: u16 = keys[j - 1];
            let ghost cur = self@.pressed;
            let ghost before = out@;
            proof {
                let t = keys@.subrange(0, j as int);
                assert(t.drop_last() =~= keys@.subrange(0, j - 1));
                assert(t.last() == k);
                lemma_without_key(cur, k);
            }
            self.pressed_keys.remove(k);
            self.raw_key(k, false, false, out);
            j = j - 1;
            proof {
                let p = without_key(cur, k);
                let (q, rest) = release_keys(p, keys@.subrange(0, j as int));
                assert(out@.subrange(mid.len() as int, out@.len() as int) =~= before.subrange(
                    mid.len() as int,
                    before.len() as int,
                ).push(key_event(p, k, false, false)));
                assert(out@.subrange(0, mid.len() as int) =~= before.subrange(0, mid.len() as int));
                assert(before.subrange(mid.len() as int, before.len() as int) + (seq![
                    key_event(p, k, false, false),
                ] + rest) =~= out@.subrange(mid.len() as int, out@.len() as int) + rest);
            }
        }
        proof {
            assert(keys@.subrange(0, 0) =~= Seq::<u16>::empty());
            let rel = out@.subrange(mid.len() as int, out@.len() as int);
            assert(rel + Seq::<DeviceAction>::empty() =~= rel);
            assert(out@ =~= out0 + (pressed_acts + rel));
        }
    }

    /// Passes on the pending Shift presses.
    fn flush_pending_shifts(&mut self, out: &mut Vec<DeviceAction>)
        requires
            old(self)@.pressed.no_duplicates(),
        ensures
            final(self)@ == flush_pending(old(self)@).0,
            final(out)@ == old(out)@ + flush_pending(old(self)@).1,
            final(self)@.pressed.no_duplicates(),
    {
        let ghost p0 = self@.pressed;
        let ghost out0 = out@;
        let pending = self.pending_shifts.drain();
        let n: usize = pending.len();
        let mut i: usize = 0;
        proof {
            assert(pending@.subrange(0, 0) =~= Seq::<u16>::empty());
            assert(out@.subrange(out0.len() as int, out@.len() as int) =~= Seq::<DeviceAction>::empty());
            assert(out@.subrange(0, out0.len() as int) =~= out0);
        }
        while i < n
            invariant
                n == pending@.len(),
                pending@ == old(self)@.pending_shifts,
                i <= n,
                self@ == (DeviceView {
                    pressed: self@.pressed,
                    pending_shifts: Seq::empty(),
                    ..old(self)@
                }),
                p0 == old(self)@.pressed,
                (self@.pressed, out@.subrange(out0.len() as int, out@.len() as int)) == hold_keys(
                    p0,
                    pending@.subrange(0, i as int),
                ),
                out@.subrange(0, out0.len() as int) == out0,
                out@.len() >= out0.len(),
                self@.pressed.no_duplicates(),
            decreases n - i,
        {
            let k: u16 = pending[i];
            let ghost before = out@;
            proof {
                lemma_with_key(self@.pressed, k);
            }
            self.pressed_keys.insert(k);
            self.raw_key(k, true, false, out);
            proof {
                let t = pending@.subrange(0, i + 1);
                assert(t.drop_last() =~= pending@.subrange(0, i as int));
                assert(t.last() == k);
                assert(out@.subrange(out0.len() as int, out@.len() as int) =~= before.subrange(
                    out0.len() as int,
                    before.len() as int,
                ).push(key_event(self@.pressed, k, true, false)));
                assert(out@.subrange(0, out0.len() as int) =~= before.subrange(
                    0,
                    out0.len() as int,
                ));
            }
            i = i + 1;
        }
        proof {
            assert(pending@.subrange(0, n as int) =~= pending@);
            assert(out@ =~= out0 + out@.subrange(out0.len() as int, out@.len() as int));
        }
    }

    /// Under Caps Lock, presses the left Shift before a letter.
    fn maybe_press_caps_shift(&mut self, keycode: u16, out: &mut Vec<DeviceAction>)
        requires
            device_wf(old(self)@),
        ensures
            final(self)@ == press_caps_shift(old(self)@, keycode).0,
            final(out)@ == old(out)@ + press_caps_shift(old(self)@, keycode).1,
            device_wf(final(self)@),
    {
        let active_shift = self.pressed_keys.contains(LEFT_SHIFT_KEYCODE)
            || self.pressed_keys.contains(RIGHT_SHIFT_KEYCODE) || !self.pending_shifts.is_empty();
        if self.caps_lock && is_letter_keycode(keycode) && !active_shift {
            let ghost before = out@;
            self.raw_key(LEFT_SHIFT_KEYCODE, true, false, out);
            proof {
                lemma_with_key(self@.pressed, LEFT_SHIFT_KEYCODE);
                lemma_with_key(self@.caps_shifted, keycode);
                assert(out@ =~= before + seq![
                    key_event(self@.pressed, LEFT_SHIFT_KEYCODE, true, false),
                ]);
            }
            self.pressed_keys.insert(LEFT_SHIFT_KEYCODE);
            self.caps_shifted_keys.insert(keycode);
        } else {
            proof {
                assert(out@ =~= out@ + Seq::<DeviceAction>::empty());
            }
        }
    }

    /// Releases the Shift that Caps Lock pressed for this letter.
    fn maybe_release_caps_shift(&mut self, keycode: u16, out: &mut Vec<DeviceAction>)
        requires
            device_wf(old(self)@),
        ensures
            final(self)@ == release_caps_shift(old(self)@, keycode).0,
            final(out)@ == old(out)@ + release_caps_shift(old(self)@, keycode).1,
            device_wf(final(self)@),
    {
        proof {
            lemma_without_key(self@.pressed, LEFT_SHIFT_KEYCODE);
            lemma_without_key(self@.caps_shifted, keycode);
        }
        if self.caps_shifted_keys.remove(keycode) {
            self.pressed_keys.remove(LEFT_SHIFT_KEYCODE);
            let ghost before = out@;
            self.raw_key(LEFT_SHIFT_KEYCODE, false, false, out);
            proof {
                assert(out@ =~= before + seq![
                    key_event(self@.pressed, LEFT_SHIFT_KEYCODE, false, false),
                ]);
            }
        } else {
            proof {
                assert(out@ =~= out@ + Seq::<DeviceAction>::empty());
            }
        }
    }

    /// The input-source shortcut.
    fn switch_input_source(&mut self, out: &mut Vec<DeviceAction>)
        requires
            device_wf(old(self)@),
        ensures
            final(self)@ == switch_input_source(old(self)@).0,
            final(out)@ == old(out)@ + switch_input_source(old(self)@).1,
            device_wf(final(self)@),
    {
        let keys: [u16; 2] = [CONTROL_KEYCODE, SPACE_KEYCODE];
        proof {
            assert(keys@ =~= input_source_keys());
        }
        self.press_chord(&keys, out);
    }

    /// The screenshot shortcut, after passing on pending Shifts.
    fn screenshot(&mut self, out: &mut Vec<DeviceAction>)
        requires
            device_wf(old(self)@),
        ensures
            final(self)@ == screenshot(old(self)@).0,
            final(out)@ == old(out)@ + screenshot(old(self)@).1,
            device_wf(final(self)@),
    {
        let ghost out0 = out@;
        self.flush_pending_shifts(out);
        let keys: [u16; 4] = [COMMAND_KEYCODE, CONTROL_KEYCODE, LEFT_SHIFT_KEYCODE, NUMBER_4_KEYCODE];
        proof {
            assert(keys@ =~= screenshot_keys());
        }
        self.press_chord(&keys, out);
        proof {
            let a1 = flush_pending(old(self)@).1;
            let a2 = chord(flush_pending(old(self)@).0.pressed, screenshot_keys()).1;
            assert(out@ =~= out0 + (a1 + a2));
        }
    }

    /// Handles a key press or release from the server; returns the key
    /// events to post.
    pub fn keyboard(&mut self, scancode: u16, state: KeyState) -> (res: Vec<DeviceAction>)
        requires
            old(self).wf(),
        ensures
            final(self)@ == spec_keyboard(old(self)@, scancode, state).0,
            res@ == spec_keyboard(old(self)@, scancode, state).1,
            final(self).wf(),
    {
        let mut out: Vec<DeviceAction> = Vec::new();
        let key = match scancode_to_key(scancode) {
            Some(k) => k,
            None => return out,
        };
        let keycode: u16 = match key {
            MappedKey::Raw(k) => k,
            MappedKey::CapsLock => {
                if state_convert(state) {
                    self.caps_lock = !self.caps_lock;
                }
                return out;
            },
            MappedKey::PrintScreen => {
                if state_convert(state) {
                    self.screenshot(&mut out);
                    proof {
                        assert(out@ =~= Seq::<DeviceAction>::empty() + screenshot(old(self)@).1);
                    }
                }
                return out;
            },
        };
        if is_shift_keycode(keycode) {
            match state {
                KeyState::DOWN => {
                    proof {
                        lemma_with_key(self@.pending_shifts, keycode);
                        let p = with_key(self@.pending_shifts, keycode);
                        assert forall|i: int| 0 <= i < p.len() implies spec_is_shift_keycode(
                            #[trigger] p[i],
                        ) by {
                            assert(p.contains(p[i]));
                            if p[i] != keycode {
                                assert(self@.pending_shifts.contains(p[i]));
                                let j = choose|j: int|
                                    0 <= j < self@.pending_shifts.len()
                                        && self@.pending_shifts[j] == p[i];
                            }
                        }
                    }
                    self.pending_shifts.insert(keycode);
                    return out;
                },
                KeyState::UP => {
                    proof {
                        lemma_without_key(self@.pending_shifts, keycode);
                        let p = without_key(self@.pending_shifts, keycode);
                        assert forall|i: int| 0 <= i < p.len() implies spec_is_shift_keycode(
                            #[trigger] p[i],
                        ) by {
                            assert(p.contains(p[i]));
                            let j = choose|j: int|
                                0 <= j < self@.pending_shifts.len()
                                    && self@.pending_shifts[j] == p[i];
                        }
                    }
                    if self.pending_shifts.remove(keycode) {
                        self.switch_input_source(&mut out);
                        proof {
                            assert(out@ =~= Seq::<DeviceAction>::empty() + out@);
                        }
                        return out;
                    }
                },
            }
        }
        let down = state_convert(state);
        if down {
            self.flush_pending_shifts(&mut out);
            proof {
                assert forall|i: int| 0 <= i < self@.pending_shifts.len() implies spec_is_shift_keycode(
                    #[trigger] self@.pending_shifts[i],
                ) by {}
            }
            let ghost a1 = out@;
            self.maybe_press_caps_shift(keycode, &mut out);
            proof {
                lemma_with_key(self@.pressed, keycode);
            }
            self.pressed_keys.insert(keycode);
            self.raw_key(keycode, true, false, &mut out);
            proof {
                assert(a1 =~= Seq::<DeviceAction>::empty() + flush_pending(old(self)@).1);
            }
        } else {
            proof {
                lemma_without_key(self@.pressed, keycode);
            }
            self.pressed_keys.remove(keycode);
            self.raw_key(keycode, false, false, &mut out);
            self.maybe_release_caps_shift(keycode, &mut out);
        }
        out
    }

    /// Handles a key repeat from the server; returns the key events to post.
    pub fn repeat_keyboard(&mut self, scancode: u16) -> (res: Vec<DeviceAction>)
        requires
            old(self).wf(),
        ensures
            final(self)@ == spec_repeat_keyboard(old(self)@, scancode).0,
            res@ == spec_repeat_keyboard(old(self)@, scancode).1,
            final(self).wf(),
    {
        let mut out: Vec<DeviceAction> = Vec::new();
        let keycode: u16 = match scancode_to_key(scancode) {
            Some(MappedKey::Raw(k)) => k,
            _ => return out,
        };
        if is_shift_keycode(keycode) || is_modifier_keycode(keycode) {
            return out;
        }
        self.flush_pending_shifts(&mut out);
        proof {
            assert forall|i: int| 0 <= i < self@.pending_shifts.len() implies spec_is_shift_keycode(
                #[trigger] self@.pending_shifts[i],
            ) by {}
        }
        let ghost a1 = out@;
        self.maybe_press_caps_shift(keycode, &mut out);
        let ghost a2 = out@;
        self.raw_key(keycode, true, true, &mut out);
        self.raw_key(keycode, false, false, &mut out);
        let ghost a3 = out@;
        self.maybe_release_caps_shift(keycode, &mut out);
        proof {
            let v1 = flush_pending(old(self)@).0;
            let v2 = press_caps_shift(v1, keycode).0;
            let tap = seq![
                key_event(v2.pressed, keycode, true, true),
                key_event(v2.pressed, keycode, false, false),
            ];
            assert(a3 =~= a2 + tap);
            assert(a1 =~= Seq::<DeviceAction>::empty() + flush_pending(old(self)@).1);
        }
        out
    }

    /// Releases every held key as the cursor leaves this screen; returns
    /// the key events to post.
    pub fn leave_screen(&mut self) -> (res: Vec<DeviceAction>)
        requires
            old(self).wf(),
        ensures
            final(self)@ == spec_leave_screen(old(self)@).0,
            res@ == spec_leave_screen(old(self)@).1,
            final(self).wf(),
    {
        self.pending_shifts.clear();
        self.caps_shifted_keys.clear();
        let pressed = self.pressed_keys.drain();
        let mut out: Vec<DeviceAction> = Vec::new();
        let n: usize = pressed.len();
        let mut i: usize = 0;
        while i < n
            invariant
                n == pressed@.len(),
                pressed@ == old(self)@.pressed,
                self@ == spec_leave_screen(old(self)@).0,
                i <= n,
                out@ == pressed@.subrange(0, i as int).map_values(
                    |k: u16| key_event(Seq::empty(), k, false, false),
                ),
            decreases n - i,
        {
            let k: u16 = pressed[i];
            let ghost before = out@;
            self.raw_key(k, false, false, &mut out);
            proof {
                assert(self@.pressed =~= Seq::<u16>::empty());
                let f = |k: u16| key_event(Seq::empty(), k, false, false);
                assert(f(k) == key_event(self@.pressed, k, false, false));
                assert(out@ == before.push(f(k)));
                assert(pressed@.subrange(0, i + 1).map_values(f) =~= pressed@.subrange(
                    0,
                    i as int,
                ).map_values(f).push(f(k)));
            }
            i = i + 1;
        }
        proof {
            assert(pressed@.subrange(0, n as int) =~= pressed@);
        }
        out
    }

    /// Emits `count` scroll notches with a pause between each two.
    fn scroll_notches(count: u32, notch: DeviceAction, out: &mut Vec<DeviceAction>)
        ensures
            final(out)@ == old(out)@ + notches(count as nat, notch),
    {
        let mut index: u32 = 0;
        proof {
            assert(old(out)@ + notches(0, notch) =~= old(out)@);
        }
        while index < count
            invariant
                index <= count,
                out@ == old(out)@ + notches(index as nat, notch),
            decreases count - index,
        {
            if index > 0 {
                out.push(DeviceAction::Pause);
            }
            out.push(notch);
            proof {
                if index == 0 {
                    assert(notches(1, notch) == seq![notch]);
                    assert(out@ =~= old(out)@ + notches(1, notch));
                } else {
                    assert(notches((index + 1) as nat, notch) == notches(index as nat, notch) + seq![
                        DeviceAction::Pause,
                        notch,
                    ]);
                    assert(out@ =~= old(out)@ + notches((index + 1) as nat, notch));
                }
            }
            index = index + 1;
        }
    }

    /// Turns the wheel total into whole notches and what remains.
    fn split_scroll(total: i32) -> (res: (i32, i32))
        requires
            -SCROLL_UNIT - 32768 < total < SCROLL_UNIT + 32768,
        ensures
            res.0 == trunc_div(total as int, SCROLL_UNIT as int),
            res.1 == trunc_rem(total as int, SCROLL_UNIT as int),
            -SCROLL_UNIT < res.1 < SCROLL_UNIT,
    {
        if total >= 0 {
            let q: i32 = total / SCROLL_UNIT;
            let r: i32 = total % SCROLL_UNIT;
            proof {
                assert(total as int == SCROLL_UNIT * q + r) by (nonlinear_arith)
                    requires
                        q == total / 120,
                        r == total % 120,
                        total >= 0,
                ;
            }
            (q, r)
        } else {
            let m: i32 = -total;
            let q: i32 = m / SCROLL_UNIT;
            let r: i32 = m % SCROLL_UNIT;
            proof {
                assert(m as int == SCROLL_UNIT * q + r) by (nonlinear_arith)
                    requires
                        q == m / 120,
                        r == m % 120,
                        m >= 0,
                ;
            }
            (-q, -r)
        }
    }

    /// Handles mouse wheel motion; returns the scroll events to post.
    pub fn scroll(&mut self, horizon: i16, vertical: i16) -> (res: Vec<DeviceAction>)
        requires
            old(self).wf(),
        ensures
            final(self)@ == spec_scroll(old(self)@, horizon, vertical).0,
            res@ == spec_scroll(old(self)@, horizon, vertical).1,
            final(self).wf(),
    {
        let th: i32 = self.scroll_horizon_remainder + horizon as i32;
        let tv: i32 = self.scroll_vertical_remainder + vertical as i32;
        let (horizon_steps, horizon_rest) = Self::split_scroll(th);
        let (vertical_steps, vertical_rest) = Self::split_scroll(tv);
        self.scroll_horizon_remainder = horizon_rest;
        self.scroll_vertical_remainder = vertical_rest;
        let mut out: Vec<DeviceAction> = Vec::new();
        self.axis_scroll(horizon_steps, false, &mut out);
        self.axis_scroll(vertical_steps, true, &mut out);
        proof {
            assert(Seq::<DeviceAction>::empty() + axis_notches(horizon_steps as int, false)
                =~= axis_notches(horizon_steps as int, false));
        }
        out
    }

    /// Emits the notches of `steps` on one axis.
    fn axis_scroll(&self, steps: i32, vertical: bool, out: &mut Vec<DeviceAction>)
        requires
            -400 < steps < 400,
        ensures
            final(out)@ == old(out)@ + axis_notches(steps as int, vertical),
    {
        let direction: i32 = if steps > 0 {
            1
        } else if steps < 0 {
            -1
        } else {
            0
        };
        let amount: i32 = direction * SCROLL_STEPS_PER_NOTCH;
        let count: u32 = if steps < 0 {
            (-steps) as u32
        } else {
            steps as u32
        };
        let notch = if vertical {
            DeviceAction::Scroll { vertical: amount, horizontal: 0 }
        } else {
            DeviceAction::Scroll { vertical: 0, horizontal: amount }
        };
        Self::scroll_notches(count, notch, out);
    }

    /// Moves the cursor; returns the move event to post.
    pub fn move_abs(&mut self, x: i32, y: i32) -> (res: Vec<DeviceAction>)
        ensures
            final(self)@ == spec_move_abs(old(self)@, x, y).0,
            res@ == spec_move_abs(old(self)@, x, y).1,
            old(self).wf() ==> final(self).wf(),
    {
        self.mouse_x = x;
        self.mouse_y = y;
        let event = self.mouse_move_type();
        let mut out: Vec<DeviceAction> = Vec::new();
        out.push(DeviceAction::Mouse { event, x, y, button: MouseButton::Left });
        proof {
            assert(out@ =~= spec_move_abs(old(self)@, x, y).1);
        }
        out
    }

    /// The kind of a cursor move now: a drag while a button is held.
    fn mouse_move_type(&self) -> (res: MouseEventType)
        ensures
            res == move_type(self@),
    {
        if self.mouse_buttons.left {
            MouseEventType::LeftMouseDragged
        } else if self.mouse_buttons.right {
            MouseEventType::RightMouseDragged
        } else if self.mouse_buttons.center {
            MouseEventType::OtherMouseDragged
        } else {
            MouseEventType::MouseMoved
        }
    }

    /// Records a platform button as held or not.
    fn set_button_state(&mut self, button: MouseButton, down: bool)
        ensures
            final(self)@ == set_button(old(self)@, button, down),
    {
        match button {
            MouseButton::Left => self.mouse_buttons.left = down,
            MouseButton::Right => self.mouse_buttons.right = down,
            MouseButton::Center => self.mouse_buttons.center = down,
        }
    }

    /// Presses or releases a mouse button; returns the event to post.
    pub fn button(&mut self, button: ButtonType, state: KeyState) -> (res: Vec<DeviceAction>)
        ensures
            final(self)@ == spec_button(old(self)@, button, state).0,
            res@ == spec_button(old(self)@, button, state).1,
            old(self).wf() ==> final(self).wf(),
    {
        let (b, down_type, up_type) = button_convert(button);
        let event_type = match state {
            KeyState::DOWN => {
                self.set_button_state(b, true);
                down_type
            },
            KeyState::UP => {
                self.set_button_state(b, false);
                up_type
            },
        };
        let mut out: Vec<DeviceAction> = Vec::new();
        out.push(DeviceAction::Mouse { event: event_type, x: self.mouse_x, y: self.mouse_y, button: b });
        proof {
            assert(out@ =~= spec_button(old(self)@, button, state).1);
        }
        out
    }
}


/// Leaving the screen releases each held key exactly once, with no
/// modifier flags, and leaves nothing held, pending or shifted.
pub proof fn lemma_leave_screen_releases_all(v: DeviceView)
    requires
        device_wf(v),
    ensures
        spec_leave_screen(v).0.pressed.len() == 0,
        spec_leave_screen(v).0.pending_shifts.len() == 0,
        spec_leave_screen(v).0.caps_shifted.len() == 0,
        device_wf(spec_leave_screen(v).0),
        spec_leave_screen(v).1.len() == v.pressed.len(),
        spec_leave_screen(v).1.no_duplicates(),
        forall|k: u16|
            v.pressed.contains(k) <==> spec_leave_screen(v).1.contains(
                key_event(Seq::empty(), k, false, false),
            ),
{
    let acts = spec_leave_screen(v).1;
    let f = |k: u16| key_event(Seq::empty(), k, false, false);
    assert(acts == v.pressed.map_values(f));
    assert forall|i: int, j: int| 0 <= i < acts.len() && 0 <= j < acts.len() && i != j implies acts[i]
        != acts[j] by {
        assert(acts[i] == f(v.pressed[i]));
        assert(acts[j] == f(v.pressed[j]));
    }
    assert forall|k: u16| v.pressed.contains(k) <==> acts.contains(f(k)) by {
        if v.pressed.contains(k) {
            let i = choose|i: int| 0 <= i < v.pressed.len() && v.pressed[i] == k;
            assert(acts[i] == f(k));
        }
        if acts.contains(f(k)) {
            let i = choose|i: int| 0 <= i < acts.len() && acts[i] == f(k);
            assert(acts[i] == f(v.pressed[i]));
            assert(v.pressed[i] == k);
        }
    }
}

/// Caps Lock released does nothing; pressed twice, it is back where it
/// was, and it never posts an event.
pub proof fn lemma_caps_lock_toggles(v: DeviceView)
    ensures
        spec_keyboard(v, 58, KeyState::UP) == (v, Seq::<DeviceAction>::empty()),
        spec_keyboard(v, 58, KeyState::DOWN).0.caps_lock == !v.caps_lock,
        spec_keyboard(v, 58, KeyState::DOWN).1.len() == 0,
        spec_keyboard(spec_keyboard(v, 58, KeyState::DOWN).0, 58, KeyState::DOWN).0 == v,
{
}

/// A plain key pressed and then released, with no Shift pending and no
/// Caps Lock shift involved, is passed through: one press event with the
/// key held, one release event, and the state is as before.
pub proof fn lemma_key_press_release(v: DeviceView, scancode: u16, k: u16)
    requires
        device_wf(v),
        spec_scancode_to_key(scancode) == Some(MappedKey::Raw(k)),
        !spec_is_shift_keycode(k),
        v.pending_shifts.len() == 0,
        !v.caps_lock || !spec_is_letter_keycode(k),
        !v.pressed.contains(k),
        !v.caps_shifted.contains(k),
    ensures
        spec_keyboard(v, scancode, KeyState::DOWN).1 == seq![
            key_event(v.pressed.push(k), k, true, false),
        ],
        spec_keyboard(spec_keyboard(v, scancode, KeyState::DOWN).0, scancode, KeyState::UP) == (
            v,
            seq![key_event(v.pressed, k, false, false)],
        ),
{
    let (v1, a1) = flush_pending(v);
    assert(v.pending_shifts =~= Seq::<u16>::empty());
    assert(v1 == v);
    assert(a1 =~= Seq::<DeviceAction>::empty());
    let (v2, a2) = press_caps_shift(v1, k);
    assert(v2 == v);
    let p = with_key(v.pressed, k);
    assert(p == v.pressed.push(k));
    let d = DeviceView { pressed: p, ..v };
    assert(spec_keyboard(v, scancode, KeyState::DOWN) == (d, a1 + a2 + seq![
        key_event(p, k, true, false),
    ]));
    assert(a1 + a2 + seq![key_event(p, k, true, false)] =~= seq![key_event(p, k, true, false)]);
    lemma_without_key(v.pressed, k);
    assert(p.drop_last() =~= v.pressed);
    assert(p.last() == k);
    assert(without_key(p, k) == without_key(v.pressed, k));
    assert(without_key(p, k) == v.pressed);
    let u = DeviceView { pressed: v.pressed, ..d };
    assert(u == v);
    assert(!u.caps_shifted.contains(k));
    assert(seq![key_event(v.pressed, k, false, false)] + Seq::<DeviceAction>::empty() =~= seq![
        key_event(v.pressed, k, false, false),
    ]);
}

/// The scancode table against the macOS virtual key codes (the `kVK_`
/// constants of the Carbon headers), key by key: for instance Backspace
/// (scancode 14) is `kVK_Delete` (51) and Forward Delete (339) is
/// `kVK_ForwardDelete` (117); Caps Lock and Print Screen are emulated. No
/// other scancode is mapped.
pub proof fn lemma_scancode_table()
    ensures
        spec_scancode_to_key(1) == Some(MappedKey::Raw(53)),  // Escape
        spec_scancode_to_key(2) == Some(MappedKey::Raw(18)),  // 1
        spec_scancode_to_key(3) == Some(MappedKey::Raw(19)),  // 2
        spec_scancode_to_key(4) == Some(MappedKey::Raw(20)),  // 3
        spec_scancode_to_key(5) == Some(MappedKey::Raw(21)),  // 4
        spec_scancode_to_key(6) == Some(MappedKey::Raw(23)),  // 5
        spec_scancode_to_key(7) == Some(MappedKey::Raw(22)),  // 6
        spec_scancode_to_key(8) == Some(MappedKey::Raw(26)),  // 7
        spec_scancode_to_key(9) == Some(MappedKey::Raw(28)),  // 8
        spec_scancode_to_key(10) == Some(MappedKey::Raw(25)),  // 9
        spec_scancode_to_key(11) == Some(MappedKey::Raw(29)),  // 0
        spec_scancode_to_key(12) == Some(MappedKey::Raw(27)),  // -
        spec_scancode_to_key(13) == Some(MappedKey::Raw(24)),  // =
        spec_scancode_to_key(14) == Some(MappedKey::Raw(51)),  // Backspace
        spec_scancode_to_key(15) == Some(MappedKey::Raw(48)),  // Tab
        spec_scancode_to_key(16) == Some(MappedKey::Raw(12)),  // Q
        spec_scancode_to_key(17) == Some(MappedKey::Raw(13)),  // W
        spec_scancode_to_key(18) == Some(MappedKey::Raw(14)),  // E
        spec_scancode_to_key(19) == Some(MappedKey::Raw(15)),  // R
        spec_scancode_to_key(20) == Some(MappedKey::Raw(17)),  // T
        spec_scancode_to_key(21) == Some(MappedKey::Raw(16)),  // Y
        spec_scancode_to_key(22) == Some(MappedKey::Raw(32)),  // U
        spec_scancode_to_key(23) == Some(MappedKey::Raw(34)),  // I
        spec_scancode_to_key(24) == Some(MappedKey::Raw(31)),  // O
        spec_scancode_to_key(25) == Some(MappedKey::Raw(35)),  // P
        spec_scancode_to_key(26) == Some(MappedKey::Raw(33)),  // [
        spec_scancode_to_key(27) == Some(MappedKey::Raw(30)),  // ]
        spec_scancode_to_key(28) == Some(MappedKey::Raw(36)),  // Return
        spec_scancode_to_key(29) == Some(MappedKey::Raw(55)),  // Left Control -> Command
        spec_scancode_to_key(30) == Some(MappedKey::Raw(0)),  // A
        spec_scancode_to_key(31) == Some(MappedKey::Raw(1)),  // S
        spec_scancode_to_key(32) == Some(MappedKey::Raw(2)),  // D
        spec_scancode_to_key(33) == Some(MappedKey::Raw(3)),  // F
        spec_scancode_to_key(34) == Some(MappedKey::Raw(5)),  // G
        spec_scancode_to_key(35) == Some(MappedKey::Raw(4)),  // H
        spec_scancode_to_key(36) == Some(MappedKey::Raw(38)),  // J
        spec_scancode_to_key(37) == Some(MappedKey::Raw(40)),  // K
        spec_scancode_to_key(38) == Some(MappedKey::Raw(37)),  // L
        spec_scancode_to_key(39) == Some(MappedKey::Raw(41)),  // ;
        spec_scancode_to_key(40) == Some(MappedKey::Raw(39)),  // '
        spec_scancode_to_key(41) == Some(MappedKey::Raw(50)),  // `
        spec_scancode_to_key(42) == Some(MappedKey::Raw(56)),  // Shift
        spec_scancode_to_key(43) == Some(MappedKey::Raw(42)),  // Backslash
        spec_scancode_to_key(44) == Some(MappedKey::Raw(6)),  // Z
        spec_scancode_to_key(45) == Some(MappedKey::Raw(7)),  // X
        spec_scancode_to_key(46) == Some(MappedKey::Raw(8)),  // C
        spec_scancode_to_key(47) == Some(MappedKey::Raw(9)),  // V
        spec_scancode_to_key(48) == Some(MappedKey::Raw(11)),  // B
        spec_scancode_to_key(49) == Some(MappedKey::Raw(45)),  // N
        spec_scancode_to_key(50) == Some(MappedKey::Raw(46)),  // M
        spec_scancode_to_key(51) == Some(MappedKey::Raw(43)),  // ,
        spec_scancode_to_key(52) == Some(MappedKey::Raw(47)),  // .
        spec_scancode_to_key(53) == Some(MappedKey::Raw(44)),  // /
        spec_scancode_to_key(54) == Some(MappedKey::Raw(60)),  // Right Shift
        spec_scancode_to_key(55) == Some(MappedKey::Raw(67)),  // Keypad *
        spec_scancode_to_key(56) == Some(MappedKey::Raw(58)),  // Left Alt / Option
        spec_scancode_to_key(57) == Some(MappedKey::Raw(49)),  // Space
        spec_scancode_to_key(58) == Some(MappedKey::CapsLock),
        spec_scancode_to_key(59) == Some(MappedKey::Raw(122)),  // F1
        spec_scancode_to_key(60) == Some(MappedKey::Raw(120)),  // F2
        spec_scancode_to_key(61) == Some(MappedKey::Raw(99)),  // F3
        spec_scancode_to_key(62) == Some(MappedKey::Raw(118)),  // F4
        spec_scancode_to_key(63) == Some(MappedKey::Raw(96)),  // F5
        spec_scancode_to_key(64) == Some(MappedKey::Raw(97)),  // F6
        spec_scancode_to_key(65) == Some(MappedKey::Raw(98)),  // F7
        spec_scancode_to_key(66) == Some(MappedKey::Raw(100)),  // F8
        spec_scancode_to_key(67) == Some(MappedKey::Raw(101)),  // F9
        spec_scancode_to_key(68) == Some(MappedKey::Raw(109)),  // F10
        spec_scancode_to_key(69) == Some(MappedKey::Raw(71)),  // Num Lock -> Keypad Clear
        spec_scancode_to_key(70) == Some(MappedKey::Raw(113)),  // Scroll Lock -> F15
        spec_scancode_to_key(71) == Some(MappedKey::Raw(89)),  // Keypad 7
        spec_scancode_to_key(72) == Some(MappedKey::Raw(91)),  // Keypad 8
        spec_scancode_to_key(73) == Some(MappedKey::Raw(92)),  // Keypad 9
        spec_scancode_to_key(74) == Some(MappedKey::Raw(78)),  // Keypad -
        spec_scancode_to_key(75) == Some(MappedKey::Raw(86)),  // Keypad 4
        spec_scancode_to_key(76) == Some(MappedKey::Raw(87)),  // Keypad 5
        spec_scancode_to_key(77) == Some(MappedKey::Raw(88)),  // Keypad 6
        spec_scancode_to_key(78) == Some(MappedKey::Raw(69)),  // Keypad +
        spec_scancode_to_key(79) == Some(MappedKey::Raw(83)),  // Keypad 1
        spec_scancode_to_key(80) == Some(MappedKey::Raw(84)),  // Keypad 2
        spec_scancode_to_key(81) == Some(MappedKey::Raw(85)),  // Keypad 3
        spec_scancode_to_key(82) == Some(MappedKey::Raw(82)),  // Keypad 0
        spec_scancode_to_key(83) == Some(MappedKey::Raw(65)),  // Keypad .
        spec_scancode_to_key(87) == Some(MappedKey::Raw(103)),  // F11
        spec_scancode_to_key(88) == Some(MappedKey::Raw(111)),  // F12
        spec_scancode_to_key(284) == Some(MappedKey::Raw(76)),  // Keypad Enter
        spec_scancode_to_key(285) == Some(MappedKey::Raw(54)),  // Right Command
        spec_scancode_to_key(309) == Some(MappedKey::Raw(75)),  // Keypad /
        spec_scancode_to_key(311) == Some(MappedKey::PrintScreen),
        spec_scancode_to_key(312) == Some(MappedKey::Raw(61)),  // Right Option
        spec_scancode_to_key(327) == Some(MappedKey::Raw(115)),  // Home
        spec_scancode_to_key(328) == Some(MappedKey::Raw(126)),  // Up
        spec_scancode_to_key(329) == Some(MappedKey::Raw(116)),  // Page Up
        spec_scancode_to_key(331) == Some(MappedKey::Raw(123)),  // Left
        spec_scancode_to_key(333) == Some(MappedKey::Raw(124)),  // Right
        spec_scancode_to_key(335) == Some(MappedKey::Raw(119)),  // End
        spec_scancode_to_key(336) == Some(MappedKey::Raw(125)),  // Down
        spec_scancode_to_key(337) == Some(MappedKey::Raw(121)),  // Page Down
        spec_scancode_to_key(338) == Some(MappedKey::Raw(114)),  // Insert / Help
        spec_scancode_to_key(339) == Some(MappedKey::Raw(117)),  // Forward Delete
        spec_scancode_to_key(347) == Some(MappedKey::Raw(55)),  // Command
        spec_scancode_to_key(348) == Some(MappedKey::Raw(54)),  // Right Command
        spec_scancode_to_key(349) == Some(MappedKey::Raw(110)),  // Menu key
        forall|s: u16|
            (#[trigger] spec_scancode_to_key(s)) is Some ==> (1 <= s <= 83 || s == 87 || s == 88
                || s == 284 || s == 285 || s == 309 || s == 311 || s == 312 || s == 327 || s == 328
                || s == 329 || s == 331 || s == 333 || s == 335 || s == 336 || s == 337 || s == 338
                || s == 339 || s == 347 || s == 348 || s == 349),
{
}

/// The modifier flags of a key event say which modifiers are held: Shift
/// (56) or right Shift (60), Command (55) or right Command (54), Control
/// (59), Option (58) or right Option (61).
pub proof fn lemma_key_flags(pressed: Seq<u16>)
    ensures
        flags_of(pressed).shift <==> (pressed.contains(56u16) || pressed.contains(60u16)),
        flags_of(pressed).command <==> (pressed.contains(55u16) || pressed.contains(54u16)),
        flags_of(pressed).control <==> pressed.contains(59u16),
        flags_of(pressed).alternate <==> (pressed.contains(58u16) || pressed.contains(61u16)),
{
}

/// A plain key pressed with no Shift pending and no Caps Lock shift
/// involved posts one key-down event for its key code, whose flags say
/// which modifiers are held once it is down: Option+Left, for instance,
/// carries the alternate flag.
pub proof fn lemma_key_press_flags(v: DeviceView, scancode: u16, k: u16)
    requires
        device_wf(v),
        spec_scancode_to_key(scancode) == Some(MappedKey::Raw(k)),
        !spec_is_shift_keycode(k),
        v.pending_shifts.len() == 0,
        !v.caps_lock || !spec_is_letter_keycode(k),
        !v.pressed.contains(k),
        !v.caps_shifted.contains(k),
    ensures
        ({
            let held = v.pressed.push(k);
            spec_keyboard(v, scancode, KeyState::DOWN).1 == seq![
                DeviceAction::Key {
                    keycode: k,
                    down: true,
                    autorepeat: false,
                    flags: KeyFlags {
                        shift: held.contains(56u16) || held.contains(60u16),
                        command: held.contains(55u16) || held.contains(54u16),
                        control: held.contains(59u16),
                        alternate: held.contains(58u16) || held.contains(61u16),
                    },
                },
            ]
        }),
{
    lemma_key_press_release(v, scancode, k);
    lemma_key_flags(v.pressed.push(k));
}

/// Scrolling loses no wheel motion: what was pending plus the new motion
/// equals the notches taken, `SCROLL_UNIT` each, plus what remains, and
/// what remains is less than a notch.
pub proof fn lemma_scroll_conserves(v: DeviceView, horizon: i16, vertical: i16)
    requires
        device_wf(v),
    ensures
        SCROLL_UNIT * trunc_div(v.scroll_horizon_remainder + horizon, SCROLL_UNIT as int)
            + spec_scroll(v, horizon, vertical).0.scroll_horizon_remainder
            == v.scroll_horizon_remainder + horizon,
        SCROLL_UNIT * trunc_div(v.scroll_vertical_remainder + vertical, SCROLL_UNIT as int)
            + spec_scroll(v, horizon, vertical).0.scroll_vertical_remainder
            == v.scroll_vertical_remainder + vertical,
        device_wf(spec_scroll(v, horizon, vertical).0),
{
    let th = v.scroll_horizon_remainder + horizon;
    let tv = v.scroll_vertical_remainder + vertical;
    lemma_trunc_rem_bound(th);
    lemma_trunc_rem_bound(tv);
}

proof fn lemma_trunc_rem_bound(a: int)
    ensures
        -SCROLL_UNIT < trunc_rem(a, SCROLL_UNIT as int) < SCROLL_UNIT,
        a >= 0 ==> trunc_rem(a, SCROLL_UNIT as int) >= 0,
        a < 0 ==> trunc_rem(a, SCROLL_UNIT as int) <= 0,
{
    if a >= 0 {
        assert(a == 120 * (a / 120) + a % 120) by (nonlinear_arith);
    } else {
        let m = -a;
        assert(m == 120 * (m / 120) + m % 120) by (nonlinear_arith);
    }
}

} // verus!
