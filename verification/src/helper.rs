//! Screen geometry reported to the server, and the mapping from the
//! server's scancodes to Linux input key codes.
use vstd::prelude::*;

verus! {

/// Top-left corner of this screen.
pub struct EdgeCoordinate(pub i16, pub i16);

/// Cursor position reported to the server.
pub struct MousePosition(pub i16, pub i16);

/// Scancodes above this value are not mapped one to one.
pub const KEYCODE_LIMIT: u32 = 256;

/// The screen's top-left corner: always the origin.
pub fn get_edge_coordinate() -> (res: EdgeCoordinate)
    ensures
        res.0 == 0 && res.1 == 0,
{
    EdgeCoordinate(0i16, 0i16)
}

/// The warp zone size reported to the server: always zero.
pub fn get_warp_zone_size() -> (res: u16)
    ensures
        res == 0,
{
    0
}

/// The cursor position reported to the server: always the origin.
pub fn get_mouse_position() -> (res: MousePosition)
    ensures
        res.0 == 0 && res.1 == 0,
{
    MousePosition(0i16, 0i16)
}

/// The Linux key code for a scancode sent by the server. The navigation
/// keys and the Windows key arrive with extended scancodes and are mapped
/// by hand; any other scancode above `KEYCODE_LIMIT` becomes 338, and the
/// rest are taken as they are.
pub open spec fn spec_scancode_to_keycode(scancode: u16) -> u32 {
    if scancode == 347 {
        125  // KEY_LEFTMETA
    } else if scancode == 328 {
        103  // KEY_UP
    } else if scancode == 331 {
        105  // KEY_LEFT
    } else if scancode == 333 {
        106  // KEY_RIGHT
    } else if scancode == 336 {
        108  // KEY_DOWN
    } else if scancode == 338 {
        110  // KEY_INSERT
    } else if scancode == 339 {
        111  // KEY_DELETE
    } else if scancode == 327 {
        102  // KEY_HOME
    } else if scancode == 329 {
        104  // KEY_PAGEUP
    } else if scancode == 337 {
        109  // KEY_PAGEDOWN
    } else if scancode == 335 {
        107  // KEY_END
    } else if scancode > KEYCODE_LIMIT {
        338
    } else {
        scancode as u32
    }
}

/// Maps a server scancode to the number of the Linux key code
/// (`evdev_rs::enums::EV_KEY`) that stands for it.
pub fn scancode_to_keycode(scancode: u16) -> (code: u32)
    ensures
        code == spec_scancode_to_keycode(scancode),
{
    match scancode {
        347 => 125,
        328 => 103,
        331 => 105,
        333 => 106,
        336 => 108,
        338 => 110,
        339 => 111,
        327 => 102,
        329 => 104,
        337 => 109,
        335 => 107,
        _ => {
            if scancode > 256 {
                338
            } else {
                scancode as u32
            }
        },
    }
}

} // verus!
