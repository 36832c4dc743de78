//! The desktop window's logic: the framebuffer that server updates are drawn
//! into, and how keys and mouse buttons become RDP input.
use vstd::prelude::*;

use crate::connection::DesktopSize;

verus! {

// ---------------------------------------------------------------------------
// Keyboard
// ---------------------------------------------------------------------------

/// The physical keys that have an RDP scancode (named as on a US layout).
#[derive(Debug, Clone, Copy, PartialEq, Eq, Structural)]
pub enum KeyCode {
    // Letters (A-Z in QWERTY layout)
    KeyA,
    KeyB,
    KeyC,
    KeyD,
    KeyE,
    KeyF,
    KeyG,
    KeyH,
    KeyI,
    KeyJ,
    KeyK,
    KeyL,
    KeyM,
    KeyN,
    KeyO,
    KeyP,
    KeyQ,
    KeyR,
    KeyS,
    KeyT,
    KeyU,
    KeyV,
    KeyW,
    KeyX,
    KeyY,
    KeyZ,
    // Numbers (0-9)
    Digit1,
    Digit2,
    Digit3,
    Digit4,
    Digit5,
    Digit6,
    Digit7,
    Digit8,
    Digit9,
    Digit0,
    // Special keys
    Enter,
    Escape,
    Backspace,
    Tab,
    Space,
    Minus,
    Equal,
    BracketLeft,
    BracketRight,
    Backslash,
    Semicolon,
    Quote,
    Backquote,
    Comma,
    Period,
    Slash,
    CapsLock,
    // Function keys
    F1,
    F2,
    F3,
    F4,
    F5,
    F6,
    F7,
    F8,
    F9,
    F10,
    F11,
    F12,
    // Modifiers
    ShiftLeft,
    ShiftRight,
    ControlLeft,
    ControlRight,
    AltLeft,
    AltRight,
    SuperLeft,
    SuperRight,
    // Arrow keys (extended)
    ArrowUp,
    ArrowDown,
    ArrowLeft,
    ArrowRight,
    // Navigation keys (extended)
    Insert,
    Delete,
    Home,
    End,
    PageUp,
    PageDown,
    // Numpad
    NumLock,
    Numpad0,
    Numpad1,
    Numpad2,
    Numpad3,
    Numpad4,
    Numpad5,
    Numpad6,
    Numpad7,
    Numpad8,
    Numpad9,
    NumpadAdd,
    NumpadSubtract,
    NumpadMultiply,
    NumpadDivide,
    NumpadDecimal,
    NumpadEnter,
    /// Any other key
    Other,
}

/// A key as the windowing system reports it.
#[derive(Debug, Clone, Copy, PartialEq, Eq, Structural)]
pub enum PhysicalKey {
    Code(KeyCode),
    Unidentified,
}

/// The scan code set 1 (XT) code of a key; extended keys carry `0xE0` in
/// their high byte.
pub open spec fn key_scancode(code: KeyCode) -> Option<u16> {
    match code {
        // Letters (A-Z in QWERTY layout)
        KeyCode::KeyA => Some(0x1E),
        KeyCode::KeyB => Some(0x30),
        KeyCode::KeyC => Some(0x2E),
        KeyCode::KeyD => Some(0x20),
        KeyCode::KeyE => Some(0x12),
        KeyCode::KeyF => Some(0x21),
        KeyCode::KeyG => Some(0x22),
        KeyCode::KeyH => Some(0x23),
        KeyCode::KeyI => Some(0x17),
        KeyCode::KeyJ => Some(0x24),
        KeyCode::KeyK => Some(0x25),
        KeyCode::KeyL => Some(0x26),
        KeyCode::KeyM => Some(0x32),
        KeyCode::KeyN => Some(0x31),
        KeyCode::KeyO => Some(0x18),
        KeyCode::KeyP => Some(0x19),
        KeyCode::KeyQ => Some(0x10),
        KeyCode::KeyR => Some(0x13),
        KeyCode::KeyS => Some(0x1F),
        KeyCode::KeyT => Some(0x14),
        KeyCode::KeyU => Some(0x16),
        KeyCode::KeyV => Some(0x2F),
        KeyCode::KeyW => Some(0x11),
        KeyCode::KeyX => Some(0x2D),
        KeyCode::KeyY => Some(0x15),
        KeyCode::KeyZ => Some(0x2C),
        // Numbers (0-9)
        KeyCode::Digit1 => Some(0x02),
        KeyCode::Digit2 => Some(0x03),
        KeyCode::Digit3 => Some(0x04),
        KeyCode::Digit4 => Some(0x05),
        KeyCode::Digit5 => Some(0x06),
        KeyCode::Digit6 => Some(0x07),
        KeyCode::Digit7 => Some(0x08),
        KeyCode::Digit8 => Some(0x09),
        KeyCode::Digit9 => Some(0x0A),
        KeyCode::Digit0 => Some(0x0B),
        // Special keys
        KeyCode::Enter => Some(0x1C),
        KeyCode::Escape => Some(0x01),
        KeyCode::Backspace => Some(0x0E),
        KeyCode::Tab => Some(0x0F),
        KeyCode::Space => Some(0x39),
        KeyCode::Minus => Some(0x0C),
        KeyCode::Equal => Some(0x0D),
        KeyCode::BracketLeft => Some(0x1A),
        KeyCode::BracketRight => Some(0x1B),
        KeyCode::Backslash => Some(0x2B),
        KeyCode::Semicolon => Some(0x27),
        KeyCode::Quote => Some(0x28),
        KeyCode::Backquote => Some(0x29),
        KeyCode::Comma => Some(0x33),
        KeyCode::Period => Some(0x34),
        KeyCode::Slash => Some(0x35),
        KeyCode::CapsLock => Some(0x3A),
        // Function keys
        KeyCode::F1 => Some(0x3B),
        KeyCode::F2 => Some(0x3C),
        KeyCode::F3 => Some(0x3D),
        KeyCode::F4 => Some(0x3E),
        KeyCode::F5 => Some(0x3F),
        KeyCode::F6 => Some(0x40),
        KeyCode::F7 => Some(0x41),
        KeyCode::F8 => Some(0x42),
        KeyCode::F9 => Some(0x43),
        KeyCode::F10 => Some(0x44),
        KeyCode::F11 => Some(0x57),
        KeyCode::F12 => Some(0x58),
        // Modifiers
        KeyCode::ShiftLeft => Some(0x2A),
        KeyCode::ShiftRight => Some(0x36),
        KeyCode::ControlLeft => Some(0x1D),
        KeyCode::ControlRight => Some(0xE01D),
        KeyCode::AltLeft => Some(0x38),
        KeyCode::AltRight => Some(0xE038),
        KeyCode::SuperLeft => Some(0xE05B),
        KeyCode::SuperRight => Some(0xE05C),
        // Arrow keys (extended)
        KeyCode::ArrowUp => Some(0xE048),
        KeyCode::ArrowDown => Some(0xE050),
        KeyCode::ArrowLeft => Some(0xE04B),
        KeyCode::ArrowRight => Some(0xE04D),
        // Navigation keys (extended)
        KeyCode::Insert => Some(0xE052),
        KeyCode::Delete => Some(0xE053),
        KeyCode::Home => Some(0xE047),
        KeyCode::End => Some(0xE04F),
        KeyCode::PageUp => Some(0xE049),
        KeyCode::PageDown => Some(0xE051),
        // Numpad
        KeyCode::NumLock => Some(0x45),
        KeyCode::Numpad0 => Some(0x52),
        KeyCode::Numpad1 => Some(0x4F),
        KeyCode::Numpad2 => Some(0x50),
        KeyCode::Numpad3 => Some(0x51),
        KeyCode::Numpad4 => Some(0x4B),
        KeyCode::Numpad5 => Some(0x4C),
        KeyCode::Numpad6 => Some(0x4D),
        KeyCode::Numpad7 => Some(0x47),
        KeyCode::Numpad8 => Some(0x48),
        KeyCode::Numpad9 => Some(0x49),
        KeyCode::NumpadAdd => Some(0x4E),
        KeyCode::NumpadSubtract => Some(0x4A),
        KeyCode::NumpadMultiply => Some(0x37),
        KeyCode::NumpadDivide => Some(0xE035),
        KeyCode::NumpadDecimal => Some(0x53),
        KeyCode::NumpadEnter => Some(0xE01C),
        KeyCode::Other => None,
    }
}

/// Map a key to its Windows RDP scancode (scan code set 1).
pub fn map_key_to_scancode(key: &PhysicalKey) -> (r: Option<u16>)
    ensures
        r == match key {
            PhysicalKey::Code(code) => key_scancode(*code),
            PhysicalKey::Unidentified => None,
        },
{
    match key {
        PhysicalKey::Code(code) => match code {
            // Letters (A-Z in QWERTY layout)
            KeyCode::KeyA => Some(0x1E),
            KeyCode::KeyB => Some(0x30),
            KeyCode::KeyC => Some(0x2E),
            KeyCode::KeyD => Some(0x20),
            KeyCode::KeyE => Some(0x12),
            KeyCode::KeyF => Some(0x21),
            KeyCode::KeyG => Some(0x22),
            KeyCode::KeyH => Some(0x23),
            KeyCode::KeyI => Some(0x17),
            KeyCode::KeyJ => Some(0x24),
            KeyCode::KeyK => Some(0x25),
            KeyCode::KeyL => Some(0x26),
            KeyCode::KeyM => Some(0x32),
            KeyCode::KeyN => Some(0x31),
            KeyCode::KeyO => Some(0x18),
            KeyCode::KeyP => Some(0x19),
            KeyCode::KeyQ => Some(0x10),
            KeyCode::KeyR => Some(0x13),
            KeyCode::KeyS => Some(0x1F),
            KeyCode::KeyT => Some(0x14),
            KeyCode::KeyU => Some(0x16),
            KeyCode::KeyV => Some(0x2F),
            KeyCode::KeyW => Some(0x11),
            KeyCode::KeyX => Some(0x2D),
            KeyCode::KeyY => Some(0x15),
            KeyCode::KeyZ => Some(0x2C),
            // Numbers (0-9)
            KeyCode::Digit1 => Some(0x02),
            KeyCode::Digit2 => Some(0x03),
            KeyCode::Digit3 => Some(0x04),
            KeyCode::Digit4 => Some(0x05),
            KeyCode::Digit5 => Some(0x06),
            KeyCode::Digit6 => Some(0x07),
            KeyCode::Digit7 => Some(0x08),
            KeyCode::Digit8 => Some(0x09),
            KeyCode::Digit9 => Some(0x0A),
            KeyCode::Digit0 => Some(0x0B),
            // Special keys
            KeyCode::Enter => Some(0x1C),
            KeyCode::Escape => Some(0x01),
            KeyCode::Backspace => Some(0x0E),
            KeyCode::Tab => Some(0x0F),
            KeyCode::Space => Some(0x39),
            KeyCode::Minus => Some(0x0C),
            KeyCode::Equal => Some(0x0D),
            KeyCode::BracketLeft => Some(0x1A),
            KeyCode::BracketRight => Some(0x1B),
            KeyCode::Backslash => Some(0x2B),
            KeyCode::Semicolon => Some(0x27),
            KeyCode::Quote => Some(0x28),
            KeyCode::Backquote => Some(0x29),
            KeyCode::Comma => Some(0x33),
            KeyCode::Period => Some(0x34),
            KeyCode::Slash => Some(0x35),
            KeyCode::CapsLock => Some(0x3A),
            // Function keys
            KeyCode::F1 => Some(0x3B),
            KeyCode::F2 => Some(0x3C),
            KeyCode::F3 => Some(0x3D),
            KeyCode::F4 => Some(0x3E),
            KeyCode::F5 => Some(0x3F),
            KeyCode::F6 => Some(0x40),
            KeyCode::F7 => Some(0x41),
            KeyCode::F8 => Some(0x42),
            KeyCode::F9 => Some(0x43),
            KeyCode::F10 => Some(0x44),
            KeyCode::F11 => Some(0x57),
            KeyCode::F12 => Some(0x58),
            // Modifiers
            KeyCode::ShiftLeft => Some(0x2A),
            KeyCode::ShiftRight => Some(0x36),
            KeyCode::ControlLeft => Some(0x1D),
            KeyCode::ControlRight => Some(0xE01D),
            KeyCode::AltLeft => Some(0x38),
            KeyCode::AltRight => Some(0xE038),
            KeyCode::SuperLeft => Some(0xE05B),
            KeyCode::SuperRight => Some(0xE05C),
            // Arrow keys (extended)
            KeyCode::ArrowUp => Some(0xE048),
            KeyCode::ArrowDown => Some(0xE050),
            KeyCode::ArrowLeft => Some(0xE04B),
            KeyCode::ArrowRight => Some(0xE04D),
            // Navigation keys (extended)
            KeyCode::Insert => Some(0xE052),
            KeyCode::Delete => Some(0xE053),
            KeyCode::Home => Some(0xE047),
            KeyCode::End => Some(0xE04F),
            KeyCode::PageUp => Some(0xE049),
            KeyCode::PageDown => Some(0xE051),
            // Numpad
            KeyCode::NumLock => Some(0x45),
            KeyCode::Numpad0 => Some(0x52),
            KeyCode::Numpad1 => Some(0x4F),
            KeyCode::Numpad2 => Some(0x50),
            KeyCode::Numpad3 => Some(0x51),
            KeyCode::Numpad4 => Some(0x4B),
            KeyCode::Numpad5 => Some(0x4C),
            KeyCode::Numpad6 => Some(0x4D),
            KeyCode::Numpad7 => Some(0x47),
            KeyCode::Numpad8 => Some(0x48),
            KeyCode::Numpad9 => Some(0x49),
            KeyCode::NumpadAdd => Some(0x4E),
            KeyCode::NumpadSubtract => Some(0x4A),
            KeyCode::NumpadMultiply => Some(0x37),
            KeyCode::NumpadDivide => Some(0xE035),
            KeyCode::NumpadDecimal => Some(0x53),
            KeyCode::NumpadEnter => Some(0xE01C),
            KeyCode::Other => None,
        },
        PhysicalKey::Unidentified => None,
    }
}

/// `KeyboardFlags::RELEASE` of a fast-path keyboard event.
pub const KEYBOARD_RELEASE: u8 = 0x01;

/// `KeyboardFlags::EXTENDED` of a fast-path keyboard event.
pub const KEYBOARD_EXTENDED: u8 = 0x02;

/// A fast-path keyboard event: its flags and one-byte scancode.
#[derive(Debug, Clone, Copy, PartialEq, Eq, Structural)]
pub struct KeyInput {
    pub flags: u8,
    pub scancode: u8,
}

/// The keyboard event of a scancode: a code above `0xFF` is an extended key,
/// sent as its low byte with the extended flag; a released key has the
/// release flag.
pub open spec fn key_input_of(scancode: u16, released: bool) -> KeyInput {
    let extended = scancode > 0xFF;
    KeyInput {
        flags: ((if released { 1int } else { 0int }) + (if extended { 2int } else { 0int })) as u8,
        scancode: (scancode % 256) as u8,
    }
}

/// The keyboard event for a key being pressed or released; `None` for a key
/// without a scancode.
pub fn keyboard_input(key: &PhysicalKey, released: bool) -> (r: Option<KeyInput>)
    ensures
        r == match map_key_scancode_spec(key) {
            Some(s) => Some(key_input_of(s, released)),
            None => None,
        },
{
    let scancode = match map_key_to_scancode(key) {
        Some(s) => s,
        None => return None,
    };
    let is_extended = scancode > 0xFF;
    let base_scancode: u8 = if is_extended {
        (scancode & 0xFF) as u8
    } else {
        scancode as u8
    };
    assert(scancode & 0xFF == scancode % 256) by (bit_vector);
    let mut flags: u8 = 0;
    if released {
        flags = flags | KEYBOARD_RELEASE;
    }
    if is_extended {
        flags = flags | KEYBOARD_EXTENDED;
    }
    assert(0u8 | 1u8 == 1u8 && 0u8 | 2u8 == 2u8 && 1u8 | 2u8 == 3u8) by (bit_vector);
    Some(KeyInput { flags, scancode: base_scancode })
}

/// The scancode of a key, as `map_key_to_scancode` gives it.
pub open spec fn map_key_scancode_spec(key: &PhysicalKey) -> Option<u16> {
    match key {
        PhysicalKey::Code(code) => key_scancode(*code),
        PhysicalKey::Unidentified => None,
    }
}

/// The key that a scancode of the table belongs to.
spec fn scancode_key(s: u16) -> KeyCode {
    match s {
        0x001E => KeyCode::KeyA,
        0x0030 => KeyCode::KeyB,
        0x002E => KeyCode::KeyC,
        0x0020 => KeyCode::KeyD,
        0x0012 => KeyCode::KeyE,
        0x0021 => KeyCode::KeyF,
        0x0022 => KeyCode::KeyG,
        0x0023 => KeyCode::KeyH,
        0x0017 => KeyCode::KeyI,
        0x0024 => KeyCode::KeyJ,
        0x0025 => KeyCode::KeyK,
        0x0026 => KeyCode::KeyL,
        0x0032 => KeyCode::KeyM,
        0x0031 => KeyCode::KeyN,
        0x0018 => KeyCode::KeyO,
        0x0019 => KeyCode::KeyP,
        0x0010 => KeyCode::KeyQ,
        0x0013 => KeyCode::KeyR,
        0x001F => KeyCode::KeyS,
        0x0014 => KeyCode::KeyT,
        0x0016 => KeyCode::KeyU,
        0x002F => KeyCode::KeyV,
        0x0011 => KeyCode::KeyW,
        0x002D => KeyCode::KeyX,
        0x0015 => KeyCode::KeyY,
        0x002C => KeyCode::KeyZ,
        0x0002 => KeyCode::Digit1,
        0x0003 => KeyCode::Digit2,
        0x0004 => KeyCode::Digit3,
        0x0005 => KeyCode::Digit4,
        0x0006 => KeyCode::Digit5,
        0x0007 => KeyCode::Digit6,
        0x0008 => KeyCode::Digit7,
        0x0009 => KeyCode::Digit8,
        0x000A => KeyCode::Digit9,
        0x000B => KeyCode::Digit0,
        0x001C => KeyCode::Enter,
        0x0001 => KeyCode::Escape,
        0x000E => KeyCode::Backspace,
        0x000F => KeyCode::Tab,
        0x0039 => KeyCode::Space,
        0x000C => KeyCode::Minus,
        0x000D => KeyCode::Equal,
        0x001A => KeyCode::BracketLeft,
        0x001B => KeyCode::BracketRight,
        0x002B => KeyCode::Backslash,
        0x0027 => KeyCode::Semicolon,
        0x0028 => KeyCode::Quote,
        0x0029 => KeyCode::Backquote,
        0x0033 => KeyCode::Comma,
        0x0034 => KeyCode::Period,
        0x0035 => KeyCode::Slash,
        0x003A => KeyCode::CapsLock,
        0x003B => KeyCode::F1,
        0x003C => KeyCode::F2,
        0x003D => KeyCode::F3,
        0x003E => KeyCode::F4,
        0x003F => KeyCode::F5,
        0x0040 => KeyCode::F6,
        0x0041 => KeyCode::F7,
        0x0042 => KeyCode::F8,
        0x0043 => KeyCode::F9,
        0x0044 => KeyCode::F10,
        0x0057 => KeyCode::F11,
        0x0058 => KeyCode::F12,
        0x002A => KeyCode::ShiftLeft,
        0x0036 => KeyCode::ShiftRight,
        0x001D => KeyCode::ControlLeft,
        0xE01D => KeyCode::ControlRight,
        0x0038 => KeyCode::AltLeft,
        0xE038 => KeyCode::AltRight,
        0xE05B => KeyCode::SuperLeft,
        0xE05C => KeyCode::SuperRight,
        0xE048 => KeyCode::ArrowUp,
        0xE050 => KeyCode::ArrowDown,
        0xE04B => KeyCode::ArrowLeft,
        0xE04D => KeyCode::ArrowRight,
        0xE052 => KeyCode::Insert,
        0xE053 => KeyCode::Delete,
        0xE047 => KeyCode::Home,
        0xE04F => KeyCode::End,
        0xE049 => KeyCode::PageUp,
        0xE051 => KeyCode::PageDown,
        0x0045 => KeyCode::NumLock,
        0x0052 => KeyCode::Numpad0,
        0x004F => KeyCode::Numpad1,
        0x0050 => KeyCode::Numpad2,
        0x0051 => KeyCode::Numpad3,
        0x004B => KeyCode::Numpad4,
        0x004C => KeyCode::Numpad5,
        0x004D => KeyCode::Numpad6,
        0x0047 => KeyCode::Numpad7,
        0x0048 => KeyCode::Numpad8,
        0x0049 => KeyCode::Numpad9,
        0x004E => KeyCode::NumpadAdd,
        0x004A => KeyCode::NumpadSubtract,
        0x0037 => KeyCode::NumpadMultiply,
        0xE035 => KeyCode::NumpadDivide,
        0x0053 => KeyCode::NumpadDecimal,
        0xE01C => KeyCode::NumpadEnter,
        _ => KeyCode::Other,
    }
}

/// No two keys share a scancode: the server can tell every key apart.
pub proof fn lemma_scancodes_distinct(a: KeyCode, b: KeyCode)
    ensures
        key_scancode(a) is Some && key_scancode(a) == key_scancode(b) ==> a == b,
{
    assert(key_scancode(a) matches Some(s) ==> scancode_key(s) == a);
    assert(key_scancode(b) matches Some(s) ==> scancode_key(s) == b);
}

/// The digit row, `1` to `0`.
pub open spec fn digit_row() -> Seq<KeyCode> {
    seq![KeyCode::Digit1, KeyCode::Digit2, KeyCode::Digit3, KeyCode::Digit4, KeyCode::Digit5, KeyCode::Digit6, KeyCode::Digit7, KeyCode::Digit8, KeyCode::Digit9, KeyCode::Digit0]
}

/// The top letter row, `Q` to `P`.
pub open spec fn top_letter_row() -> Seq<KeyCode> {
    seq![KeyCode::KeyQ, KeyCode::KeyW, KeyCode::KeyE, KeyCode::KeyR, KeyCode::KeyT, KeyCode::KeyY, KeyCode::KeyU, KeyCode::KeyI, KeyCode::KeyO, KeyCode::KeyP]
}

/// The home letter row, `A` to `L`.
pub open spec fn home_letter_row() -> Seq<KeyCode> {
    seq![KeyCode::KeyA, KeyCode::KeyS, KeyCode::KeyD, KeyCode::KeyF, KeyCode::KeyG, KeyCode::KeyH, KeyCode::KeyJ, KeyCode::KeyK, KeyCode::KeyL]
}

/// The bottom letter row, `Z` to `M`.
pub open spec fn bottom_letter_row() -> Seq<KeyCode> {
    seq![KeyCode::KeyZ, KeyCode::KeyX, KeyCode::KeyC, KeyCode::KeyV, KeyCode::KeyB, KeyCode::KeyN, KeyCode::KeyM]
}

/// The function keys `F1` to `F10`.
pub open spec fn function_row() -> Seq<KeyCode> {
    seq![KeyCode::F1, KeyCode::F2, KeyCode::F3, KeyCode::F4, KeyCode::F5, KeyCode::F6, KeyCode::F7, KeyCode::F8, KeyCode::F9, KeyCode::F10]
}

/// The keys follow the rows of a PC keyboard in scan code set 1: the digit
/// row runs from 0x02, the letter rows from 0x10 (Q), 0x1E (A) and 0x2C
/// (Z), and F1 to F10 from 0x3B, one code per key from left to right.
pub proof fn lemma_scancode_rows(i: int)
    ensures
        0 <= i < digit_row().len() ==> key_scancode(digit_row()[i]) == Some((0x2 + i) as u16),
        0 <= i < top_letter_row().len() ==> key_scancode(top_letter_row()[i]) == Some((0x10 + i) as u16),
        0 <= i < home_letter_row().len() ==> key_scancode(home_letter_row()[i]) == Some((0x1E + i) as u16),
        0 <= i < bottom_letter_row().len() ==> key_scancode(bottom_letter_row()[i]) == Some((0x2C + i) as u16),
        0 <= i < function_row().len() ==> key_scancode(function_row()[i]) == Some((0x3B + i) as u16),
{
}

/// Every mapped key has a one-byte scancode or an extended one prefixed by
/// `0xE0`, so its keyboard event, the low byte with the extended flag, names
/// the key's scancode exactly.
pub proof fn lemma_key_event_names_scancode(code: KeyCode, released: bool)
    ensures
        key_scancode(code) matches Some(s) ==> {
            let e = key_input_of(s, released);
            s == (if e.flags >= 2 {
                0xE000int
            } else {
                0int
            }) + e.scancode
        },
{
}

// ---------------------------------------------------------------------------
// Mouse
// ---------------------------------------------------------------------------

/// `PointerFlags::MOVE`
pub const POINTER_MOVE: u16 = 0x0800;

/// `PointerFlags::LEFT_BUTTON`
pub const POINTER_LEFT_BUTTON: u16 = 0x1000;

/// `PointerFlags::RIGHT_BUTTON`
pub const POINTER_RIGHT_BUTTON: u16 = 0x2000;

/// `PointerFlags::MIDDLE_BUTTON_OR_WHEEL`
pub const POINTER_MIDDLE_BUTTON: u16 = 0x4000;

/// `PointerFlags::DOWN`
pub const POINTER_DOWN: u16 = 0x8000;

/// A mouse button as the windowing system reports it.
#[derive(Debug, Clone, Copy, PartialEq, Eq, Structural)]
pub enum MouseButton {
    Left,
    Right,
    Middle,
    /// Back, forward or another button
    Other,
}

/// The pointer flags of a button event; the other buttons are not sent.
pub open spec fn button_flags_of(button: MouseButton, pressed: bool) -> Option<u16> {
    let down: int = if pressed { 0x8000 } else { 0 };
    match button {
        MouseButton::Left => Some((0x1000 + down) as u16),
        MouseButton::Right => Some((0x2000 + down) as u16),
        MouseButton::Middle => Some((0x4000 + down) as u16),
        MouseButton::Other => None,
    }
}

/// Pressing a button sends its released flags with the down flag added:
/// the released flags are one button bit (left 0x1000, right 0x2000, middle
/// 0x4000) without 0x8000, distinct for each button; other buttons send
/// nothing.
pub proof fn lemma_button_flags(a: MouseButton, b: MouseButton)
    ensures
        button_flags_of(a, true) is Some <==> button_flags_of(a, false) is Some,
        button_flags_of(a, false) matches Some(f) ==> f < 0x8000 && button_flags_of(a, true)
            == Some((f + 0x8000) as u16) && (f == 0x1000 || f == 0x2000 || f == 0x4000),
        button_flags_of(a, true) matches Some(f) ==> f >= 0x8000,
        button_flags_of(a, false) is Some && button_flags_of(a, false) == button_flags_of(b, false)
            ==> a == b,
        (button_flags_of(a, false) is None) == (a == MouseButton::Other),
        button_flags_of(MouseButton::Left, false) == Some(0x1000u16),
        button_flags_of(MouseButton::Right, false) == Some(0x2000u16),
        button_flags_of(MouseButton::Middle, false) == Some(0x4000u16),
{
}

/// The pointer flags of a mouse button being pressed or released.
pub fn mouse_button_flags(button: MouseButton, pressed: bool) -> (r: Option<u16>)
    ensures
        r == button_flags_of(button, pressed),
{
    let mut flags: u16 = match button {
        MouseButton::Left => POINTER_LEFT_BUTTON,
        MouseButton::Right => POINTER_RIGHT_BUTTON,
        MouseButton::Middle => POINTER_MIDDLE_BUTTON,
        MouseButton::Other => return None,
    };
    if pressed {
        assert(0x1000u16 | 0x8000u16 == 0x9000u16 && 0x2000u16 | 0x8000u16 == 0xA000u16
            && 0x4000u16 | 0x8000u16 == 0xC000u16) by (bit_vector);
        flags = flags | POINTER_DOWN;
    }
    Some(flags)
}

/// A pointer coordinate kept inside a desktop dimension of `limit` pixels.
pub fn clamp_to_desktop(v: u16, limit: u16) -> (r: u16)
    requires
        limit >= 1,
    ensures
        r == if v <= limit - 1 { v } else { (limit - 1) as u16 },
{
    if v <= limit - 1 {
        v
    } else {
        limit - 1
    }
}

// ---------------------------------------------------------------------------
// Framebuffer
// ---------------------------------------------------------------------------

/// The softbuffer pixel `0x00RRGGBB` of RGBA bytes at `s`.
pub open spec fn rgb_pixel(data: Seq<u8>, s: int) -> u32 {
    (data[s] as int * 65536 + data[s + 1] as int * 256 + data[s + 2] as int) as u32
}

/// The softbuffer pixel `0x00RRGGBB` of BGRA bytes at `s`.
pub open spec fn bgr_pixel(data: Seq<u8>, s: int) -> u32 {
    (data[s + 2] as int * 65536 + data[s + 1] as int * 256 + data[s] as int) as u32
}

/// The pixels of RGBA data, one per whole group of four bytes; alpha is dropped.
pub open spec fn rgba_pixels(rgba: Seq<u8>) -> Seq<u32> {
    Seq::new(rgba.len() / 4, |i: int| rgb_pixel(rgba, 4 * i))
}

proof fn lemma_pack(r: u32, g: u32, b: u32)
    requires
        r < 256,
        g < 256,
        b < 256,
    ensures
        (r << 16) | (g << 8) | b == r * 65536 + g * 256 + b,
{
    assert((r << 16) | (g << 8) | b == r * 65536 + g * 256 + b) by (bit_vector)
        requires
            r < 256,
            g < 256,
            b < 256,
    ;
}

/// Convert RGBA data from the decoded image to softbuffer RGB format.
pub fn rgba_to_rgb(rgba: &[u8]) -> (r: Vec<u32>)
    ensures
        r@ == rgba_pixels(rgba@),
{
    let len = rgba.len();
    let n = len / 4;
    let mut out: Vec<u32> = Vec::new();
    let mut i: usize = 0;
    while i < n
        invariant
            len == rgba@.len(),
            n == rgba@.len() / 4,
            i <= n,
            out@ == rgba_pixels(rgba@).take(i as int),
        decreases n - i,
    {
        proof {
            let l = rgba@.len() as int;
            vstd::arithmetic::div_mod::lemma_fundamental_div_mod(l, 4);
        }
        let r = rgba[4 * i] as u32;
        let g = rgba[4 * i + 1] as u32;
        let b = rgba[4 * i + 2] as u32;
        proof {
            lemma_pack(r, g, b);
        }
        out.push((r << 16) | (g << 8) | b);
        assert(out@ =~= rgba_pixels(rgba@).take(i + 1));
        i = i + 1;
    }
    assert(out@ =~= rgba_pixels(rgba@));
    out
}

/// Whether an update of `w`x`h` pixels at (`x`, `y`) draws its pixel
/// (`row`, `col`): the pixel is inside the update, its four bytes are in the
/// data, and it lands on the desktop.
pub open spec fn drawn(
    size: DesktopSize,
    x: u16,
    y: u16,
    w: u16,
    h: u16,
    data_len: nat,
    row: int,
    col: int,
) -> bool {
    &&& 0 <= row < h
    &&& 0 <= col < w
    &&& 4 * (row * w + col) + 3 < data_len
    &&& x + col < size.width
    &&& y + row < size.height
}

/// The update drawn up to (but not including) pixel (`r`, `c`), in row order.
pub open spec fn drawn_until(
    old: Seq<u32>,
    size: DesktopSize,
    x: u16,
    y: u16,
    w: u16,
    h: u16,
    data: Seq<u8>,
    r: int,
    c: int,
) -> Seq<u32> {
    Seq::new(
        old.len(),
        |i: int|
            {
                let row = i / (size.width as int) - y;
                let col = i % (size.width as int) - x;
                if size.width > 0 && drawn(size, x, y, w, h, data.len(), row, col) && (row < r || (
                row == r && col < c)) {
                    bgr_pixel(data, 4 * (row * w + col))
                } else {
                    old[i]
                }
            },
    )
}

/// The framebuffer after a BGRA update of `w`x`h` pixels at (`x`, `y`):
/// each desktop pixel inside the update whose data is present takes it;
/// every other pixel keeps its value.
pub open spec fn updated_pixels(
    old: Seq<u32>,
    size: DesktopSize,
    x: u16,
    y: u16,
    w: u16,
    h: u16,
    data: Seq<u8>,
) -> Seq<u32> {
    drawn_until(old, size, x, y, w, h, data, h as int, 0)
}

/// The framebuffer the window shows: one `0x00RRGGBB` word per pixel, row by
/// row across the desktop.
#[derive(Debug, Clone)]
pub struct Framebuffer {
    pub size: DesktopSize,
    pub pixels: Vec<u32>,
}

/// Black with full alpha.
pub open spec fn opaque_black() -> u32 {
    0xFF000000
}

impl Framebuffer {
    /// A black framebuffer covering the desktop.
    pub fn new(size: DesktopSize) -> (r: Self)
        ensures
            r.size == size,
            r.pixels@ == Seq::new((size.width * size.height) as nat, |i: int| opaque_black()),
    {
        assert(size.width as usize * size.height as usize <= 0xFFFF_FFFF) by (nonlinear_arith)
            requires
                size.width <= 0xFFFF,
                size.height <= 0xFFFF,
        ;
        let pixel_count = size.width as usize * size.height as usize;
        let mut pixels: Vec<u32> = Vec::new();
        let mut i: usize = 0;
        while i < pixel_count
            invariant
                i <= pixel_count,
                pixels@ == Seq::new(i as nat, |k: int| opaque_black()),
            decreases pixel_count - i,
        {
            pixels.push(0xFF000000);
            assert(pixels@ =~= Seq::new((i + 1) as nat, |k: int| opaque_black()));
            i = i + 1;
        }
        Framebuffer { size, pixels }
    }

    /// Replaces the whole picture with a decoded RGBA image.
    pub fn set_from_rgba(&mut self, rgba: &[u8])
        ensures
            final(self).size == old(self).size,
            final(self).pixels@ == rgba_pixels(rgba@),
    {
        self.pixels = rgba_to_rgb(rgba);
    }

    /// Update a region of the framebuffer with BGRA data from RDP.
    #[verifier::spinoff_prover]
    pub fn update_framebuffer(&mut self, x: u16, y: u16, width: u16, height: u16, bgra_data: &[u8])
        requires
            forall|row: int, col: int|
                #[trigger] drawn(old(self).size, x, y, width, height, bgra_data@.len(), row, col)
                    ==> (y + row) * old(self).size.width + x + col < old(self).pixels@.len(),
        ensures
            final(self).size == old(self).size,
            final(self).pixels@ == updated_pixels(
                old(self).pixels@,
                old(self).size,
                x,
                y,
                width,
                height,
                bgra_data@,
            ),
    {
        let ghost old_pixels = self.pixels@;
        let ghost size = self.size;
        let ghost data = bgra_data@;
        let stride = self.size.width as u64;
        let desktop_height = self.size.height as u64;
        let len = bgra_data.len() as u64;
        let w = width as u64;
        let mut row: u64 = 0;
        proof {
            lemma_drawn_until_start(old_pixels, size, x, y, width, height, data);
        }
        while row < height as u64
            invariant
                size == self.size,
                data == bgra_data@,
                stride == size.width,
                desktop_height == size.height,
                len == data.len(),
                w == width,
                row <= height,
                self.pixels@ == drawn_until(old_pixels, size, x, y, width, height, data, row as int, 0),
                forall|row: int, col: int|
                    #[trigger] drawn(size, x, y, width, height, data.len(), row, col) ==> (y + row)
                        * size.width + x + col < old_pixels.len(),
            decreases height - row,
        {
            assert(row * w < 0x1_0000_0000) by (nonlinear_arith)
                requires
                    row < 0x1_0000,
                    w <= 0xFFFF,
            ;
            let row_start = row * w;
            let mut col: u64 = 0;
            while col < w && (row_start + col) * 4 + 3 < len
                invariant
                    size == self.size,
                    data == bgra_data@,
                    stride == size.width,
                    desktop_height == size.height,
                    len == data.len(),
                    w == width,
                    row < height,
                    col <= w,
                    row_start == row * w,
                    row_start < 0x1_0000_0000,
                    self.pixels@ == drawn_until(
                        old_pixels,
                        size,
                        x,
                        y,
                        width,
                        height,
                        data,
                        row as int,
                        col as int,
                    ),
                    forall|row: int, col: int|
                        #[trigger] drawn(size, x, y, width, height, data.len(), row, col) ==> (y
                            + row) * size.width + x + col < old_pixels.len(),
                decreases w - col,
            {
                let src_idx = ((row_start + col) * 4) as usize;
                let b = bgra_data[src_idx] as u32;
                let g = bgra_data[src_idx + 1] as u32;
                let r = bgra_data[src_idx + 2] as u32;
                proof {
                    lemma_pack(r, g, b);
                }
                let pixel = (r << 16) | (g << 8) | b;
                let dst_x = x as u64 + col;
                let dst_y = y as u64 + row;
                let ghost before = self.pixels@;
                if dst_x < stride && dst_y < desktop_height {
                    let ghost i0: int = (y + row) * size.width + x + col;
                    proof {
                        assert(drawn(size, x, y, width, height, data.len(), row as int, col as int));
                        assert(i0 < old_pixels.len());
                        assert(dst_y * stride + dst_x == i0) by (nonlinear_arith)
                            requires
                                dst_y == y + row,
                                stride == size.width,
                                dst_x == x + col,
                                i0 == (y + row) * size.width + x + col,
                        ;
                    }
                    assert(dst_y * stride <= 0xFFFF_FFFF_FFFF) by (nonlinear_arith)
                        requires
                            dst_y < 0x1_0000,
                            stride < 0x1_0000,
                    ;
                    let pixel_count = self.pixels.len();
                    assert(old_pixels.len() == pixel_count);
                    assert(dst_y * stride + dst_x < pixel_count);
                    let dst = (dst_y * stride + dst_x) as usize;
                    assert(dst == i0);
                    self.pixels.set(dst, pixel);
                    proof {
                        lemma_drawn_step(
                            old_pixels,
                            size,
                            x,
                            y,
                            width,
                            height,
                            data,
                            row as int,
                            col as int,
                        );
                        assert(src_idx == 4 * (row * w + col));
                        assert(pixel == bgr_pixel(data, src_idx as int));
                    }
                } else {
                    proof {
                        lemma_drawn_skip(
                            old_pixels,
                            size,
                            x,
                            y,
                            width,
                            height,
                            data,
                            row as int,
                            col as int,
                        );
                    }
                }
                col = col + 1;
            }
            proof {
                lemma_drawn_row_end(
                    old_pixels,
                    size,
                    x,
                    y,
                    width,
                    height,
                    data,
                    row as int,
                    col as int,
                );
            }
            row = row + 1;
        }
    }
}

proof fn lemma_drawn_until_start(
    old: Seq<u32>,
    size: DesktopSize,
    x: u16,
    y: u16,
    w: u16,
    h: u16,
    data: Seq<u8>,
)
    ensures
        drawn_until(old, size, x, y, w, h, data, 0, 0) == old,
{
    assert forall|i: int| 0 <= i < old.len() implies #[trigger] drawn_until(
        old,
        size,
        x,
        y,
        w,
        h,
        data,
        0,
        0,
    )[i] == old[i] by {
        if size.width > 0 {
            let row = i / (size.width as int) - y;
            let col = i % (size.width as int) - x;
            if drawn(size, x, y, w, h, data.len(), row, col) {
                assert(row >= 0);
            }
        }
    }
    assert(drawn_until(old, size, x, y, w, h, data, 0, 0) =~= old);
}

/// A drawn pixel (`r`, `c`) is the one at index `(y + r) * W + x + c`.
proof fn lemma_drawn_step(
    old: Seq<u32>,
    size: DesktopSize,
    x: u16,
    y: u16,
    w: u16,
    h: u16,
    data: Seq<u8>,
    r: int,
    c: int,
)
    requires
        drawn(size, x, y, w, h, data.len(), r, c),
        (y + r) * size.width + x + c < old.len(),
    ensures
        drawn_until(old, size, x, y, w, h, data, r, c + 1) == drawn_until(
            old,
            size,
            x,
            y,
            w,
            h,
            data,
            r,
            c,
        ).update((y + r) * size.width + x + c, bgr_pixel(data, 4 * (r * w + c))),
{
    let wd = size.width as int;
    let i0 = (y + r) * wd + x + c;
    let a = drawn_until(old, size, x, y, w, h, data, r, c + 1);
    let b = drawn_until(old, size, x, y, w, h, data, r, c).update(i0, bgr_pixel(data, 4 * (r * w + c)));
    assert(wd > 0);
    vstd::arithmetic::div_mod::lemma_fundamental_div_mod_converse(i0, wd, y + r, x + c);
    assert forall|i: int| 0 <= i < old.len() implies a[i] == b[i] by {
        if i != i0 {
            vstd::arithmetic::div_mod::lemma_fundamental_div_mod(i, wd);
            let row = i / wd - y;
            let col = i % wd - x;
            if row == r && col == c {
                assert(i == wd * (i / wd) + i % wd);
                assert(wd * (y + r) == (y + r) * wd) by (nonlinear_arith);
                assert(false);
            }
        }
    }
    assert(a =~= b);
}

/// A pixel (`r`, `c`) that is not drawn changes nothing.
proof fn lemma_drawn_skip(
    old: Seq<u32>,
    size: DesktopSize,
    x: u16,
    y: u16,
    w: u16,
    h: u16,
    data: Seq<u8>,
    r: int,
    c: int,
)
    requires
        !drawn(size, x, y, w, h, data.len(), r, c),
    ensures
        drawn_until(old, size, x, y, w, h, data, r, c + 1) == drawn_until(
            old,
            size,
            x,
            y,
            w,
            h,
            data,
            r,
            c,
        ),
{
    assert(drawn_until(old, size, x, y, w, h, data, r, c + 1) =~= drawn_until(
        old,
        size,
        x,
        y,
        w,
        h,
        data,
        r,
        c,
    ));
}

/// A row ends at its last column or where the data runs out.
proof fn lemma_drawn_row_end(
    old: Seq<u32>,
    size: DesktopSize,
    x: u16,
    y: u16,
    w: u16,
    h: u16,
    data: Seq<u8>,
    r: int,
    c: int,
)
    requires
        0 <= r,
        0 <= c <= w,
        c == w || 4 * (r * w + c) + 3 >= data.len(),
    ensures
        drawn_until(old, size, x, y, w, h, data, r, c) == drawn_until(
            old,
            size,
            x,
            y,
            w,
            h,
            data,
            r + 1,
            0,
        ),
{
    let a = drawn_until(old, size, x, y, w, h, data, r, c);
    let b = drawn_until(old, size, x, y, w, h, data, r + 1, 0);
    assert forall|i: int| 0 <= i < old.len() implies a[i] == b[i] by {
        if size.width > 0 {
            let row = i / (size.width as int) - y;
            let col = i % (size.width as int) - x;
            if drawn(size, x, y, w, h, data.len(), row, col) && row == r && col >= c {
                assert(4 * (r * w + col) + 3 >= 4 * (r * w + c) + 3);
            }
        }
    }
    assert(a =~= b);
}

} // verus!
