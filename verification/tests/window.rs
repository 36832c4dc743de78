use cyberark_rdp::connection::DesktopSize;
use cyberark_rdp::window::{
    clamp_to_desktop, keyboard_input, map_key_to_scancode, mouse_button_flags, rgba_to_rgb,
    Framebuffer, KeyCode, KeyInput, MouseButton, PhysicalKey, KEYBOARD_EXTENDED, KEYBOARD_RELEASE,
    POINTER_DOWN, POINTER_LEFT_BUTTON, POINTER_MIDDLE_BUTTON, POINTER_RIGHT_BUTTON,
};

#[test]
fn scancodes() {
    assert_eq!(map_key_to_scancode(&PhysicalKey::Code(KeyCode::KeyA)), Some(0x1E));
    assert_eq!(map_key_to_scancode(&PhysicalKey::Code(KeyCode::Digit0)), Some(0x0B));
    assert_eq!(map_key_to_scancode(&PhysicalKey::Code(KeyCode::F11)), Some(0x57));
    assert_eq!(map_key_to_scancode(&PhysicalKey::Code(KeyCode::ControlRight)), Some(0xE01D));
    assert_eq!(map_key_to_scancode(&PhysicalKey::Code(KeyCode::NumpadEnter)), Some(0xE01C));
    assert_eq!(map_key_to_scancode(&PhysicalKey::Code(KeyCode::Other)), None);
    assert_eq!(map_key_to_scancode(&PhysicalKey::Unidentified), None);
}

#[test]
fn keyboard_events() {
    assert_eq!(
        keyboard_input(&PhysicalKey::Code(KeyCode::KeyQ), false),
        Some(KeyInput { flags: 0, scancode: 0x10 })
    );
    assert_eq!(
        keyboard_input(&PhysicalKey::Code(KeyCode::KeyQ), true),
        Some(KeyInput { flags: KEYBOARD_RELEASE, scancode: 0x10 })
    );
    assert_eq!(
        keyboard_input(&PhysicalKey::Code(KeyCode::ArrowUp), false),
        Some(KeyInput { flags: KEYBOARD_EXTENDED, scancode: 0x48 })
    );
    assert_eq!(
        keyboard_input(&PhysicalKey::Code(KeyCode::SuperLeft), true),
        Some(KeyInput { flags: KEYBOARD_RELEASE | KEYBOARD_EXTENDED, scancode: 0x5B })
    );
    assert_eq!(keyboard_input(&PhysicalKey::Unidentified, true), None);
}

#[test]
fn mouse_buttons() {
    assert_eq!(mouse_button_flags(MouseButton::Left, true), Some(POINTER_LEFT_BUTTON | POINTER_DOWN));
    assert_eq!(mouse_button_flags(MouseButton::Left, false), Some(0x1000));
    assert_eq!(mouse_button_flags(MouseButton::Right, true), Some(0xA000));
    assert_eq!(mouse_button_flags(MouseButton::Middle, false), Some(POINTER_MIDDLE_BUTTON));
    assert_eq!(mouse_button_flags(MouseButton::Right, false), Some(POINTER_RIGHT_BUTTON));
    assert_eq!(mouse_button_flags(MouseButton::Other, true), None);
    assert_eq!(clamp_to_desktop(5000, 1280), 1279);
    assert_eq!(clamp_to_desktop(10, 1280), 10);
    assert_eq!(clamp_to_desktop(0, 1), 0);
}

#[test]
fn rgba_conversion() {
    let rgba = [0x11u8, 0x22, 0x33, 0xFF, 0x44, 0x55, 0x66, 0x00, 0x77];
    assert_eq!(rgba_to_rgb(&rgba), vec![0x112233, 0x445566]);
    assert_eq!(rgba_to_rgb(&[]), Vec::<u32>::new());
}

#[test]
fn framebuffer_starts_black() {
    let fb = Framebuffer::new(DesktopSize { width: 3, height: 2 });
    assert_eq!(fb.pixels, vec![0xFF000000u32; 6]);
}

#[test]
fn framebuffer_region_update() {
    let mut fb = Framebuffer::new(DesktopSize { width: 3, height: 2 });
    // A 2x2 BGRA update at (1, 0) covers the two right columns.
    let bgra = [
        0x01u8, 0x02, 0x03, 0xFF, 0x04, 0x05, 0x06, 0xFF, //
        0x07, 0x08, 0x09, 0xFF, 0x0A, 0x0B, 0x0C, 0xFF,
    ];
    fb.update_framebuffer(1, 0, 2, 2, &bgra);
    assert_eq!(
        fb.pixels,
        vec![0xFF000000, 0x030201, 0x060504, 0xFF000000, 0x090807, 0x0C0B0A]
    );
    // Data for only one pixel and a half: only the first pixel is drawn.
    let mut fb = Framebuffer::new(DesktopSize { width: 2, height: 2 });
    fb.update_framebuffer(0, 1, 2, 1, &[0x10, 0x20, 0x30, 0x00, 0x40, 0x50]);
    assert_eq!(fb.pixels, vec![0xFF000000, 0xFF000000, 0x302010, 0xFF000000]);
}

#[test]
fn framebuffer_from_rgba() {
    let mut fb = Framebuffer::new(DesktopSize { width: 1, height: 1 });
    fb.set_from_rgba(&[1, 2, 3, 4, 5, 6, 7, 8]);
    assert_eq!(fb.pixels, vec![0x010203, 0x050607]);
    assert_eq!(fb.size, DesktopSize { width: 1, height: 1 });
}
