use alacritty_terminal::term::TermMode;
use baduhan::keys::{
    base_char, encode_key, Mods, VK_BACK, VK_DELETE, VK_ESCAPE, VK_F1, VK_F12, VK_F5, VK_LEFT,
    VK_PRIOR, VK_RETURN, VK_RIGHT, VK_SPACE, VK_TAB, VK_UP,
};
use baduhan::modes;

const NONE: Mods = Mods { shift: false, ctrl: false, alt: false, altgr: false };
const SHIFT: Mods = Mods { shift: true, ctrl: false, alt: false, altgr: false };
const CTRL: Mods = Mods { shift: false, ctrl: true, alt: false, altgr: false };
const ALT: Mods = Mods { shift: false, ctrl: false, alt: true, altgr: false };
const ALTGR: Mods = Mods { shift: false, ctrl: true, alt: true, altgr: true };

const KITTY: TermMode = TermMode::DISAMBIGUATE_ESC_CODES;

/// The character that a US keyboard has on a key.
fn mapped(vk: u16) -> u32 {
    match vk {
        0x20 | 0x30..=0x39 | 0x41..=0x5a => vk as u32,
        _ => 0,
    }
}

fn key(vk: u16, mods: &Mods, mode: TermMode) -> Option<Vec<u8>> {
    encode_key(vk, mods, mode.bits(), mapped(vk))
}

fn enc(vk: u16, mods: &Mods, mode: TermMode) -> Vec<u8> {
    key(vk, mods, mode).expect("should encode")
}

#[test]
fn arrows_normal_and_application_mode() {
    assert_eq!(enc(VK_UP, &NONE, TermMode::empty()), b"\x1b[A");
    assert_eq!(enc(VK_UP, &NONE, TermMode::APP_CURSOR), b"\x1bOA");
    assert_eq!(enc(VK_LEFT, &NONE, TermMode::empty()), b"\x1b[D");
}

#[test]
fn modified_arrows_use_xterm_encoding() {
    // Ctrl+Right = CSI 1;5C, used by shells for word-jump.
    assert_eq!(enc(VK_RIGHT, &CTRL, TermMode::empty()), b"\x1b[1;5C");
    assert_eq!(enc(VK_UP, &SHIFT, TermMode::empty()), b"\x1b[1;2A");
    // Modifiers win over application cursor mode.
    assert_eq!(enc(VK_RIGHT, &CTRL, TermMode::APP_CURSOR), b"\x1b[1;5C");
}

#[test]
fn function_keys() {
    assert_eq!(enc(VK_F1, &NONE, TermMode::empty()), b"\x1bOP");
    assert_eq!(enc(VK_F5, &NONE, TermMode::empty()), b"\x1b[15~");
    assert_eq!(enc(VK_F12, &NONE, TermMode::empty()), b"\x1b[24~");
    assert_eq!(enc(VK_F5, &CTRL, TermMode::empty()), b"\x1b[15;5~");
}

#[test]
fn editing_keys() {
    assert_eq!(enc(VK_DELETE, &NONE, TermMode::empty()), b"\x1b[3~");
    assert_eq!(enc(VK_PRIOR, &NONE, TermMode::empty()), b"\x1b[5~");
    assert_eq!(enc(VK_BACK, &NONE, TermMode::empty()), [0x7f]);
    assert_eq!(enc(VK_BACK, &CTRL, TermMode::empty()), [0x08]);
    assert_eq!(enc(VK_TAB, &SHIFT, TermMode::empty()), b"\x1b[Z");
    assert_eq!(enc(VK_RETURN, &ALT, TermMode::empty()), b"\x1b\r");
}

#[test]
fn shift_enter_legacy_fallback_is_esc_cr() {
    // Without the kitty protocol, Shift+Enter still has to be
    // distinguishable: ESC CR.
    assert_eq!(enc(VK_RETURN, &SHIFT, TermMode::empty()), b"\x1b\r");
    // Plain Enter stays plain.
    assert_eq!(enc(VK_RETURN, &NONE, TermMode::empty()), b"\r");
}

#[test]
fn kitty_disambiguates_modified_enter_tab_backspace() {
    assert_eq!(enc(VK_RETURN, &SHIFT, KITTY), b"\x1b[13;2u");
    assert_eq!(enc(VK_RETURN, &CTRL, KITTY), b"\x1b[13;5u");
    assert_eq!(enc(VK_RETURN, &NONE, KITTY), b"\r");
    assert_eq!(enc(VK_TAB, &SHIFT, KITTY), b"\x1b[9;2u");
    assert_eq!(enc(VK_TAB, &NONE, KITTY), b"\t");
    assert_eq!(enc(VK_BACK, &CTRL, KITTY), b"\x1b[127;5u");
    assert_eq!(enc(VK_BACK, &NONE, KITTY), [0x7f]);
}

#[test]
fn kitty_escape_is_csi_27u() {
    assert_eq!(enc(VK_ESCAPE, &NONE, KITTY), b"\x1b[27u");
    assert_eq!(enc(VK_ESCAPE, &NONE, TermMode::empty()), [0x1b]);
}

#[test]
fn kitty_ctrl_and_alt_characters_use_csi_u() {
    assert_eq!(enc(b'A' as u16, &CTRL, KITTY), b"\x1b[97;5u");
    assert_eq!(enc(b'A' as u16, &ALT, KITTY), b"\x1b[97;3u");
    assert_eq!(enc(b'5' as u16, &CTRL, KITTY), b"\x1b[53;5u");
    assert_eq!(enc(VK_SPACE, &CTRL, KITTY), b"\x1b[32;5u");
    // Legacy mode unchanged: ctrl+letter flows to WM_CHAR (control byte).
    assert!(key(b'A' as u16, &CTRL, TermMode::empty()).is_none());
    // Plain and shifted text keys stay text even under kitty.
    assert!(key(b'A' as u16, &NONE, KITTY).is_none());
    assert!(key(b'A' as u16, &SHIFT, KITTY).is_none());
    // AltGr types characters; never steal it.
    assert!(key(b'A' as u16, &ALTGR, KITTY).is_none());
}

#[test]
fn plain_characters_fall_through_to_wm_char() {
    assert!(key(b'A' as u16, &NONE, TermMode::empty()).is_none());
    assert!(key(b'5' as u16, &SHIFT, TermMode::empty()).is_none());
}

#[test]
fn the_character_of_a_key_is_in_lower_case() {
    assert_eq!(base_char(0xde, 0xc4), Some(0xe4));
    assert_eq!(base_char(0x41, 0x41), Some(0x61));
    assert_eq!(base_char(0x10, 0), None);
}

#[test]
fn modifiers_add_up() {
    assert_eq!(NONE.xterm(), 1);
    assert_eq!(SHIFT.xterm(), 2);
    assert_eq!(ALT.xterm(), 3);
    assert_eq!(CTRL.xterm(), 5);
    assert!(!NONE.any() && CTRL.any());
}

#[test]
fn mode_bits_are_those_of_the_emulator() {
    assert_eq!(modes::APP_CURSOR, TermMode::APP_CURSOR.bits());
    assert_eq!(modes::MOUSE_REPORT_CLICK, TermMode::MOUSE_REPORT_CLICK.bits());
    assert_eq!(modes::BRACKETED_PASTE, TermMode::BRACKETED_PASTE.bits());
    assert_eq!(modes::SGR_MOUSE, TermMode::SGR_MOUSE.bits());
    assert_eq!(modes::MOUSE_MOTION, TermMode::MOUSE_MOTION.bits());
    assert_eq!(modes::FOCUS_IN_OUT, TermMode::FOCUS_IN_OUT.bits());
    assert_eq!(modes::ALT_SCREEN, TermMode::ALT_SCREEN.bits());
    assert_eq!(modes::MOUSE_DRAG, TermMode::MOUSE_DRAG.bits());
    assert_eq!(modes::ALTERNATE_SCROLL, TermMode::ALTERNATE_SCROLL.bits());
    assert_eq!(modes::DISAMBIGUATE_ESC_CODES, TermMode::DISAMBIGUATE_ESC_CODES.bits());
    assert_eq!(modes::MOUSE_MODE, TermMode::MOUSE_MODE.bits());
    assert_eq!(
        modes::MOUSE_MOVES,
        TermMode::MOUSE_MOTION.bits() | TermMode::MOUSE_DRAG.bits()
    );
}
