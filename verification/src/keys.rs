//! Key presses as VT input byte sequences (xterm-compatible).
use vstd::prelude::*;
use crate::modes;
use crate::text;

verus! {

pub const VK_BACK: u16 = 0x08;

pub const VK_TAB: u16 = 0x09;

pub const VK_RETURN: u16 = 0x0d;

pub const VK_ESCAPE: u16 = 0x1b;

pub const VK_SPACE: u16 = 0x20;

pub const VK_PRIOR: u16 = 0x21;

pub const VK_NEXT: u16 = 0x22;

pub const VK_END: u16 = 0x23;

pub const VK_HOME: u16 = 0x24;

pub const VK_LEFT: u16 = 0x25;

pub const VK_UP: u16 = 0x26;

pub const VK_RIGHT: u16 = 0x27;

pub const VK_DOWN: u16 = 0x28;

pub const VK_INSERT: u16 = 0x2d;

pub const VK_DELETE: u16 = 0x2e;

pub const VK_F1: u16 = 0x70;

pub const VK_F4: u16 = 0x73;

pub const VK_F5: u16 = 0x74;

pub const VK_F6: u16 = 0x75;

pub const VK_F10: u16 = 0x79;

pub const VK_F11: u16 = 0x7a;

pub const VK_F12: u16 = 0x7b;

/// The modifier keys that are down.
#[derive(Clone, Copy, PartialEq, Eq, Debug, Structural)]
pub struct Mods {
    pub shift: bool,
    pub ctrl: bool,
    pub alt: bool,
    /// Right Alt while Ctrl is down is AltGr on international layouts: the
    /// combination types characters.
    pub altgr: bool,
}

impl Mods {
    pub open spec fn has_any(self) -> bool {
        self.shift || self.ctrl || self.alt
    }

    /// The number that xterm sends for a combination of modifiers.
    pub open spec fn xterm_code(self) -> nat {
        1 + (if self.shift { 1nat } else { 0 }) + (if self.alt { 2nat } else { 0 }) + (if self.ctrl {
            4nat
        } else {
            0
        })
    }

    pub fn xterm(&self) -> (r: u8)
        ensures
            r == self.xterm_code(),
    {
        let s: u8 = if self.shift { 1 } else { 0 };
        let a: u8 = if self.alt { 2 } else { 0 };
        let c: u8 = if self.ctrl { 4 } else { 0 };
        1 + s + a + c
    }

    pub fn any(&self) -> (r: bool)
        ensures
            r == self.has_any(),
    {
        self.shift || self.ctrl || self.alt
    }
}

/// What the first character of `char::to_lowercase` is.
pub uninterp spec fn lower_first(c: char) -> char;

/// The first character of `char::to_lowercase`, which is never empty.
#[verifier::external_body]
fn lower_char(c: char) -> (r: char)
    ensures
        r == lower_first(c),
{
    c.to_lowercase().next().unwrap_or(c)
}

/// `char::from_u32`: the character with that code point, if it is a scalar
/// value.
pub assume_specification[ char::from_u32 ](i: u32) -> (r: Option<char>)
    ensures
        r == (if vstd::utf8::is_scalar(i) {
            Some(i as char)
        } else {
            None
        }),
;

/// Characters of the Unicode category Cc.
pub open spec fn is_control(c: char) -> bool {
    c <= '\u{1f}' || '\u{7f}' <= c <= '\u{9f}'
}

/// The unshifted code point of a key that types a character, where `mapped` is
/// the code the keyboard layout gives the key.
pub open spec fn base_code(vk: u16, mapped: u32) -> Option<u32> {
    if 0x41 <= vk <= 0x5a {
        Some((vk + 32) as u32)
    } else if 0x30 <= vk <= 0x39 {
        Some(vk as u32)
    } else {
        let ch = mapped & 0xffff;
        if !vstd::utf8::is_scalar(ch) || is_control(ch as char) {
            None
        } else {
            Some(lower_first(ch as char) as u32)
        }
    }
}

/// Unshifted code point of a key that types a character, in lower case. None
/// for a key with no base character (modifiers, media keys). `mapped` is the
/// code that the keyboard layout gives the key.
pub fn base_char(vk: u16, mapped: u32) -> (r: Option<u32>)
    ensures
        r == base_code(vk, mapped),
{
    if 0x41 <= vk && vk <= 0x5a {
        return Some(vk as u32 + 32);
    }
    if 0x30 <= vk && vk <= 0x39 {
        return Some(vk as u32);
    }
    match char::from_u32(mapped & 0xffff) {
        Some(c) => {
            if c <= '\u{1f}' || ('\u{7f}' <= c && c <= '\u{9f}') {
                None
            } else {
                Some(lower_char(c) as u32)
            }
        },
        None => None,
    }
}

/// `CSI code u`, with the modifiers where there are any.
pub open spec fn csi_u(mods: Mods, code: u32) -> Seq<u8> {
    seq![0x1b, 0x5b] + text::number(code as nat) + (if mods.has_any() {
        seq![0x3bu8] + text::number(mods.xterm_code())
    } else {
        Seq::empty()
    }) + seq![0x75]
}

/// `CSI 1 ; modifiers ch` for a modified key; `SS3 ch` or `CSI ch` otherwise.
pub open spec fn cursor_seq(mods: Mods, ss3: bool, ch: u8) -> Seq<u8> {
    if mods.has_any() {
        seq![0x1b, 0x5b, 0x31, 0x3b] + text::number(mods.xterm_code()) + seq![ch]
    } else if ss3 {
        seq![0x1b, 0x4f, ch]
    } else {
        seq![0x1b, 0x5b, ch]
    }
}

/// `CSI n ~`, with the modifiers where there are any.
pub open spec fn tilde_seq(mods: Mods, n: u8) -> Seq<u8> {
    seq![0x1b, 0x5b] + text::number(n as nat) + (if mods.has_any() {
        seq![0x3bu8] + text::number(mods.xterm_code())
    } else {
        Seq::empty()
    }) + seq![0x7e]
}

/// The number before the tilde for a key that is sent that way.
pub open spec fn tilde_code(vk: u16) -> Option<u8> {
    if vk == VK_PRIOR {
        Some(5)
    } else if vk == VK_NEXT {
        Some(6)
    } else if vk == VK_INSERT {
        Some(2)
    } else if vk == VK_DELETE {
        Some(3)
    } else if vk == VK_F5 {
        Some(15)
    } else if VK_F6 <= vk <= VK_F10 {
        Some((vk - VK_F6 + 17) as u8)
    } else if vk == VK_F11 {
        Some(23)
    } else if vk == VK_F12 {
        Some(24)
    } else {
        None
    }
}

/// The final byte for a cursor key.
pub open spec fn cursor_code(vk: u16) -> Option<u8> {
    if vk == VK_UP {
        Some(0x41)
    } else if vk == VK_DOWN {
        Some(0x42)
    } else if vk == VK_RIGHT {
        Some(0x43)
    } else if vk == VK_LEFT {
        Some(0x44)
    } else if vk == VK_HOME {
        Some(0x48)
    } else if vk == VK_END {
        Some(0x46)
    } else {
        None
    }
}

/// The bytes a key press sends, or None where it is left to type a character.
/// `kitty` says whether escape codes are to be unambiguous, `app` whether the
/// cursor keys are in application mode, and `base` is the key's base code.
pub open spec fn key_bytes(vk: u16, mods: Mods, app: bool, kitty: bool, base: Option<u32>) -> Option<
    Seq<u8>,
> {
    let spelled = kitty && mods.has_any();
    if cursor_code(vk) is Some {
        Some(cursor_seq(mods, app, cursor_code(vk)->0))
    } else if tilde_code(vk) is Some {
        Some(tilde_seq(mods, tilde_code(vk)->0))
    } else if vk == VK_RETURN {
        if spelled {
            Some(csi_u(mods, 13))
        } else if mods.alt || mods.shift {
            Some(seq![0x1b, 0x0d])
        } else {
            Some(seq![0x0d])
        }
    } else if vk == VK_BACK {
        let b: u8 = if mods.ctrl { 0x08 } else { 0x7f };
        if spelled {
            Some(csi_u(mods, 127))
        } else if mods.alt {
            Some(seq![0x1b, b])
        } else {
            Some(seq![b])
        }
    } else if vk == VK_TAB {
        if spelled {
            Some(csi_u(mods, 9))
        } else if mods.shift {
            Some(seq![0x1b, 0x5b, 0x5a])
        } else {
            Some(seq![0x09])
        }
    } else if vk == VK_ESCAPE {
        if kitty {
            Some(csi_u(mods, 27))
        } else {
            Some(seq![0x1b])
        }
    } else if vk == VK_SPACE && kitty && (mods.ctrl || mods.alt) {
        Some(csi_u(mods, 32))
    } else if vk == VK_SPACE && mods.ctrl {
        Some(seq![0x00])
    } else if VK_F1 <= vk <= VK_F4 {
        Some(cursor_seq(mods, true, (0x50 + (vk - VK_F1)) as u8))
    } else if kitty && (mods.ctrl || mods.alt) && !mods.altgr {
        match base {
            Some(code) => Some(csi_u(mods, code)),
            None => None,
        }
    } else {
        None
    }
}

fn send_csi_u(mods: &Mods, code: u32) -> (v: Vec<u8>)
    ensures
        v@ == csi_u(*mods, code),
{
    let mut v: Vec<u8> = Vec::new();
    v.push(0x1b);
    v.push(0x5b);
    text::push_number(&mut v, code as u64);
    if mods.any() {
        v.push(0x3b);
        text::push_number(&mut v, mods.xterm() as u64);
    }
    v.push(0x75);
    assert(v@ =~= csi_u(*mods, code));
    v
}

fn send_cursor(mods: &Mods, ss3: bool, ch: u8) -> (v: Vec<u8>)
    ensures
        v@ == cursor_seq(*mods, ss3, ch),
{
    let mut v: Vec<u8> = Vec::new();
    v.push(0x1b);
    if mods.any() {
        v.push(0x5b);
        v.push(0x31);
        v.push(0x3b);
        text::push_number(&mut v, mods.xterm() as u64);
    } else if ss3 {
        v.push(0x4f);
    } else {
        v.push(0x5b);
    }
    v.push(ch);
    assert(v@ =~= cursor_seq(*mods, ss3, ch));
    v
}

fn send_tilde(mods: &Mods, n: u8) -> (v: Vec<u8>)
    ensures
        v@ == tilde_seq(*mods, n),
{
    let mut v: Vec<u8> = Vec::new();
    v.push(0x1b);
    v.push(0x5b);
    text::push_number(&mut v, n as u64);
    if mods.any() {
        v.push(0x3b);
        text::push_number(&mut v, mods.xterm() as u64);
    }
    v.push(0x7e);
    assert(v@ =~= tilde_seq(*mods, n));
    v
}

fn cursor_byte(vk: u16) -> (r: Option<u8>)
    ensures
        r == cursor_code(vk),
{
    if vk == VK_UP {
        Some(0x41)
    } else if vk == VK_DOWN {
        Some(0x42)
    } else if vk == VK_RIGHT {
        Some(0x43)
    } else if vk == VK_LEFT {
        Some(0x44)
    } else if vk == VK_HOME {
        Some(0x48)
    } else if vk == VK_END {
        Some(0x46)
    } else {
        None
    }
}

fn tilde_number(vk: u16) -> (r: Option<u8>)
    ensures
        r == tilde_code(vk),
{
    if vk == VK_PRIOR {
        Some(5)
    } else if vk == VK_NEXT {
        Some(6)
    } else if vk == VK_INSERT {
        Some(2)
    } else if vk == VK_DELETE {
        Some(3)
    } else if vk == VK_F5 {
        Some(15)
    } else if VK_F6 <= vk && vk <= VK_F10 {
        Some((vk - VK_F6 + 17) as u8)
    } else if vk == VK_F11 {
        Some(23)
    } else if vk == VK_F12 {
        Some(24)
    } else {
        None
    }
}

fn one(b: u8) -> (v: Vec<u8>)
    ensures
        v@ == seq![b],
{
    let mut v: Vec<u8> = Vec::new();
    v.push(b);
    assert(v@ =~= seq![b]);
    v
}

fn two(a: u8, b: u8) -> (v: Vec<u8>)
    ensures
        v@ == seq![a, b],
{
    let mut v: Vec<u8> = Vec::new();
    v.push(a);
    v.push(b);
    assert(v@ =~= seq![a, b]);
    v
}

/// Encode a key press. Returns None when the key should type a character the
/// normal way. `mode` holds the bits of the emulator's modes, and `mapped` is
/// the code that the keyboard layout gives the key.
///
/// Where the application asked for unambiguous escape codes, Esc, modified
/// Enter, Tab, Backspace and Space, and Ctrl or Alt with a character are sent
/// as `CSI u`, so that Shift+Enter can be told from Enter.
pub fn encode_key(vk: u16, mods: &Mods, mode: u32, mapped: u32) -> (r: Option<Vec<u8>>)
    ensures
        ({
            let want = key_bytes(
                vk,
                *mods,
                modes::mode_has(mode, modes::APP_CURSOR),
                modes::mode_has(mode, modes::DISAMBIGUATE_ESC_CODES),
                base_code(vk, mapped),
            );
            match r {
                Some(v) => want == Some(v@),
                None => want is None,
            }
        }),
{
    let app = modes::contains(mode, modes::APP_CURSOR);
    let kitty = modes::contains(mode, modes::DISAMBIGUATE_ESC_CODES);
    let spelled = kitty && mods.any();
    if let Some(ch) = cursor_byte(vk) {
        return Some(send_cursor(mods, app, ch));
    }
    if let Some(n) = tilde_number(vk) {
        return Some(send_tilde(mods, n));
    }
    if vk == VK_RETURN {
        return Some(
            if spelled {
                send_csi_u(mods, 13)
            } else if mods.alt || mods.shift {
                two(0x1b, 0x0d)
            } else {
                one(0x0d)
            },
        );
    }
    if vk == VK_BACK {
        let b: u8 = if mods.ctrl { 0x08 } else { 0x7f };
        return Some(
            if spelled {
                send_csi_u(mods, 127)
            } else if mods.alt {
                two(0x1b, b)
            } else {
                one(b)
            },
        );
    }
    if vk == VK_TAB {
        if spelled {
            return Some(send_csi_u(mods, 9));
        }
        if mods.shift {
            let mut v = two(0x1b, 0x5b);
            v.push(0x5a);
            assert(v@ =~= seq![0x1b, 0x5b, 0x5a]);
            return Some(v);
        }
        return Some(one(0x09));
    }
    if vk == VK_ESCAPE {
        return Some(if kitty { send_csi_u(mods, 27) } else { one(0x1b) });
    }
    if vk == VK_SPACE && kitty && (mods.ctrl || mods.alt) {
        return Some(send_csi_u(mods, 32));
    }
    if vk == VK_SPACE && mods.ctrl {
        return Some(one(0x00));
    }
    if VK_F1 <= vk && vk <= VK_F4 {
        return Some(send_cursor(mods, true, 0x50 + (vk - VK_F1) as u8));
    }
    if kitty && (mods.ctrl || mods.alt) && !mods.altgr {
        return match base_char(vk, mapped) {
            Some(code) => Some(send_csi_u(mods, code)),
            None => None,
        };
    }
    None
}

/// Modifiers win over application cursor mode: with one down, a cursor key
/// sends the same in both modes.
pub proof fn law_modifiers_win(vk: u16, mods: Mods, kitty: bool, base: Option<u32>)
    requires
        mods.has_any(),
    ensures
        key_bytes(vk, mods, true, kitty, base) == key_bytes(vk, mods, false, kitty, base),
{
}

/// A letter or digit without Ctrl or Alt, or with AltGr, types a character
/// whatever the mode.
pub proof fn law_text_keys_type(vk: u16, mods: Mods, app: bool, kitty: bool, base: Option<u32>)
    requires
        0x30 <= vk <= 0x39 || 0x41 <= vk <= 0x5a,
        mods.altgr || (!mods.ctrl && !mods.alt),
    ensures
        key_bytes(vk, mods, app, kitty, base) is None,
{
}

/// What stands between the start and the end of a sequence for a key with a
/// parameter: nothing without modifiers, else a semicolon and one digit. Shift
/// counts one, Alt two, Ctrl four, on top of one.
pub open spec fn mods_field(mods: Mods) -> Seq<u8> {
    let s = if mods.shift { 1int } else { 0 };
    let a = if mods.alt { 2int } else { 0 };
    let c = if mods.ctrl { 4int } else { 0 };
    if s + a + c == 0 {
        Seq::empty()
    } else {
        seq![0x3b, (0x31 + s + a + c) as u8]
    }
}

proof fn lemma_mods_field(mods: Mods)
    ensures
        mods.has_any() ==> mods_field(mods) == seq![0x3bu8] + text::number(mods.xterm_code()),
        !mods.has_any() ==> mods_field(mods) == Seq::<u8>::empty(),
{
    let n = mods.xterm_code();
    assert(text::number(n) =~= seq![(0x30 + n) as u8]);
    if mods.has_any() {
        assert(mods_field(mods) =~= seq![0x3bu8] + text::number(n));
    }
}

/// The bytes that each cursor key ends with: Up A, Down B, Right C, Left D,
/// Home H, End F. Without modifiers they stand behind `ESC [`, in application
/// mode behind `ESC O`; with modifiers behind `ESC [ 1` and the modifiers.
pub proof fn law_cursor_keys(vk: u16, mods: Mods, app: bool, kitty: bool, base: Option<u32>, last: u8)
    requires
        (vk, last) == (0x26u16, 0x41u8) || (vk, last) == (0x28u16, 0x42u8) || (vk, last) == (
            0x27u16,
            0x43u8,
        ) || (vk, last) == (0x25u16, 0x44u8) || (vk, last) == (0x24u16, 0x48u8) || (vk, last) == (
            0x23u16,
            0x46u8,
        ),
    ensures
        key_bytes(vk, mods, app, kitty, base) == Some(
            if mods.shift || mods.alt || mods.ctrl {
                seq![0x1bu8, 0x5b, 0x31] + mods_field(mods) + seq![last]
            } else if app {
                seq![0x1bu8, 0x4f, last]
            } else {
                seq![0x1bu8, 0x5b, last]
            },
        ),
{
    lemma_mods_field(mods);
    if mods.has_any() {
        assert(seq![0x1bu8, 0x5b, 0x31] + mods_field(mods) + seq![last] =~= seq![
            0x1bu8,
            0x5b,
            0x31,
            0x3b,
        ] + text::number(mods.xterm_code()) + seq![last]);
    }
}

/// The number that an editing or function key is sent with: Insert 2, Delete
/// 3, Page Up 5, Page Down 6, F5 15, F6 to F10 from 17 on, F11 23, F12 24,
/// each between `ESC [` and a tilde, the modifiers before the tilde.
pub proof fn law_numbered_keys(vk: u16, mods: Mods, app: bool, kitty: bool, base: Option<u32>, n: Seq<u8>)
    requires
        ({
            ||| vk == 0x2d && n == seq![0x32u8]
            ||| vk == 0x2e && n == seq![0x33u8]
            ||| vk == 0x21 && n == seq![0x35u8]
            ||| vk == 0x22 && n == seq![0x36u8]
            ||| vk == 0x74 && n == seq![0x31u8, 0x35]
            ||| 0x75 <= vk <= 0x77 && n == seq![0x31u8, (vk - 0x75 + 0x37) as u8]
            ||| 0x78 <= vk <= 0x79 && n == seq![0x32u8, (vk - 0x78 + 0x30) as u8]
            ||| 0x7a <= vk <= 0x7b && n == seq![0x32u8, (vk - 0x7a + 0x33) as u8]
        }),
    ensures
        key_bytes(vk, mods, app, kitty, base) == Some(
            seq![0x1bu8, 0x5b] + n + mods_field(mods) + seq![0x7eu8],
        ),
{
    lemma_mods_field(mods);
    reveal_with_fuel(text::number, 3);
    let k = tilde_code(vk)->0 as nat;
    assert(text::number(k) =~= n);
}

/// F1 to F4 end with P to S, behind `ESC O`, or behind `ESC [ 1` and the
/// modifiers, whatever the modes.
pub proof fn law_first_function_keys(vk: u16, mods: Mods, app: bool, kitty: bool, base: Option<u32>)
    requires
        0x70 <= vk <= 0x73,
    ensures
        ({
            let last = (vk - 0x70 + 0x50) as u8;
            key_bytes(vk, mods, app, kitty, base) == Some(
                if mods.shift || mods.alt || mods.ctrl {
                    seq![0x1bu8, 0x5b, 0x31] + mods_field(mods) + seq![last]
                } else {
                    seq![0x1bu8, 0x4f, last]
                },
            )
        }),
{
    lemma_mods_field(mods);
    let last = (vk - 0x70 + 0x50) as u8;
    if mods.has_any() {
        assert(seq![0x1bu8, 0x5b, 0x31] + mods_field(mods) + seq![last] =~= seq![
            0x1bu8,
            0x5b,
            0x31,
            0x3b,
        ] + text::number(mods.xterm_code()) + seq![last]);
    }
}

/// Without unambiguous escape codes: Enter sends a carriage return, with an
/// escape before it for Shift or Alt; Backspace sends DEL, or BS with Ctrl, with
/// an escape before it for Alt; Tab sends a tab, or `ESC [ Z` with Shift; Escape
/// sends an escape; Ctrl and Space send a zero; other keys are left to type.
pub proof fn law_control_keys(mods: Mods, app: bool, base: Option<u32>)
    ensures
        ({
            let sent = |vk: u16| key_bytes(vk, mods, app, false, base);
            &&& sent(0x0d) == Some(
                if mods.shift || mods.alt {
                    seq![0x1bu8, 0x0d]
                } else {
                    seq![0x0du8]
                },
            )
            &&& sent(0x08) == Some(
                (if mods.alt {
                    seq![0x1bu8]
                } else {
                    Seq::empty()
                }) + seq![
                    if mods.ctrl {
                        0x08u8
                    } else {
                        0x7fu8
                    },
                ],
            )
            &&& sent(0x09) == Some(
                if mods.shift {
                    seq![0x1bu8, 0x5b, 0x5a]
                } else {
                    seq![0x09u8]
                },
            )
            &&& sent(0x1b) == Some(seq![0x1bu8])
            &&& sent(0x20) == (if mods.ctrl {
                Some(seq![0x00u8])
            } else {
                None
            })
            &&& forall|vk: u16|
                0x30 <= vk <= 0x5a || 0xa0 <= vk ==> key_bytes(vk, mods, app, false, base) is None
        }),
{
    let b = if mods.ctrl {
        0x08u8
    } else {
        0x7fu8
    };
    assert(seq![0x1bu8] + seq![b] =~= seq![0x1bu8, b]);
    assert(Seq::<u8>::empty() + seq![b] =~= seq![b]);
}

/// With unambiguous escape codes a modified key that types or controls is
/// spelled by the code of its character: Enter 13, Tab 9, Backspace 127, Escape
/// 27 even without modifiers, Space 32 and any other character with Ctrl or
/// Alt. What types a character without them is left alone.
pub proof fn law_spelled_keys(vk: u16, mods: Mods, app: bool, base: Option<u32>, code: u32)
    requires
        ({
            ||| vk == 0x0d && code == 13 && (mods.shift || mods.alt || mods.ctrl)
            ||| vk == 0x09 && code == 9 && (mods.shift || mods.alt || mods.ctrl)
            ||| vk == 0x08 && code == 127 && (mods.shift || mods.alt || mods.ctrl)
            ||| vk == 0x1b && code == 27
            ||| vk == 0x20 && code == 32 && (mods.ctrl || mods.alt)
            ||| (0x30 <= vk <= 0x5a || 0xa0 <= vk) && base == Some(code) && (mods.ctrl
                || mods.alt) && !mods.altgr
        }),
    ensures
        key_bytes(vk, mods, app, true, base) == Some(
            seq![0x1bu8, 0x5b] + text::number(code as nat) + mods_field(mods) + seq![0x75u8],
        ),
{
    lemma_mods_field(mods);
}

/// The base character of a letter key is the small letter, that of a digit key
/// the digit, whatever the layout; of another key it is what the layout gives
/// it in lower case, unless that is a control character.
pub proof fn law_base_codes(vk: u16, mapped: u32)
    ensures
        0x41 <= vk <= 0x5a ==> base_code(vk, mapped) == Some((vk + 0x20) as u32),
        0x30 <= vk <= 0x39 ==> base_code(vk, mapped) == Some(vk as u32),
        !(0x41 <= vk <= 0x5a || 0x30 <= vk <= 0x39) && mapped < 0x20 ==> base_code(vk, mapped)
            is None,
        !(0x41 <= vk <= 0x5a || 0x30 <= vk <= 0x39) && 0x20 <= mapped < 0x7f ==> base_code(
            vk,
            mapped,
        ) == Some(lower_first(mapped as char) as u32),
{
    assert(mapped < 0x80 ==> mapped & 0xffff == mapped) by (bit_vector);
}

} // verus!
