//! What the mouse, the wheel, typed characters and pasted text send to a
//! terminal.
use vstd::prelude::*;
use vstd::slice::*;
use crate::chrome::CellSpot;
use crate::images;
use crate::keys::Mods;
use crate::modes;
use crate::text;

verus! {

/// Text as the bytes it is sent as.
pub open spec fn sent(s: Seq<char>) -> Seq<u8> {
    vstd::utf8::encode_utf8(s)
}

/// The bytes of a string.
pub fn bytes_of(s: &str) -> (r: Vec<u8>)
    ensures
        r@ == sent(s@),
{
    slice_to_vec(s.as_bytes())
}

/// The number that stands for a button, with what else a report says of it.
pub open spec fn button_code(button: u8, motion: bool, mods: Mods) -> int {
    button + (if motion {
        32int
    } else {
        0
    }) + (if mods.alt {
        8int
    } else {
        0
    }) + (if mods.ctrl {
        16int
    } else {
        0
    })
}

/// The index nearest to `k` among `n`.
pub open spec fn within(k: int, n: int) -> int {
    if n <= 0 {
        0
    } else if k < n {
        k
    } else {
        n - 1
    }
}

pub fn at_most(k: u64, n: u16) -> (r: u64)
    ensures
        r == within(k as int, n as int),
        r < 0x1_0000,
{
    if n == 0 {
        0
    } else if k < n as u64 {
        k
    } else {
        n as u64 - 1
    }
}

/// A byte of the old mouse encoding, no greater than `most`.
pub open spec fn capped(v: int, most: int) -> u8 {
    if v < most {
        v as u8
    } else {
        most as u8
    }
}

/// A mouse report: in the SGR encoding, or in the old one.
pub open spec fn report(sgr: bool, code: int, col: int, row: int, pressed: bool) -> Seq<u8> {
    if sgr {
        seq![0x1bu8, 0x5b, 0x3c] + text::number(code as nat) + seq![0x3bu8] + text::number(
            (col + 1) as nat,
        ) + seq![0x3bu8] + text::number((row + 1) as nat) + seq![
            if pressed {
                0x4du8
            } else {
                0x6du8
            },
        ]
    } else {
        seq![
            0x1bu8,
            0x5b,
            0x4d,
            capped(
                32 + if pressed {
                    code
                } else {
                    3
                },
                255,
            ),
            capped(33 + col, 223),
            capped(33 + row, 223),
        ]
    }
}

/// What a terminal in the given mode is sent for the mouse. `None`: the mouse
/// is not the terminal's, because it did not ask or Shift is held. Nothing is
/// sent for a motion that was not asked for.
pub open spec fn mouse_bytes(
    mode: u32,
    mods: Mods,
    spot: CellSpot,
    cols: int,
    rows: int,
    button: u8,
    pressed: bool,
    motion: bool,
) -> Option<Seq<u8>> {
    if !modes::mode_meets(mode, modes::MOUSE_MODE) || mods.shift {
        None
    } else if motion && !modes::mode_meets(mode, modes::MOUSE_MOVES) {
        Some(Seq::empty())
    } else {
        Some(
            report(
                modes::mode_has(mode, modes::SGR_MOUSE),
                button_code(button, motion, mods),
                within(spot.col as int, cols),
                within(spot.row as int, rows),
                pressed,
            ),
        )
    }
}

fn capped_byte(v: u64, most: u8) -> (r: u8)
    ensures
        r == capped(v as int, most as int),
{
    if v < most as u64 {
        v as u8
    } else {
        most
    }
}

fn push_report(sgr: bool, code: u32, col: u64, row: u64, pressed: bool) -> (out: Vec<u8>)
    requires
        code <= 0xffff,
        col < 0x1_0000,
        row < 0x1_0000,
    ensures
        out@ == report(sgr, code as int, col as int, row as int, pressed),
{
    let mut out: Vec<u8> = Vec::new();
    out.push(0x1b);
    out.push(0x5b);
    if sgr {
        out.push(0x3c);
        assert(out@ =~= seq![0x1bu8, 0x5b, 0x3c]);
        text::push_number(&mut out, code as u64);
        out.push(0x3b);
        text::push_number(&mut out, col + 1);
        out.push(0x3b);
        text::push_number(&mut out, row + 1);
        out.push(
            if pressed {
                0x4d
            } else {
                0x6d
            },
        );
    } else {
        out.push(0x4d);
        let b: u64 = if pressed {
            code as u64
        } else {
            3
        };
        out.push(capped_byte(32 + b, 255));
        out.push(capped_byte(33 + col, 223));
        out.push(capped_byte(33 + row, 223));
    }
    assert(out@ =~= report(sgr, code as int, col as int, row as int, pressed));
    out
}

/// What to send a terminal for the mouse.
pub fn mouse_report(
    mode: u32,
    mods: &Mods,
    spot: CellSpot,
    cols: u16,
    rows: u16,
    button: u8,
    pressed: bool,
    motion: bool,
) -> (r: Option<Vec<u8>>)
    ensures
        match r {
            Some(v) => mouse_bytes(
                mode,
                *mods,
                spot,
                cols as int,
                rows as int,
                button,
                pressed,
                motion,
            ) == Some(v@),
            None => mouse_bytes(
                mode,
                *mods,
                spot,
                cols as int,
                rows as int,
                button,
                pressed,
                motion,
            ) is None,
        },
{
    if !modes::intersects(mode, modes::MOUSE_MODE) || mods.shift {
        return None;
    }
    if motion && !modes::intersects(mode, modes::MOUSE_MOVES) {
        let v: Vec<u8> = Vec::new();
        assert(v@ =~= Seq::empty());
        return Some(v);
    }
    let mut b: u32 = button as u32;
    if motion {
        b += 32;
    }
    if mods.alt {
        b += 8;
    }
    if mods.ctrl {
        b += 16;
    }
    Some(
        push_report(
            modes::contains(mode, modes::SGR_MOUSE),
            b,
            at_most(spot.col, cols),
            at_most(spot.row, rows),
            pressed,
        ),
    )
}

/// A turn of the wheel in lines: three to a notch of 120, rounded to the
/// nearest, a half away from zero.
pub open spec fn wheel_lines(delta: int) -> int {
    if delta >= 0 {
        (delta + 20) / 40
    } else {
        -((-delta + 20) / 40)
    }
}

pub fn lines_of(delta: i16) -> (r: i32)
    ensures
        r == wheel_lines(delta as int),
        -1000 <= r <= 1000,
{
    let d: i32 = delta as i32;
    if d >= 0 {
        (d + 20) / 40
    } else {
        -((-d + 20) / 40)
    }
}

/// The arrow key that the wheel stands for on the alternate screen.
pub open spec fn wheel_key(app: bool, up: bool) -> Seq<u8> {
    seq![
        0x1bu8,
        if app {
            0x4fu8
        } else {
            0x5bu8
        },
        if up {
            0x41u8
        } else {
            0x42u8
        },
    ]
}

/// `s`, `n` times over.
pub open spec fn repeated(s: Seq<u8>, n: int) -> Seq<u8>
    decreases n,
{
    if n <= 0 {
        Seq::empty()
    } else {
        repeated(s, n - 1) + s
    }
}

/// What a turn of the wheel over a terminal sends or does.
pub enum Wheel {
    Nothing,
    /// Send bytes to the terminal.
    Send(Vec<u8>),
    /// Scroll its display, up for a positive number.
    Scroll(i32),
}

/// What a turn of the wheel comes to.
pub enum WheelEffect {
    Nothing,
    Send(Seq<u8>),
    Scroll(int),
}

impl View for Wheel {
    type V = WheelEffect;

    open spec fn view(&self) -> WheelEffect {
        match self {
            Wheel::Nothing => WheelEffect::Nothing,
            Wheel::Send(v) => WheelEffect::Send(v@),
            Wheel::Scroll(n) => WheelEffect::Scroll(*n as int),
        }
    }
}

/// The wheel over a terminal: a press of a wheel button for each line where
/// the terminal has the mouse, arrow keys on an alternate screen that asked for
/// them, else scrolling.
pub open spec fn wheel_effect(
    mode: u32,
    mods: Mods,
    spot: CellSpot,
    cols: int,
    rows: int,
    lines: int,
) -> WheelEffect {
    let n = if lines < 0 {
        -lines
    } else {
        lines
    };
    if lines == 0 {
        WheelEffect::Nothing
    } else if modes::mode_meets(mode, modes::MOUSE_MODE) && !mods.shift {
        WheelEffect::Send(
            repeated(
                mouse_bytes(
                    mode,
                    mods,
                    spot,
                    cols,
                    rows,
                    if lines > 0 {
                        64
                    } else {
                        65
                    },
                    true,
                    false,
                )->0,
                n,
            ),
        )
    } else if modes::mode_has(mode, modes::ALT_SCREEN) && modes::mode_has(
        mode,
        modes::ALTERNATE_SCROLL,
    ) {
        WheelEffect::Send(
            repeated(wheel_key(modes::mode_has(mode, modes::APP_CURSOR), lines > 0), n),
        )
    } else {
        WheelEffect::Scroll(lines)
    }
}

fn repeat(s: &Vec<u8>, n: i32) -> (r: Vec<u8>)
    ensures
        r@ == repeated(s@, n as int),
{
    let mut r: Vec<u8> = Vec::new();
    let mut i: i32 = 0;
    while i < n
        invariant
            0 <= i,
            i <= n || n < 0,
            n < 0 ==> i == 0,
            r@ == repeated(s@, i as int),
        decreases n - i,
    {
        images::append_bytes(&mut r, s.as_slice());
        i += 1;
    }
    r
}

pub fn wheel(mode: u32, mods: &Mods, spot: CellSpot, cols: u16, rows: u16, lines: i32) -> (r: Wheel)
    requires
        -1000 <= lines <= 1000,
    ensures
        r@ == wheel_effect(mode, *mods, spot, cols as int, rows as int, lines as int),
{
    if lines == 0 {
        return Wheel::Nothing;
    }
    let n: i32 = if lines < 0 {
        -lines
    } else {
        lines
    };
    if modes::intersects(mode, modes::MOUSE_MODE) && !mods.shift {
        let button: u8 = if lines > 0 {
            64
        } else {
            65
        };
        return match mouse_report(mode, mods, spot, cols, rows, button, true, false) {
            Some(one) => Wheel::Send(repeat(&one, n)),
            None => Wheel::Nothing,
        };
    }
    if modes::contains(mode, modes::ALT_SCREEN) && modes::contains(mode, modes::ALTERNATE_SCROLL) {
        let mut one: Vec<u8> = Vec::new();
        one.push(0x1b);
        one.push(
            if modes::contains(mode, modes::APP_CURSOR) {
                0x4f
            } else {
                0x5b
            },
        );
        one.push(
            if lines > 0 {
                0x41
            } else {
                0x42
            },
        );
        assert(one@ =~= wheel_key(modes::mode_has(mode, modes::APP_CURSOR), lines > 0));
        return Wheel::Send(repeat(&one, n));
    }
    Wheel::Scroll(lines)
}

/// What a terminal is told when it gains or loses the focus, if it asked.
pub open spec fn focus_bytes(mode: u32, gained: bool) -> Option<Seq<u8>> {
    if modes::mode_has(mode, modes::FOCUS_IN_OUT) {
        Some(
            seq![
                0x1bu8,
                0x5b,
                if gained {
                    0x49u8
                } else {
                    0x4fu8
                },
            ],
        )
    } else {
        None
    }
}

pub fn focus_report(mode: u32, gained: bool) -> (r: Option<Vec<u8>>)
    ensures
        match r {
            Some(v) => focus_bytes(mode, gained) == Some(v@),
            None => focus_bytes(mode, gained) is None,
        },
{
    if !modes::contains(mode, modes::FOCUS_IN_OUT) {
        return None;
    }
    let mut v: Vec<u8> = Vec::new();
    v.push(0x1b);
    v.push(0x5b);
    v.push(
        if gained {
            0x49
        } else {
            0x4f
        },
    );
    assert(v@ =~= focus_bytes(mode, gained)->0);
    Some(v)
}

/// Text with every line end as a carriage return, which is what Enter sends.
pub open spec fn line_ends(s: Seq<char>) -> Seq<char>
    decreases s.len(),
{
    if s.len() == 0 {
        Seq::empty()
    } else if s.last() == '\n' {
        if s.len() >= 2 && s[s.len() - 2] == '\r' {
            line_ends(s.drop_last().drop_last()).push('\r')
        } else {
            line_ends(s.drop_last()).push('\r')
        }
    } else {
        line_ends(s.drop_last()).push(s.last())
    }
}

fn with_line_ends(s: &[char]) -> (r: String)
    ensures
        r@ == line_ends(s@),
{
    let mut r = String::new();
    let mut i: usize = 0;
    while i < s.len()
        invariant
            i <= s@.len(),
            r@ == line_ends(s@.take(i as int)),
            i < s@.len() && s@[i as int] == '\n' ==> i == 0 || s@[i - 1] != '\r',
        decreases s@.len() - i,
    {
        reveal_with_fuel(line_ends, 2);
        assert(s@.take(i + 1).drop_last() =~= s@.take(i as int));
        let n: usize = s.len();
        if s[i] == '\r' && i < n - 1 && s[i + 1] == '\n' {
            assert(s@.take(i + 2).drop_last() =~= s@.take(i + 1));
            r.push('\r');
            i += 2;
        } else {
            let c = if s[i] == '\n' {
                '\r'
            } else {
                s[i]
            };
            r.push(c);
            i += 1;
        }
    }
    assert(s@.take(i as int) =~= s@);
    r
}

/// What a paste sends: the text, between brackets where the terminal asked
/// for them.
pub open spec fn paste_sent(s: Seq<char>, mode: u32) -> Seq<u8> {
    if modes::mode_has(mode, modes::BRACKETED_PASTE) {
        seq![0x1bu8, 0x5b, 0x32, 0x30, 0x30, 0x7e] + sent(line_ends(s)) + seq![
            0x1bu8,
            0x5b,
            0x32,
            0x30,
            0x31,
            0x7e,
        ]
    } else {
        sent(line_ends(s))
    }
}

pub fn paste_bytes(s: &str, mode: u32) -> (r: Vec<u8>)
    ensures
        r@ == paste_sent(s@, mode),
{
    let body = with_line_ends(text::chars_of(s).as_slice());
    let mut r: Vec<u8> = Vec::new();
    if modes::contains(mode, modes::BRACKETED_PASTE) {
        let open: [u8; 6] = [0x1b, 0x5b, 0x32, 0x30, 0x30, 0x7e];
        let close: [u8; 6] = [0x1b, 0x5b, 0x32, 0x30, 0x31, 0x7e];
        images::append_bytes(&mut r, open.as_slice());
        assert(r@ =~= seq![0x1bu8, 0x5b, 0x32, 0x30, 0x30, 0x7e]);
        images::append_bytes(&mut r, body.as_str().as_bytes());
        images::append_bytes(&mut r, close.as_slice());
        assert(close@ =~= seq![0x1bu8, 0x5b, 0x32, 0x30, 0x31, 0x7e]);
        assert(r@ =~= paste_sent(s@, mode));
    } else {
        images::append_bytes(&mut r, body.as_str().as_bytes());
        assert(r@ =~= paste_sent(s@, mode));
    }
    r
}

/// A pasted text holds no line feed: nothing of it is run but what its line
/// ends, sent as Enter, run.
pub proof fn law_paste_has_no_line_feed(s: Seq<char>)
    ensures
        !line_ends(s).contains('\n'),
    decreases s.len(),
{
    if s.len() > 0 {
        law_paste_has_no_line_feed(s.drop_last());
        let a = line_ends(s.drop_last());
        assert(!a.push('\r').contains('\n')) by {
            if a.push('\r').contains('\n') {
                let i = choose|i: int| 0 <= i < a.push('\r').len() && a.push('\r')[i] == '\n';
                assert(a[i] == '\n');
            }
        }
        if s.last() == '\n' {
            if s.len() >= 2 && s[s.len() - 2] == '\r' {
                law_paste_has_no_line_feed(s.drop_last().drop_last());
                let b = line_ends(s.drop_last().drop_last());
                if b.push('\r').contains('\n') {
                    let i = choose|i: int| 0 <= i < b.push('\r').len() && b.push('\r')[i] == '\n';
                    assert(b[i] == '\n');
                }
            }
        } else if a.push(s.last()).contains('\n') {
            let i = choose|i: int| 0 <= i < a.push(s.last()).len() && a.push(s.last())[i] == '\n';
            assert(a[i] == '\n');
        }
    }
}

/// A UTF-16 unit that opens a pair.
pub open spec fn is_high(code: u16) -> bool {
    0xd800 <= code < 0xdc00
}

/// A UTF-16 unit that closes a pair.
pub open spec fn is_low(code: u16) -> bool {
    0xdc00 <= code < 0xe000
}

/// The code point of a pair.
pub open spec fn paired(high: u16, low: u16) -> int {
    0x10000 + (high - 0xd800) * 0x400 + (low - 0xdc00)
}

/// The character that a UTF-16 unit completes, after the opening unit
/// `pending`.
pub open spec fn typed_char(pending: Option<u16>, code: u16) -> Option<char> {
    if is_high(code) {
        None
    } else if is_low(code) {
        match pending {
            Some(high) if is_high(high) => Some(paired(high, code) as char),
            _ => None,
        }
    } else {
        Some(code as char)
    }
}

/// The opening unit that waits after `code`.
pub open spec fn still_pending(pending: Option<u16>, code: u16) -> Option<u16> {
    if is_high(code) {
        Some(code)
    } else if is_low(code) {
        None
    } else {
        pending
    }
}

/// Take a UTF-16 unit of typed text; characters beyond the first 65536 come
/// as two.
pub fn take_unit(pending: &mut Option<u16>, code: u16) -> (r: Option<char>)
    requires
        *old(pending) matches Some(h) ==> is_high(h),
    ensures
        r == typed_char(*old(pending), code),
        *final(pending) == still_pending(*old(pending), code),
        *final(pending) matches Some(h) ==> is_high(h),
{
    if 0xd800 <= code && code < 0xdc00 {
        *pending = Some(code);
        return None;
    }
    if 0xdc00 <= code && code < 0xe000 {
        let high: u16 = match *pending {
            Some(h) => h,
            None => {
                return None;
            },
        };
        *pending = None;
        let c: u32 = 0x10000 + (high as u32 - 0xd800) * 0x400 + (code as u32 - 0xdc00);
        return char::from_u32(c);
    }
    char::from_u32(code as u32)
}

/// The bytes of one character.
pub fn char_bytes(c: char) -> (r: Vec<u8>)
    ensures
        r@ == sent(seq![c]),
{
    let mut s = String::new();
    s.push(c);
    assert(s@ =~= seq![c]);
    bytes_of(s.as_str())
}

/// A report in the SGR encoding names the button, the column and the row, both
/// counted from one, and ends in M for a press and in m for a release. The
/// button counts 32 more for a motion, 8 more with Alt, 16 more with Ctrl.
pub proof fn law_sgr_report(
    mode: u32,
    mods: Mods,
    spot: CellSpot,
    cols: int,
    rows: int,
    button: u8,
    pressed: bool,
    motion: bool,
)
    requires
        mode & 0x2048 != 0,
        mode & 0x20 == 0x20,
        motion ==> mode & 0x2040 != 0,
        !mods.shift,
        spot.col < cols,
        spot.row < rows,
    ensures
        ({
            let code = button as int + (if motion { 32int } else { 0 }) + (if mods.alt { 8int } else {
                0
            }) + (if mods.ctrl { 16int } else { 0 });
            mouse_bytes(mode, mods, spot, cols, rows, button, pressed, motion) == Some(
                seq![0x1bu8, 0x5b, 0x3c] + text::number(code as nat) + seq![0x3bu8] + text::number(
                    (spot.col + 1) as nat,
                ) + seq![0x3bu8] + text::number((spot.row + 1) as nat) + (if pressed {
                    seq![0x4du8]
                } else {
                    seq![0x6du8]
                }),
            )
        }),
{
}

/// The mouse belongs to the terminal only where that asked for it and Shift is
/// up; motions are reported only where those were asked for. A place beyond the
/// edge counts as the one at the edge.
pub proof fn law_mouse_goes_to_terminal(
    mode: u32,
    mods: Mods,
    spot: CellSpot,
    cols: int,
    rows: int,
    button: u8,
    pressed: bool,
    motion: bool,
)
    ensures
        mouse_bytes(mode, mods, spot, cols, rows, button, pressed, motion) is Some <==> mode & 0x2048
            != 0 && !mods.shift,
        mode & 0x2048 != 0 && !mods.shift && mode & 0x2040 == 0 ==> mouse_bytes(
            mode,
            mods,
            spot,
            cols,
            rows,
            button,
            pressed,
            true,
        ) == Some(Seq::<u8>::empty()),
        spot.col >= cols > 0 ==> mouse_bytes(mode, mods, spot, cols, rows, button, pressed, motion)
            == mouse_bytes(
            mode,
            mods,
            CellSpot { col: (cols - 1) as u64, ..spot },
            cols,
            rows,
            button,
            pressed,
            motion,
        ),
        spot.row >= rows > 0 ==> mouse_bytes(mode, mods, spot, cols, rows, button, pressed, motion)
            == mouse_bytes(
            mode,
            mods,
            CellSpot { row: (rows - 1) as u64, ..spot },
            cols,
            rows,
            button,
            pressed,
            motion,
        ),
{
}

/// The old encoding: three bytes behind `ESC [ M`, the button from 32 on, or 35
/// for any release, and column and row from 33 on, none beyond 223.
pub proof fn law_old_report(code: int, col: int, row: int, pressed: bool)
    requires
        0 <= code < 200,
        0 <= col,
        0 <= row,
    ensures
        ({
            let b = report(false, code, col, row, pressed);
            &&& b.len() == 6
            &&& b[0] == 0x1b && b[1] == 0x5b && b[2] == 0x4d
            &&& b[3] == (if pressed { code + 32 } else { 35 })
            &&& b[4] == (if col < 190 { col + 33 } else { 223 })
            &&& b[5] == (if row < 190 { row + 33 } else { 223 })
        }),
{
}

/// A turn of the wheel is as many lines one way as the same turn is the other
/// way, three to a notch and to the nearest line.
pub proof fn law_wheel_lines(delta: int)
    ensures
        wheel_lines(-delta) == -wheel_lines(delta),
        -20 <= 40 * wheel_lines(delta) - delta <= 20,
        delta > 20 ==> wheel_lines(delta) > 0,
{
}

proof fn lemma_repeated(s: Seq<u8>, n: int)
    requires
        0 <= n,
    ensures
        repeated(s, n).len() == n * s.len(),
    decreases n,
{
    if n > 0 {
        lemma_repeated(s, n - 1);
        assert((n - 1) * s.len() + s.len() == n * s.len()) by (nonlinear_arith);
    } else {
        assert(0 * s.len() == 0) by (nonlinear_arith);
    }
}

/// The wheel over a terminal without the mouse scrolls as many lines as it was
/// turned, up for a turn up. One that has the mouse gets a press of the fourth
/// button for each line up, of the fifth for each line down. An alternate
/// screen that asked for it gets the arrow key that way for each line.
pub proof fn law_wheel(mode: u32, mods: Mods, spot: CellSpot, cols: int, rows: int, lines: int)
    requires
        lines != 0,
    ensures
        ({
            let n = if lines < 0 { -lines } else { lines };
            let e = wheel_effect(mode, mods, spot, cols, rows, lines);
            let taken = mode & 0x2048 != 0 && !mods.shift;
            let none = Mods { shift: false, ctrl: false, alt: false, altgr: false };
            &&& !taken && mode & 0x9000 != 0x9000 ==> e == WheelEffect::Scroll(lines)
            &&& taken ==> (e matches WheelEffect::Send(b) && b == repeated(
                mouse_bytes(
                    mode,
                    mods,
                    spot,
                    cols,
                    rows,
                    if lines > 0 { 64u8 } else { 65u8 },
                    true,
                    false,
                )->0,
                n,
            ))
            &&& !taken && mode & 0x9000 == 0x9000 ==> (e matches WheelEffect::Send(b) && b
                == repeated(
                crate::keys::key_bytes(
                    if lines > 0 { 0x26u16 } else { 0x28u16 },
                    none,
                    mode & 2 == 2,
                    false,
                    None,
                )->0,
                n,
            ))
        }),
{
    assert((mode & 0x9000 == 0x9000) == (mode & 0x1000 == 0x1000 && mode & 0x8000 == 0x8000))
        by (bit_vector);
}

/// Repeating bytes gives them one after the other, as often as asked.
pub proof fn law_repeated(s: Seq<u8>, n: int)
    ensures
        n <= 0 ==> repeated(s, n) == Seq::<u8>::empty(),
        n > 0 ==> repeated(s, n) == repeated(s, n - 1) + s,
        n >= 0 ==> repeated(s, n).len() == n * s.len(),
{
    if n >= 0 {
        lemma_repeated(s, n);
    }
}

/// A terminal that asked is told `ESC [ I` when it gains the focus and
/// `ESC [ O` when it loses it; one that did not ask is told nothing.
pub proof fn law_focus_reports(mode: u32, gained: bool)
    ensures
        mode & 0x800 == 0x800 ==> focus_bytes(mode, gained) == Some(
            if gained {
                seq![0x1bu8, 0x5b, 0x49]
            } else {
                seq![0x1bu8, 0x5b, 0x4f]
            },
        ),
        mode & 0x800 != 0x800 ==> focus_bytes(mode, gained) is None,
{
}

/// A paste keeps the text: every line end, however it is written, becomes one
/// carriage return, and nothing else changes. Text can be pasted in pieces that
/// are not cut inside a line end.
pub proof fn law_line_ends(a: Seq<char>, b: Seq<char>)
    requires
        !(a.len() > 0 && a.last() == '\r' && b.len() > 0 && b[0] == '\n'),
    ensures
        line_ends(a + b) == line_ends(a) + line_ends(b),
        line_ends(seq!['\n']) == seq!['\r'],
        line_ends(seq!['\r']) == seq!['\r'],
        line_ends(seq!['\r', '\n']) == seq!['\r'],
        forall|c: char| c != '\n' ==> #[trigger] line_ends(seq![c]) == seq![c],
    decreases b.len(),
{
    reveal_with_fuel(line_ends, 3);
    let none = Seq::<char>::empty();
    assert(seq!['\n'].drop_last() =~= none);
    assert(seq!['\r'].drop_last() =~= none);
    assert(seq!['\r', '\n'].drop_last().drop_last() =~= none);
    assert(none.push('\r') =~= seq!['\r']);
    assert forall|c: char| c != '\n' implies #[trigger] line_ends(seq![c]) == seq![c] by {
        assert(seq![c].drop_last() =~= none);
        assert(none.push(c) =~= seq![c]);
    }
    if b.len() == 0 {
        assert(a + b =~= a);
        assert(line_ends(a) + none =~= line_ends(a));
    } else {
        let s = a + b;
        assert(s.drop_last() =~= a + b.drop_last());
        if b.len() > 1 {
            law_line_ends(a, b.drop_last());
            law_line_ends(a, b.drop_last().drop_last());
            assert(s.drop_last().drop_last() =~= a + b.drop_last().drop_last());
            assert(s[s.len() - 2] == b[b.len() - 2]);
        } else {
            assert(b.drop_last() =~= none);
            assert(s.drop_last() =~= a);
            if a.len() > 0 {
                assert(s[s.len() - 2] == a.last());
            }
            assert(line_ends(b.drop_last()) =~= none);
        }
        assert(line_ends(s) =~= line_ends(a) + line_ends(b));
    }
}

/// A paste stands between `ESC [ 2 0 0 ~` and `ESC [ 2 0 1 ~` where the
/// terminal asked for it, and is sent bare otherwise.
pub proof fn law_paste_brackets(s: Seq<char>, mode: u32)
    ensures
        mode & 0x10 == 0 ==> paste_sent(s, mode) == sent(line_ends(s)),
        mode & 0x10 == 0x10 ==> paste_sent(s, mode) == seq![0x1bu8, 0x5b, 0x32, 0x30, 0x30, 0x7e]
            + sent(line_ends(s)) + seq![0x1bu8, 0x5b, 0x32, 0x30, 0x31, 0x7e],
{
    assert(mode & 0x10 == 0 ==> mode & 0x10 != 0x10) by (bit_vector);
}

/// A character that comes in two units is put together again; any other comes
/// out at once, and half a pair alone gives nothing.
pub proof fn law_surrogates(c: char, pending: Option<u16>)
    ensures
        ({
            let n = c as int;
            let high = (0xd800 + (n - 0x10000) / 0x400) as u16;
            let low = (0xdc00 + (n - 0x10000) % 0x400) as u16;
            &&& n >= 0x10000 ==> typed_char(pending, high) is None && typed_char(
                still_pending(pending, high),
                low,
            ) == Some(c)
            &&& n < 0x10000 ==> typed_char(pending, n as u16) == Some(c)
            &&& n >= 0x10000 ==> typed_char(None, low) is None
        }),
{
}

} // verus!
