//! What each message of the window system does to a window.
use vstd::prelude::*;
use crate::actions;
use crate::chrome;
use crate::config::Profile;
use crate::ctl;
use crate::ctl::CtlReq;
use crate::keyboard;
use crate::keys;
use crate::keys::Mods;
use crate::mouse;
use crate::pane_tree;
use crate::pane_tree::{Dir, PaneId};
use crate::scripting::Action;
use crate::tab_ops;
use crate::tabs;
use crate::tabs::{Pane, PaneKind, Tab, TabModel};
use crate::term_pane;
use crate::window;
use crate::window::{Act, Frame, PixelPoint, TermWindow, Win};

verus! {

pub const WM_CREATE: u32 = 0x1;

pub const WM_DESTROY: u32 = 0x2;

pub const WM_SIZE: u32 = 0x5;

pub const WM_SETFOCUS: u32 = 0x7;

pub const WM_KILLFOCUS: u32 = 0x8;

pub const WM_PAINT: u32 = 0xf;

pub const WM_CLOSE: u32 = 0x10;

pub const WM_ERASEBKGND: u32 = 0x14;

pub const WM_SETCURSOR: u32 = 0x20;

pub const WM_COPYDATA: u32 = 0x4a;

pub const WM_NCCALCSIZE: u32 = 0x83;

pub const WM_NCHITTEST: u32 = 0x84;

pub const WM_NCMOUSEMOVE: u32 = 0xa0;

pub const WM_NCLBUTTONDOWN: u32 = 0xa1;

pub const WM_NCLBUTTONUP: u32 = 0xa2;

pub const WM_NCRBUTTONUP: u32 = 0xa5;

pub const WM_KEYDOWN: u32 = 0x100;

pub const WM_CHAR: u32 = 0x102;

pub const WM_SYSKEYDOWN: u32 = 0x104;

pub const WM_SYSCHAR: u32 = 0x106;

pub const WM_TIMER: u32 = 0x113;

pub const WM_CTLCOLOREDIT: u32 = 0x133;

pub const WM_MOUSEMOVE: u32 = 0x200;

pub const WM_LBUTTONDOWN: u32 = 0x201;

pub const WM_LBUTTONUP: u32 = 0x202;

pub const WM_LBUTTONDBLCLK: u32 = 0x203;

pub const WM_RBUTTONDOWN: u32 = 0x204;

pub const WM_MBUTTONUP: u32 = 0x208;

pub const WM_MOUSEWHEEL: u32 = 0x20a;

pub const WM_NCMOUSELEAVE: u32 = 0x2a2;

pub const WM_DPICHANGED: u32 = 0x2e0;

pub const WM_HOTKEY: u32 = 0x312;

pub const WM_APP_TERM_DIRTY: u32 = 0x8001;

pub const WM_APP_TERM_EVENT: u32 = 0x8002;

pub const WM_APP_PANE_EXITED: u32 = 0x8003;

pub const WM_APP_WEBVIEW_READY: u32 = 0x8004;

pub const WM_APP_URL_ENTER: u32 = 0x8005;

pub const WM_APP_DUMP_FRAME: u32 = 0x8009;

pub const WM_APP_DEBUG_ACTION: u32 = 0x800a;

pub const WM_APP_DROP_FILES: u32 = 0x800b;

/// Timer of the poll for changed settings.
pub const CONFIG_TIMER_ID: u64 = 0xba2;

/// Timer that takes an announcement away.
pub const TOAST_TIMER_ID: u64 = 0xba3;

pub const HTCLIENT: u32 = 1;

pub const HTCAPTION: u32 = 2;

pub const HTMINBUTTON: u32 = 8;

pub const HTMAXBUTTON: u32 = 9;

pub const HTTOP: u32 = 12;

pub const HTCLOSE: u32 = 20;

pub const SC_MINIMIZE: u32 = 0xf020;

pub const SC_MAXIMIZE: u32 = 0xf030;

pub const SC_CLOSE: u32 = 0xf060;

pub const SC_RESTORE: u32 = 0xf120;

/// Data that another program sent.
pub struct CopyData {
    pub magic: usize,
    pub has_data: bool,
    /// The request that the data spells, if it spells one.
    pub request: Option<CtlReq>,
}

/// What a message comes with, and what is asked of the window system for it.
pub struct Surroundings {
    pub mods: Mods,
    /// The code that the keyboard layout gives a key.
    pub mapped: u32,
    /// What a binding of the script for a key asked for.
    pub bound: Option<Vec<Action>>,
    pub profiles: Vec<Profile>,
    /// The pointer on the screen.
    pub pointer: PixelPoint,
    /// The pointer in the window.
    pub client: PixelPoint,
    /// Another window whose tab bar is under the pointer, and the place there.
    pub elsewhere: Option<(i64, usize)>,
    /// The address under the pointer.
    pub link: Option<String>,
    pub maximized: bool,
    /// Height of the resize border.
    pub border: i32,
    /// What the system makes of a hit.
    pub default_hit: i64,
    pub edit_brush: i64,
    pub copy: Option<CopyData>,
    /// Messages of tests are taken.
    pub debug: bool,
}

/// The answer to a message.
#[derive(Clone, Copy, PartialEq, Eq, Debug, Structural)]
pub enum Reply {
    /// It is none of these messages.
    Other,
    /// The system is to handle it, too.
    Default,
    Answer(i64),
}

pub open spec fn low(v: u32) -> u16 {
    (v % 0x1_0000) as u16
}

pub open spec fn high(v: u32) -> u16 {
    (v / 0x1_0000) as u16
}

/// A 16-bit word as a signed number.
pub open spec fn signed(v: u16) -> int {
    if v >= 0x8000 {
        v - 0x1_0000
    } else {
        v as int
    }
}

pub fn loword(v: u32) -> (r: u16)
    ensures
        r == low(v),
{
    (v % 0x1_0000) as u16
}

pub fn hiword(v: u32) -> (r: u16)
    ensures
        r == high(v),
{
    (v / 0x1_0000) as u16
}

fn sign(v: u16) -> (r: i32)
    ensures
        r == signed(v),
        -0x8000 <= r <= 0x7fff,
{
    if v >= 0x8000 {
        v as i32 - 0x1_0000
    } else {
        v as i32
    }
}

/// The point that a mouse message names.
pub open spec fn mouse_point(w: Win, lp: u32) -> (i64, i64) {
    (
        chrome::length_of(signed(low(lp)), w.frame.dpi) as i64,
        chrome::length_of(signed(high(lp)), w.frame.dpi) as i64,
    )
}

/// The pointer in the window, as a point.
pub open spec fn client_point(w: Win, p: PixelPoint) -> (i64, i64) {
    (
        chrome::length_of(p.x as int, w.frame.dpi) as i64,
        chrome::length_of(p.y as int, w.frame.dpi) as i64,
    )
}

pub open spec fn is_caption(code: u32) -> bool {
    code == HTMINBUTTON || code == HTMAXBUTTON || code == HTCLOSE
}

/// What part of the window is under a point: the border above, a caption
/// button, a tab, or empty space of the tab bar, which drags the window.
pub open spec fn hit_of(w: Win, env: Surroundings) -> i64 {
    let b = window::bar_of(w);
    let (x, y) = client_point(w, env.client);
    if env.default_hit != HTCLIENT {
        env.default_hit
    } else if env.client.y < env.border && !env.maximized {
        HTTOP as i64
    } else if y < chrome::TABBAR_H {
        if pane_tree::area_has(chrome::caption_area(b.width as int, 3), x as int, y as int) {
            HTMINBUTTON as i64
        } else if pane_tree::area_has(
            chrome::caption_area(b.width as int, 2),
            x as int,
            y as int,
        ) {
            HTMAXBUTTON as i64
        } else if pane_tree::area_has(
            chrome::caption_area(b.width as int, 1),
            x as int,
            y as int,
        ) {
            HTCLOSE as i64
        } else if chrome::tab_hit(b, x as int, y as int) is Some || pane_tree::area_has(
            chrome::plus_area(b),
            x as int,
            y as int,
        ) {
            HTCLIENT as i64
        } else {
            HTCAPTION as i64
        }
    } else {
        HTCLIENT as i64
    }
}

/// Messages about the window's life and its frame.
pub open spec fn frame_message(w: Win, msg: u32, wp: u64, lp: u32, env: Surroundings) -> (
    Win,
    Reply,
) {
    let code = (wp % 0x1_0000_0000) as u32;
    if msg == WM_CREATE {
        (window::did(w, Act::Create), Reply::Answer(0))
    } else if msg == WM_DESTROY {
        (window::did(w, Act::RevokeDrops), Reply::Default)
    } else if msg == WM_NCCALCSIZE {
        if wp != 0 && w.frame.custom {
            (window::did(w, Act::ClaimFrame), Reply::Answer(0))
        } else {
            (w, Reply::Default)
        }
    } else if msg == WM_NCHITTEST {
        if w.frame.custom {
            (w, Reply::Answer(hit_of(w, env)))
        } else {
            (w, Reply::Default)
        }
    } else if msg == WM_NCMOUSEMOVE {
        let hot = if is_caption(code) {
            Some(code)
        } else {
            None
        };
        let w1 = if hot != w.hot_caption {
            window::did(Win { hot_caption: hot, ..w }, Act::Invalidate)
        } else {
            w
        };
        (window::did(w1, Act::TrackLeave), Reply::Default)
    } else if msg == WM_NCMOUSELEAVE {
        if w.hot_caption is Some {
            (window::did(Win { hot_caption: None, ..w }, Act::Invalidate), Reply::Default)
        } else {
            (w, Reply::Default)
        }
    } else if msg == WM_NCLBUTTONDOWN {
        if is_caption(code) {
            (w, Reply::Answer(0))
        } else {
            (w, Reply::Default)
        }
    } else if msg == WM_NCLBUTTONUP {
        if is_caption(code) {
            let cmd = if code == HTMINBUTTON {
                SC_MINIMIZE
            } else if code == HTMAXBUTTON {
                if env.maximized {
                    SC_RESTORE
                } else {
                    SC_MAXIMIZE
                }
            } else {
                SC_CLOSE
            };
            (window::did(w, Act::SysCommand(cmd)), Reply::Answer(0))
        } else {
            (w, Reply::Default)
        }
    } else if msg == WM_NCRBUTTONUP {
        if code == HTCAPTION {
            let at = PixelPoint { x: signed(low(lp)) as i32, y: signed(high(lp)) as i32 };
            (window::did(w, Act::SystemMenu(at)), Reply::Answer(0))
        } else {
            (w, Reply::Default)
        }
    } else if msg == WM_CLOSE {
        (
            window::did(window::did(w, Act::SaveSession), Act::Destroy),
            Reply::Answer(0),
        )
    } else {
        (w, Reply::Other)
    }
}

/// Messages about painting, size, resolution, focus and time.
pub open spec fn state_message(w: Win, msg: u32, wp: u64, lp: u32, env: Surroundings) -> (
    Win,
    Reply,
) {
    if msg == WM_PAINT {
        (window::did(w, Act::Paint), Reply::Answer(0))
    } else if msg == WM_ERASEBKGND {
        (w, Reply::Answer(1))
    } else if msg == WM_SIZE {
        let w1 = Win { frame: Frame { width: low(lp), height: high(lp), ..w.frame }, ..w };
        if low(lp) > 0 && high(lp) > 0 {
            (
                window::did(
                    window::did(
                        window::did(
                            w1,
                            Act::ResizeTarget { width: low(lp), height: high(lp) },
                        ),
                        Act::Relayout,
                    ),
                    Act::Invalidate,
                ),
                Reply::Answer(0),
            )
        } else {
            (w1, Reply::Answer(0))
        }
    } else if msg == WM_DPICHANGED {
        let w1 = Win {
            frame: Frame { dpi: (wp % 0x1_0000) as u32, ..w.frame },
            ..w
        };
        (
            window::did(
                window::did(window::did(w1, Act::DpiChanged), Act::Relayout),
                Act::Invalidate,
            ),
            Reply::Answer(0),
        )
    } else if msg == WM_SETFOCUS || msg == WM_KILLFOCUS {
        let w1 = Win { focused: msg == WM_SETFOCUS, ..w };
        (window::did(window::synced(w1), Act::Invalidate), Reply::Answer(0))
    } else if msg == WM_HOTKEY {
        (window::did(w, Act::ToggleQuake), Reply::Answer(0))
    } else if msg == WM_TIMER {
        if wp == CONFIG_TIMER_ID {
            (window::did(w, Act::PollConfig), Reply::Answer(0))
        } else if wp == TOAST_TIMER_ID {
            let w1 = window::did(w, Act::KillToastTimer);
            if w.toast is Some {
                (window::did(Win { toast: None, ..w1 }, Act::Invalidate), Reply::Answer(0))
            } else {
                (w1, Reply::Answer(0))
            }
        } else {
            (w, Reply::Default)
        }
    } else if msg == WM_CTLCOLOREDIT {
        (window::did(w, Act::ColorEdit), Reply::Answer(env.edit_brush))
    } else {
        (w, Reply::Other)
    }
}

/// Messages of the keyboard.
pub open spec fn key_message(w: Win, msg: u32, wp: u64, env: Surroundings) -> (Win, Reply) {
    let code = (wp % 0x1_0000) as u16;
    if msg == WM_KEYDOWN || msg == WM_SYSKEYDOWN {
        let (w1, taken) = keyboard::key_pressed(
            w,
            code,
            env.mods,
            keyboard::bound_view(env.bound),
            env.profiles@,
            keys::base_code(code, env.mapped),
        );
        if taken || msg == WM_KEYDOWN {
            (w1, Reply::Answer(0))
        } else {
            (w1, Reply::Default)
        }
    } else if msg == WM_CHAR {
        (keyboard::char_typed(w, code), Reply::Answer(0))
    } else if msg == WM_SYSCHAR {
        let (w1, taken) = keyboard::alt_char_typed(w, code);
        (
            w1,
            if taken {
                Reply::Answer(0)
            } else {
                Reply::Default
            },
        )
    } else {
        (w, Reply::Other)
    }
}

/// Messages of the mouse.
pub open spec fn mouse_message(w: Win, msg: u32, wp: u64, lp: u32, env: Surroundings) -> (
    Win,
    Reply,
) {
    let at = mouse_point(w, lp);
    let x = at.0 as int;
    let y = at.1 as int;
    let inside = client_point(w, env.client);
    if msg == WM_LBUTTONDOWN {
        (
            mouse::left_pressed(w, at, env.mods, term_pane::opt_chars(env.link)),
            Reply::Answer(0),
        )
    } else if msg == WM_LBUTTONDBLCLK {
        (mouse::left_doubled(w, x, y, env.mods), Reply::Answer(0))
    } else if msg == WM_LBUTTONUP {
        (
            mouse::left_released(w, x, y, env.mods, env.pointer, env.elsewhere),
            Reply::Answer(0),
        )
    } else if msg == WM_RBUTTONDOWN {
        (mouse::right_pressed(w, at, env.mods), Reply::Answer(0))
    } else if msg == WM_MOUSEMOVE {
        (mouse::pointer_moved(w, at, wp % 2 == 1, env.mods), Reply::Answer(0))
    } else if msg == WM_MOUSEWHEEL {
        (
            mouse::wheel_turned(
                w,
                inside.0 as int,
                inside.1 as int,
                signed(high((wp % 0x1_0000_0000) as u32)),
                env.mods,
            ),
            Reply::Answer(0),
        )
    } else if msg == WM_MBUTTONUP {
        match chrome::tab_hit(window::bar_of(w), x, y) {
            Some(i) => (tab_ops::closing(w, i), Reply::Answer(0)),
            None => (w, Reply::Answer(0)),
        }
    } else if msg == WM_SETCURSOR {
        if low(lp) == HTCLIENT {
            (
                window::did(
                    w,
                    Act::SetCursor(
                        mouse::cursor_at(
                            w,
                            inside.0 as int,
                            inside.1 as int,
                            env.mods,
                            env.link is Some,
                        ),
                    ),
                ),
                Reply::Answer(1),
            )
        } else {
            (w, Reply::Default)
        }
    } else {
        (w, Reply::Other)
    }
}

/// What an action of a test does.
pub open spec fn debug_run(w: Win, n: u64, lp: u32) -> Win {
    if n == 1 {
        window::did(w, Act::Split(Dir::Row))
    } else if n == 2 {
        window::did(w, Act::Split(Dir::Col))
    } else if n == 3 {
        window::did(w, Act::NewTab(None))
    } else if n == 4 {
        window::did(w, Act::BrowserSplit)
    } else if n == 5 {
        window::switched(w, keyboard::tab_behind(w))
    } else if n == 6 {
        tab_ops::zoom_toggled(w)
    } else if n == 7 {
        tab_ops::active_closed(w)
    } else if n == 8 {
        tab_ops::focus_moved(w, 1, 0)
    } else if n == 9 {
        tab_ops::focus_moved(w, -1, 0)
    } else if n == 10 {
        tab_ops::detaching(w, w.active, Some(PixelPoint { x: 300, y: 300 }))
    } else if n == 11 {
        tab_ops::font_set(w, window::font_of(w) + 2000)
    } else if n == 12 {
        tab_ops::profile_tab(w, lp as usize)
    } else if n == 13 {
        match window::current(w) {
            Some(t) => tab_ops::pane_moved_out(w, t.active),
            None => w,
        }
    } else if n == 14 {
        window::did(w, Act::DropSample(lp))
    } else if n == 15 {
        actions::search_toggled(w)
    } else if n == 16 {
        window::did(w, Act::AskPalette)
    } else if n == 17 {
        actions::hints_asked(w)
    } else if n == 18 {
        window::did(w, Act::AskNextTheme)
    } else if n == 19 {
        actions::cheatsheet_toggled(w)
    } else {
        w
    }
}

/// Messages of the program itself.
pub open spec fn app_message(w: Win, msg: u32, wp: u64, lp: u32, env: Surroundings) -> (
    Win,
    Reply,
) {
    if msg == WM_APP_TERM_DIRTY {
        (window::did(w, Act::Invalidate), Reply::Answer(0))
    } else if msg == WM_APP_TERM_EVENT {
        (window::did(window::did(w, Act::Title), Act::Invalidate), Reply::Answer(0))
    } else if msg == WM_APP_PANE_EXITED {
        (tab_ops::pane_closed(w, wp), Reply::Answer(0))
    } else if msg == WM_APP_WEBVIEW_READY {
        (window::did(w, Act::InstallPage(wp)), Reply::Answer(0))
    } else if msg == WM_APP_URL_ENTER {
        match window::tab_with(w.tabs, wp, 0) {
            Some(i) if window::is_browser(w.tabs[i], wp) => (
                window::did(w, Act::EnterUrl(wp)),
                Reply::Answer(0),
            ),
            _ => (w, Reply::Answer(0)),
        }
    } else if msg == WM_APP_DUMP_FRAME {
        (window::did(w, Act::DumpFrame), Reply::Answer(0))
    } else if msg == WM_APP_DROP_FILES {
        (window::did(w, Act::DropFiles), Reply::Answer(0))
    } else if msg == WM_APP_DEBUG_ACTION && env.debug {
        (debug_run(w, wp, lp), Reply::Answer(0))
    } else if msg == WM_COPYDATA {
        match env.copy {
            None => (w, Reply::Answer(0)),
            Some(c) => if c.magic != ctl::CTL_MAGIC || !c.has_data {
                (w, Reply::Default)
            } else {
                match c.request {
                    Some(r) => {
                        let (w1, served) = tab_ops::request_served(
                            w,
                            r.pane,
                            r.verb@,
                            r.arg@,
                        );
                        (
                            w1,
                            Reply::Answer(
                                if served {
                                    1
                                } else {
                                    0
                                },
                            ),
                        )
                    },
                    None => (w, Reply::Answer(0)),
                }
            },
        }
    } else {
        (w, Reply::Other)
    }
}

/// What a message does, and its answer.
pub open spec fn message_done(w: Win, msg: u32, wp: u64, lp: u32, env: Surroundings) -> (
    Win,
    Reply,
) {
    let a = frame_message(w, msg, wp, lp, env);
    let b = state_message(w, msg, wp, lp, env);
    let c = key_message(w, msg, wp, env);
    let d = mouse_message(w, msg, wp, lp, env);
    let e = app_message(w, msg, wp, lp, env);
    if a.1 != Reply::Other {
        a
    } else if b.1 != Reply::Other {
        b
    } else if c.1 != Reply::Other {
        c
    } else if d.1 != Reply::Other {
        d
    } else if e.1 != Reply::Other {
        e
    } else {
        (w, Reply::Default)
    }
}

/// A message that can be taken: there is room for one more tab, and a
/// resolution is one a screen can have.
pub open spec fn message_ok(w: Win, msg: u32, wp: u64) -> bool {
    &&& actions::roomy(w)
    &&& msg == WM_DPICHANGED ==> chrome::dpi_ok((wp % 0x1_0000) as u32)
}

impl TermWindow {
    fn mouse_at(&self, lp: u32) -> (r: (i64, i64))
        requires
            self.wf(),
        ensures
            r == mouse_point(self@, lp),
            chrome::point_ok(r.0 as int, r.1 as int),
    {
        (
            chrome::units_of(sign(loword(lp)), self.frame.dpi),
            chrome::units_of(sign(hiword(lp)), self.frame.dpi),
        )
    }

    fn client_at(&self, p: PixelPoint) -> (r: (i64, i64))
        requires
            self.wf(),
        ensures
            r == client_point(self@, p),
            chrome::point_ok(r.0 as int, r.1 as int),
    {
        (chrome::units_of(p.x, self.frame.dpi), chrome::units_of(p.y, self.frame.dpi))
    }

    /// What part of the window is under the pointer.
    pub fn hit_test(&self, env: &Surroundings) -> (r: i64)
        requires
            self.wf(),
        ensures
            r == hit_of(self@, *env),
    {
        if env.default_hit != HTCLIENT as i64 {
            return env.default_hit;
        }
        if env.client.y < env.border && !env.maximized {
            return HTTOP as i64;
        }
        let (x, y) = self.client_at(env.client);
        if y < chrome::TABBAR_H {
            let b = self.bar();
            let (least, most, close) = b.caption_buttons();
            if least.contains(x, y) {
                return HTMINBUTTON as i64;
            }
            if most.contains(x, y) {
                return HTMAXBUTTON as i64;
            }
            if close.contains(x, y) {
                return HTCLOSE as i64;
            }
            if b.tab_at(x, y).is_some() || b.plus_rect().contains(x, y) {
                return HTCLIENT as i64;
            }
            return HTCAPTION as i64;
        }
        HTCLIENT as i64
    }

    fn on_frame(&mut self, msg: u32, wp: u64, lp: u32, env: &Surroundings) -> (r: Reply)
        requires
            old(self).wf(),
        ensures
            final(self).wf(),
            (final(self)@, r) == frame_message(old(self)@, msg, wp, lp, *env),
    {
        let code: u32 = (wp % 0x1_0000_0000) as u32;
        let caption = code == HTMINBUTTON || code == HTMAXBUTTON || code == HTCLOSE;
        if msg == WM_CREATE {
            self.act(Act::Create);
            Reply::Answer(0)
        } else if msg == WM_DESTROY {
            self.act(Act::RevokeDrops);
            Reply::Default
        } else if msg == WM_NCCALCSIZE {
            if wp != 0 && self.frame.custom {
                self.act(Act::ClaimFrame);
                Reply::Answer(0)
            } else {
                Reply::Default
            }
        } else if msg == WM_NCHITTEST {
            if self.frame.custom {
                Reply::Answer(self.hit_test(env))
            } else {
                Reply::Default
            }
        } else if msg == WM_NCMOUSEMOVE {
            let hot = if caption {
                Some(code)
            } else {
                None
            };
            if hot != self.hot_caption {
                self.hot_caption = hot;
                self.act(Act::Invalidate);
            }
            self.act(Act::TrackLeave);
            Reply::Default
        } else if msg == WM_NCMOUSELEAVE {
            if self.hot_caption.is_some() {
                self.hot_caption = None;
                self.act(Act::Invalidate);
            }
            Reply::Default
        } else if msg == WM_NCLBUTTONDOWN {
            if caption {
                Reply::Answer(0)
            } else {
                Reply::Default
            }
        } else if msg == WM_NCLBUTTONUP {
            if !caption {
                return Reply::Default;
            }
            let cmd: u32 = if code == HTMINBUTTON {
                SC_MINIMIZE
            } else if code == HTMAXBUTTON {
                if env.maximized {
                    SC_RESTORE
                } else {
                    SC_MAXIMIZE
                }
            } else {
                SC_CLOSE
            };
            self.act(Act::SysCommand(cmd));
            Reply::Answer(0)
        } else if msg == WM_NCRBUTTONUP {
            if code == HTCAPTION {
                let at = PixelPoint { x: sign(loword(lp)), y: sign(hiword(lp)) };
                self.act(Act::SystemMenu(at));
                Reply::Answer(0)
            } else {
                Reply::Default
            }
        } else if msg == WM_CLOSE {
            self.act(Act::SaveSession);
            self.act(Act::Destroy);
            Reply::Answer(0)
        } else {
            Reply::Other
        }
    }

    fn on_state(&mut self, msg: u32, wp: u64, lp: u32, env: &Surroundings) -> (r: Reply)
        requires
            old(self).wf(),
            message_ok(old(self)@, msg, wp),
        ensures
            final(self).wf(),
            (final(self)@, r) == state_message(old(self)@, msg, wp, lp, *env),
    {
        if msg == WM_PAINT {
            self.act(Act::Paint);
            Reply::Answer(0)
        } else if msg == WM_ERASEBKGND {
            Reply::Answer(1)
        } else if msg == WM_SIZE {
            let width: u16 = loword(lp);
            let height: u16 = hiword(lp);
            self.frame.width = width;
            self.frame.height = height;
            if width > 0 && height > 0 {
                self.act(Act::ResizeTarget { width, height });
                self.act(Act::Relayout);
                self.act(Act::Invalidate);
            }
            Reply::Answer(0)
        } else if msg == WM_DPICHANGED {
            self.frame.dpi = (wp % 0x1_0000) as u32;
            self.act(Act::DpiChanged);
            self.act(Act::Relayout);
            self.act(Act::Invalidate);
            Reply::Answer(0)
        } else if msg == WM_SETFOCUS || msg == WM_KILLFOCUS {
            self.focused = msg == WM_SETFOCUS;
            self.sync_pane_focus();
            self.act(Act::Invalidate);
            Reply::Answer(0)
        } else if msg == WM_HOTKEY {
            self.act(Act::ToggleQuake);
            Reply::Answer(0)
        } else if msg == WM_TIMER {
            if wp == CONFIG_TIMER_ID {
                self.act(Act::PollConfig);
                Reply::Answer(0)
            } else if wp == TOAST_TIMER_ID {
                self.act(Act::KillToastTimer);
                if self.toast.is_some() {
                    self.toast = None;
                    self.act(Act::Invalidate);
                }
                Reply::Answer(0)
            } else {
                Reply::Default
            }
        } else if msg == WM_CTLCOLOREDIT {
            self.act(Act::ColorEdit);
            Reply::Answer(env.edit_brush)
        } else {
            Reply::Other
        }
    }

    fn on_key(&mut self, msg: u32, wp: u64, env: &Surroundings) -> (r: Reply)
        requires
            old(self).wf(),
            actions::roomy(old(self)@),
        ensures
            final(self).wf(),
            (final(self)@, r) == key_message(old(self)@, msg, wp, *env),
    {
        let code: u16 = (wp % 0x1_0000) as u16;
        if msg == WM_KEYDOWN || msg == WM_SYSKEYDOWN {
            let taken = self.on_key_down(code, &env.mods, &env.bound, &env.profiles, env.mapped);
            if taken || msg == WM_KEYDOWN {
                Reply::Answer(0)
            } else {
                Reply::Default
            }
        } else if msg == WM_CHAR {
            self.on_char(code);
            Reply::Answer(0)
        } else if msg == WM_SYSCHAR {
            if self.on_alt_char(code) {
                Reply::Answer(0)
            } else {
                Reply::Default
            }
        } else {
            Reply::Other
        }
    }

    fn on_mouse(&mut self, msg: u32, wp: u64, lp: u32, env: &Surroundings) -> (r: Reply)
        requires
            old(self).wf(),
            message_ok(old(self)@, msg, wp),
        ensures
            final(self).wf(),
            (final(self)@, r) == mouse_message(old(self)@, msg, wp, lp, *env),
    {
        if msg == WM_MOUSEWHEEL {
            let (x, y) = self.client_at(env.client);
            let turn: i32 = sign(hiword((wp % 0x1_0000_0000) as u32));
            self.on_wheel(x, y, turn as i16, &env.mods);
            return Reply::Answer(0);
        }
        if msg == WM_SETCURSOR {
            if loword(lp) as u32 != HTCLIENT {
                return Reply::Default;
            }
            let (x, y) = self.client_at(env.client);
            let c = self.on_set_cursor(x, y, &env.mods, env.link.is_some());
            self.act(Act::SetCursor(c));
            return Reply::Answer(1);
        }
        let (x, y) = self.mouse_at(lp);
        if msg == WM_LBUTTONDOWN {
            self.on_lbutton_down(x, y, &env.mods, env.link.clone());
        } else if msg == WM_LBUTTONDBLCLK {
            self.on_dblclick(x, y, &env.mods);
        } else if msg == WM_LBUTTONUP {
            self.on_lbutton_up(x, y, &env.mods, env.pointer, env.elsewhere);
        } else if msg == WM_RBUTTONDOWN {
            self.on_rbutton_down(x, y, &env.mods);
        } else if msg == WM_MOUSEMOVE {
            self.on_mouse_move(x, y, wp % 2 == 1, &env.mods);
        } else if msg == WM_MBUTTONUP {
            if let Some(i) = self.bar().tab_at(x, y) {
                self.close_tab(i);
            }
        } else {
            return Reply::Other;
        }
        Reply::Answer(0)
    }

    /// Run an action of a test.
    fn debug_action(&mut self, n: u64, lp: u32)
        requires
            old(self).wf(),
            actions::roomy(old(self)@),
        ensures
            final(self).wf(),
            final(self)@ == debug_run(old(self)@, n, lp),
    {
        if n == 1 {
            self.act(Act::Split(Dir::Row));
        } else if n == 2 {
            self.act(Act::Split(Dir::Col));
        } else if n == 3 {
            self.new_tab();
        } else if n == 4 {
            self.act(Act::BrowserSplit);
        } else if n == 5 {
            self.go_behind();
        } else if n == 6 {
            self.zoom_toggle();
        } else if n == 7 {
            self.close_active_pane();
        } else if n == 8 {
            self.focus_dir(1, 0);
        } else if n == 9 {
            self.focus_dir(-1, 0);
        } else if n == 10 {
            self.detach_tab(self.active, Some(PixelPoint { x: 300, y: 300 }));
        } else if n == 11 {
            self.bump_font(2000);
        } else if n == 12 {
            self.new_tab_with_profile(lp as usize);
        } else if n == 13 {
            if self.active < self.tabs.len() {
                assert(self@.tabs[self.active as int] == self.tabs@[self.active as int]@);
                self.pane_to_new_tab(self.tabs[self.active].active);
            }
        } else if n == 14 {
            self.act(Act::DropSample(lp));
        } else if n == 15 {
            self.toggle_search();
        } else if n == 16 {
            self.act(Act::AskPalette);
        } else if n == 17 {
            self.open_hints();
        } else if n == 18 {
            self.act(Act::AskNextTheme);
        } else if n == 19 {
            self.toggle_cheatsheet();
        }
    }

    fn on_app(&mut self, msg: u32, wp: u64, lp: u32, env: &Surroundings) -> (r: Reply)
        requires
            old(self).wf(),
            actions::roomy(old(self)@),
        ensures
            final(self).wf(),
            (final(self)@, r) == app_message(old(self)@, msg, wp, lp, *env),
    {
        if msg == WM_APP_TERM_DIRTY {
            self.act(Act::Invalidate);
        } else if msg == WM_APP_TERM_EVENT {
            self.act(Act::Title);
            self.act(Act::Invalidate);
        } else if msg == WM_APP_PANE_EXITED {
            self.close_pane_by_id(wp);
        } else if msg == WM_APP_WEBVIEW_READY {
            self.act(Act::InstallPage(wp));
        } else if msg == WM_APP_URL_ENTER {
            if let Some(i) = self.tab_of(wp) {
                assert(self@.tabs[i as int] == self.tabs@[i as int]@);
                let page = match self.tabs[i].pane(wp) {
                    Some(p) => matches!(p.kind, PaneKind::Browser(_)),
                    None => false,
                };
                if page {
                    self.act(Act::EnterUrl(wp));
                }
            }
        } else if msg == WM_APP_DUMP_FRAME {
            self.act(Act::DumpFrame);
        } else if msg == WM_APP_DROP_FILES {
            self.act(Act::DropFiles);
        } else if msg == WM_APP_DEBUG_ACTION && env.debug {
            self.debug_action(wp, lp);
        } else if msg == WM_COPYDATA {
            let c = match &env.copy {
                Some(c) => c,
                None => {
                    return Reply::Answer(0);
                },
            };
            if c.magic != ctl::CTL_MAGIC || !c.has_data {
                return Reply::Default;
            }
            let served = match &c.request {
                Some(r) => self.handle_ctl(r),
                None => false,
            };
            return Reply::Answer(
                if served {
                    1
                } else {
                    0
                },
            );
        } else {
            return Reply::Other;
        }
        Reply::Answer(0)
    }

    /// Take a message of the window system. `lp` is the low half of its second
    /// parameter; what a pointer in it leads to is in `env`.
    pub fn message(&mut self, msg: u32, wp: u64, lp: u32, env: &Surroundings) -> (r: Reply)
        requires
            old(self).wf(),
            message_ok(old(self)@, msg, wp),
        ensures
            final(self).wf(),
            (final(self)@, r) == message_done(old(self)@, msg, wp, lp, *env),
            r != Reply::Other,
    {
        let a = self.on_frame(msg, wp, lp, env);
        if a != Reply::Other {
            return a;
        }
        proof {
            lemma_frame_other(*old(self), *env, msg, wp, lp);
        }
        let b = self.on_state(msg, wp, lp, env);
        if b != Reply::Other {
            return b;
        }
        let c = self.on_key(msg, wp, env);
        if c != Reply::Other {
            return c;
        }
        let d = self.on_mouse(msg, wp, lp, env);
        if d != Reply::Other {
            return d;
        }
        let e = self.on_app(msg, wp, lp, env);
        if e != Reply::Other {
            return e;
        }
        Reply::Default
    }

    /// The page of a pane has been created. Returns the address that it was
    /// waiting for; nothing where the pane is no page.
    pub fn install(&mut self, id: PaneId) -> (r: Option<String>)
        requires
            old(self).wf(),
        ensures
            final(self).wf(),
            match window::tab_with(old(self)@.tabs, id, 0) {
                Some(i) if window::is_browser(old(self)@.tabs[i], id) => {
                    let t = old(self)@.tabs[i];
                    let b = t.panes[id].kind->Browser_0;
                    &&& r matches Some(go)
                    &&& go@ == b.pending_url@
                    &&& final(self)@ == window::did(
                        window::did(
                            Win {
                                tabs: old(self)@.tabs.update(
                                    i,
                                    TabModel {
                                        panes: t.panes.insert(id, ready_pane(t.panes[id])),
                                        ..t
                                    },
                                ),
                                ..old(self)@
                            },
                            Act::Relayout,
                        ),
                        Act::Invalidate,
                    )
                },
                _ => r is None && final(self)@ == old(self)@,
            },
    {
        let i: usize = match self.tab_of(id) {
            Some(i) => i,
            None => {
                return None;
            },
        };
        assert(self@.tabs[i as int] == self.tabs@[i as int]@);
        let page = match self.tabs[i].pane(id) {
            Some(p) => matches!(p.kind, PaneKind::Browser(_)),
            None => false,
        };
        if !page {
            return None;
        }
        let go = install_page(&mut self.tabs[i], id);
        proof {
            self.lemma_one_tab(*old(self), i as int);
        }
        self.act(Act::Relayout);
        self.act(Act::Invalidate);
        Some(go)
    }
}

/// A page that exists.
pub open spec fn ready_pane(p: Pane) -> Pane {
    match p.kind {
        PaneKind::Browser(b) => Pane {
            id: p.id,
            kind: PaneKind::Browser(crate::browser_pane::BrowserPane { ready: true, ..b }),
        },
        PaneKind::Term(_) => p,
    }
}

fn install_page(t: &mut Tab, id: PaneId) -> (r: String)
    requires
        tabs::tab_wf(old(t)@),
        window::is_browser(old(t)@, id),
    ensures
        tabs::tab_wf(final(t)@),
        r@ == old(t)@.panes[id].kind->Browser_0.pending_url@,
        final(t)@ == (TabModel {
            panes: old(t)@.panes.insert(id, ready_pane(old(t)@.panes[id])),
            ..old(t)@
        }),
{
    let ghost before = t@;
    match t.take(id) {
        Some(p) => match p.kind {
            PaneKind::Browser(mut b) => {
                let go = b.install();
                t.panes.insert(id, Pane { id, kind: PaneKind::Browser(b) });
                assert(t@.panes =~= before.panes.insert(
                    id,
                    Pane { id, kind: PaneKind::Browser(b) },
                ));
                go
            },
            PaneKind::Term(_) => String::new(),
        },
        None => String::new(),
    }
}

/// A message that is not about the frame leaves the window to the others.
proof fn lemma_frame_other(w: TermWindow, env: Surroundings, msg: u32, wp: u64, lp: u32)
    ensures
        frame_message(w@, msg, wp, lp, env).1 == Reply::Other ==> frame_message(
            w@,
            msg,
            wp,
            lp,
            env,
        ).0 == w@,
{
}

/// The window that the resize borders leave, when the caption is claimed: all
/// but the borders at the sides and below, and above where it is maximized.
pub open spec fn claimed(rc: window::PixelRect, fx: int, fy: int, maximized: bool) -> (
    int,
    int,
    int,
    int,
) {
    (
        rc.left + fx,
        if maximized {
            rc.top + fy
        } else {
            rc.top as int
        },
        rc.right - fx,
        rc.bottom - fy,
    )
}

pub fn claim_frame(rc: window::PixelRect, fx: i32, fy: i32, maximized: bool) -> (r:
    window::PixelRect)
    requires
        i32::MIN <= rc.left + fx <= i32::MAX,
        i32::MIN <= rc.right - fx <= i32::MAX,
        i32::MIN <= rc.bottom - fy <= i32::MAX,
        maximized ==> i32::MIN <= rc.top + fy <= i32::MAX,
    ensures
        (r.left as int, r.top as int, r.right as int, r.bottom as int) == claimed(
            rc,
            fx as int,
            fy as int,
            maximized,
        ),
{
    window::PixelRect {
        left: rc.left + fx,
        top: if maximized {
            rc.top + fy
        } else {
            rc.top
        },
        right: rc.right - fx,
        bottom: rc.bottom - fy,
    }
}

/// A message of another program changes nothing: only data with the mark of
/// this one is taken for a request.
pub proof fn law_foreign_data_ignored(w: Win, wp: u64, lp: u32, env: Surroundings)
    requires
        env.copy matches Some(c) ==> c.magic != ctl::CTL_MAGIC,
    ensures
        message_done(w, WM_COPYDATA, wp, lp, env).0 == w,
{
}

/// Every point of the tab bar of a window with its own frame is a caption
/// button, a tab, the button that opens one, or drags the window; below the
/// bar it is content.
pub proof fn law_hit_below_bar(w: Win, env: Surroundings)
    requires
        env.default_hit == HTCLIENT,
        env.maximized || env.client.y >= env.border,
        client_point(w, env.client).1 >= chrome::TABBAR_H,
    ensures
        hit_of(w, env) == HTCLIENT,
{
}

/// Two signed numbers packed into a word come out again, the first from its
/// lower half: coordinates left of and above the window are negative.
pub proof fn law_words(a: int, b: int)
    requires
        -0x8000 <= a < 0x8000,
        -0x8000 <= b < 0x8000,
    ensures
        ({
            let v = (b % 0x1_0000 * 0x1_0000 + a % 0x1_0000) as u32;
            signed(low(v)) == a && signed(high(v)) == b
        }),
{
    let (p, q) = (a % 0x1_0000, b % 0x1_0000);
    let v = q * 0x1_0000 + p;
    assert(v % 0x1_0000 == p && v / 0x1_0000 == q);
}

/// A mouse message is for the point that it names, in units of length: first
/// across, then down.
pub proof fn law_mouse_messages(w: Win, a: int, b: int, wp: u64, env: Surroundings)
    requires
        window::win_wf(w),
        -0x8000 <= a < 0x8000,
        -0x8000 <= b < 0x8000,
    ensures
        ({
            let lp = (b % 0x1_0000 * 0x1_0000 + a % 0x1_0000) as u32;
            let at = (
                chrome::length_of(a, w.frame.dpi) as i64,
                chrome::length_of(b, w.frame.dpi) as i64,
            );
            let (x, y) = (at.0 as int, at.1 as int);
            let ok = |r: Win| (r, Reply::Answer(0));
            &&& message_done(w, 0x201, wp, lp, env) == ok(
                mouse::left_pressed(w, at, env.mods, term_pane::opt_chars(env.link)),
            )
            &&& message_done(w, 0x203, wp, lp, env) == ok(mouse::left_doubled(w, x, y, env.mods))
            &&& message_done(w, 0x202, wp, lp, env) == ok(
                mouse::left_released(w, x, y, env.mods, env.pointer, env.elsewhere),
            )
            &&& message_done(w, 0x204, wp, lp, env) == ok(mouse::right_pressed(w, at, env.mods))
            &&& message_done(w, 0x200, wp, lp, env) == ok(
                mouse::pointer_moved(w, at, wp % 2 == 1, env.mods),
            )
            &&& message_done(w, 0x208, wp, lp, env) == ok(
                match chrome::tab_hit(window::bar_of(w), x, y) {
                    Some(i) => tab_ops::closing(w, i),
                    None => w,
                },
            )
        }),
{
    law_words(a, b);
}

/// The wheel turns by the signed upper half of the word, at the place of the
/// pointer in the window.
pub proof fn law_wheel_message(w: Win, delta: int, lp: u32, env: Surroundings)
    requires
        window::win_wf(w),
        -0x8000 <= delta < 0x8000,
    ensures
        mouse_message(w, 0x20a, ((delta % 0x1_0000) * 0x1_0000) as u64, lp, env).0
            == mouse::wheel_turned(
            w,
            (chrome::length_of(env.client.x as int, w.frame.dpi) as i64) as int,
            (chrome::length_of(env.client.y as int, w.frame.dpi) as i64) as int,
            delta,
            env.mods,
        ),
{
    let d = delta % 0x1_0000;
    let wp = (d * 0x1_0000) as u64;
    assert(wp % 0x1_0000_0000 == wp);
    assert(d * 0x1_0000 / 0x1_0000 == d);
}

/// A new size is taken, first the width, then the height, and all is laid out
/// and drawn anew; a window without extent is left alone.
pub proof fn law_size_message(w: Win, width: u16, height: u16, wp: u64, env: Surroundings)
    ensures
        ({
            let lp = (height * 0x1_0000 + width) as u32;
            let (r, reply) = message_done(w, 0x5, wp, lp, env);
            &&& reply == Reply::Answer(0)
            &&& r.frame == (Frame { width, height, ..w.frame })
            &&& r.tabs == w.tabs
            &&& width > 0 && height > 0 ==> r.work == w.work.push(
                window::Work::Act(Act::ResizeTarget { width, height }),
            ).push(window::Work::Act(Act::Relayout)).push(window::Work::Act(Act::Invalidate))
            &&& width == 0 || height == 0 ==> r.work == w.work
        }),
{
    let v = height * 0x1_0000 + width;
    assert(v % 0x1_0000 == width && v / 0x1_0000 == height);
}

/// A new resolution is taken, and the fonts, the layout and the picture are
/// renewed.
pub proof fn law_dpi_message(w: Win, dpi: u16, lp: u32, env: Surroundings)
    ensures
        ({
            let (r, _) = message_done(w, 0x2e0, (dpi as u64 * 0x1_0000 + dpi) as u64, lp, env);
            &&& r.frame == (Frame { dpi: dpi as u32, ..w.frame })
            &&& r.work == w.work.push(window::Work::Act(Act::DpiChanged)).push(
                window::Work::Act(Act::Relayout),
            ).push(window::Work::Act(Act::Invalidate))
        }),
{
    let v = dpi as u64 * 0x1_0000 + dpi;
    assert(v % 0x1_0000 == dpi);
}

/// The keyboard comes and goes: the terminals are told, and a window without it
/// has no pane with the focus.
pub proof fn law_focus_messages(w: Win, wp: u64, lp: u32, env: Surroundings)
    ensures
        message_done(w, 0x7, wp, lp, env).0.focused,
        !message_done(w, 0x8, wp, lp, env).0.focused,
        message_done(w, 0x7, wp, lp, env).0.focus_pane == window::focus_target(
            Win { focused: true, ..w },
        ),
        message_done(w, 0x8, wp, lp, env).0.focus_pane is None,
{
    window::law_focus_in_step(Win { focused: true, ..w });
    window::law_focus_in_step(Win { focused: false, ..w });
    window::lemma_focus_keeps(Win { focused: true, ..w });
    window::lemma_focus_keeps(Win { focused: false, ..w });
}

/// Keys go to the keyboard; a system key that nothing took is left to the
/// system.
pub proof fn law_key_messages(w: Win, wp: u64, env: Surroundings)
    ensures
        ({
            let code = (wp % 0x1_0000) as u16;
            let r = keyboard::key_pressed(
                w,
                code,
                env.mods,
                keyboard::bound_view(env.bound),
                env.profiles@,
                keys::base_code(code, env.mapped),
            );
            &&& key_message(w, 0x100, wp, env) == (r.0, Reply::Answer(0))
            &&& key_message(w, 0x104, wp, env) == (
                r.0,
                if r.1 {
                    Reply::Answer(0)
                } else {
                    Reply::Default
                },
            )
        }),
{
}

/// Characters go to the keyboard; one with Alt that nothing took is left to the
/// system.
pub proof fn law_character_messages(w: Win, wp: u64, env: Surroundings)
    ensures
        ({
            let code = (wp % 0x1_0000) as u16;
            let s = keyboard::alt_char_typed(w, code);
            &&& key_message(w, 0x102, wp, env) == (
                keyboard::char_typed(w, code),
                Reply::Answer(0),
            )
            &&& key_message(w, 0x106, wp, env) == (
                s.0,
                if s.1 {
                    Reply::Answer(0)
                } else {
                    Reply::Default
                },
            )
        }),
{
}

/// Each message is for the part of the window that it is about: keys and
/// characters for the keyboard, buttons, motion and the wheel for the mouse.
pub proof fn law_dispatch(w: Win, msg: u32, wp: u64, lp: u32, env: Surroundings)
    ensures
        msg == 0x100 || msg == 0x102 || msg == 0x104 || msg == 0x106 ==> message_done(
            w,
            msg,
            wp,
            lp,
            env,
        ) == key_message(w, msg, wp, env),
        msg == 0x20a || msg == 0x20 ==> message_done(w, msg, wp, lp, env) == mouse_message(
            w,
            msg,
            wp,
            lp,
            env,
        ),
{
    if msg == 0x100 || msg == 0x102 || msg == 0x104 || msg == 0x106 {
        assert(frame_message(w, msg, wp, lp, env).1 == Reply::Other);
        assert(state_message(w, msg, wp, lp, env).1 == Reply::Other);
        assert(key_message(w, msg, wp, env).1 != Reply::Other);
    } else if msg == 0x20a || msg == 0x20 {
        assert(frame_message(w, msg, wp, lp, env).1 == Reply::Other);
        assert(state_message(w, msg, wp, lp, env).1 == Reply::Other);
        assert(key_message(w, msg, wp, env).1 == Reply::Other);
        assert(mouse_message(w, msg, wp, lp, env).1 != Reply::Other);
    }
}

/// The caption buttons minimise, maximise or restore, and close; a window that
/// is closed has its session saved first.
pub proof fn law_caption_messages(w: Win, lp: u32, env: Surroundings)
    ensures
        message_done(w, 0xa2, 8, lp, env).0.work == w.work.push(
            window::Work::Act(Act::SysCommand(0xf020)),
        ),
        message_done(w, 0xa2, 9, lp, env).0.work == w.work.push(
            window::Work::Act(
                Act::SysCommand(
                    if env.maximized {
                        0xf120
                    } else {
                        0xf030
                    },
                ),
            ),
        ),
        message_done(w, 0xa2, 20, lp, env).0.work == w.work.push(
            window::Work::Act(Act::SysCommand(0xf060)),
        ),
        message_done(w, 0xa2, 2, lp, env) == (w, Reply::Default),
        message_done(w, 0x10, 0, lp, env).0.work == w.work.push(
            window::Work::Act(Act::SaveSession),
        ).push(window::Work::Act(Act::Destroy)),
{
}

/// A caption button lights up while the pointer is on it, and only then.
pub proof fn law_caption_lights_up(w: Win, wp: u64, lp: u32, env: Surroundings)
    requires
        wp < 0x1_0000,
    ensures
        message_done(w, 0xa0, wp, lp, env).0.hot_caption == (if wp == 8 || wp == 9 || wp == 20 {
            Some(wp as u32)
        } else {
            None
        }),
        message_done(w, 0x2a2, wp, lp, env).0.hot_caption is None,
{
    let m = wp as u32;
    assert(wp % 0x1_0000_0000 == wp);
}

/// What is under a point of the tab bar: the buttons at the right end minimise
/// (8), maximise (9) and close (20), tabs and the button for a new one are
/// content (1), the rest drags the window (2). The border above resizes (12).
pub proof fn law_hits(w: Win, env: Surroundings)
    requires
        env.default_hit == 1,
        window::bar_of(w).width >= 138 * 1024,
        env.maximized || env.client.y >= env.border,
        client_point(w, env.client).1 < 38 * 1024,
        client_point(w, env.client).1 >= 0,
    ensures
        ({
            let (x, y) = client_point(w, env.client);
            let width = window::bar_of(w).width;
            let up = y < 32 * 1024;
            &&& up && width - 46 * 1024 <= x < width ==> hit_of(w, env) == 20
            &&& up && width - 92 * 1024 <= x < width - 46 * 1024 ==> hit_of(w, env) == 9
            &&& up && width - 138 * 1024 <= x < width - 92 * 1024 ==> hit_of(w, env) == 8
            &&& x < width - 138 * 1024 ==> hit_of(w, env) == (if chrome::tab_hit(
                window::bar_of(w),
                x as int,
                y as int,
            ) is Some || pane_tree::area_has(
                chrome::plus_area(window::bar_of(w)),
                x as int,
                y as int,
            ) {
                1int
            } else {
                2int
            })
        }),
{
}

/// The border above a window that is not maximized resizes it (12), and what the
/// system finds elsewhere than in the content stays.
pub proof fn law_border_hits(w: Win, env: Surroundings)
    ensures
        env.default_hit != 1 ==> hit_of(w, env) == env.default_hit,
        env.default_hit == 1 && !env.maximized && env.client.y < env.border ==> hit_of(w, env) == 12,
{
}

/// What the program itself tells a window: output draws it anew, an event of a
/// terminal renews its title too, a shell that ended has its pane closed, a page
/// that is there is installed.
pub proof fn law_program_messages(w: Win, id: u64, lp: u32, env: Surroundings)
    ensures
        message_done(w, 0x8001, id, lp, env).0.work == w.work.push(
            window::Work::Act(Act::Invalidate),
        ),
        message_done(w, 0x8002, id, lp, env).0.work == w.work.push(
            window::Work::Act(Act::Title),
        ).push(window::Work::Act(Act::Invalidate)),
        message_done(w, 0x8003, id, lp, env).0 == tab_ops::pane_closed(w, id),
        message_done(w, 0x8004, id, lp, env).0.work == w.work.push(
            window::Work::Act(Act::InstallPage(id)),
        ),
        message_done(w, 0x312, id, lp, env).0.work == w.work.push(
            window::Work::Act(Act::ToggleQuake),
        ),
        message_done(w, 0x113, 0xba2, lp, env).0.work == w.work.push(
            window::Work::Act(Act::PollConfig),
        ),
        message_done(w, 0x113, 0xba3, lp, env).0.toast is None,
        message_done(w, 0xf, id, lp, env).0.work == w.work.push(window::Work::Act(Act::Paint)),
{
}

/// A request that comes with this program's mark is answered by whether it was
/// served.
pub proof fn law_request_is_answered(w: Win, wp: u64, lp: u32, env: Surroundings, r: CtlReq)
    requires
        env.copy matches Some(c) && c.magic == 0xBAD0_0001 && c.has_data && c.request == Some(r),
    ensures
        ({
            let (x, served) = tab_ops::request_served(w, r.pane, r.verb@, r.arg@);
            message_done(w, 0x4a, wp, lp, env) == (
                x,
                Reply::Answer(
                    if served {
                        1
                    } else {
                        0
                    },
                ),
            )
        }),
{
}

/// The window that claims its caption loses the borders at the sides and below,
/// and the one above only where it is maximized.
pub proof fn law_claimed_frame(rc: window::PixelRect, fx: int, fy: int, maximized: bool)
    ensures
        ({
            let (l, t, r, b) = claimed(rc, fx, fy, maximized);
            &&& l - rc.left == fx && rc.right - r == fx && rc.bottom - b == fy
            &&& maximized ==> t - rc.top == fy
            &&& !maximized ==> t == rc.top
        }),
{
}

/// The actions of tests do what the shortcuts do, each by its number; other
/// numbers do nothing.
pub proof fn law_test_actions(w: Win, lp: u32, n: u64)
    ensures
        debug_run(w, 1, lp).work == w.work.push(window::Work::Act(Act::Split(Dir::Row))),
        debug_run(w, 2, lp).work == w.work.push(window::Work::Act(Act::Split(Dir::Col))),
        debug_run(w, 3, lp).work == w.work.push(window::Work::Act(Act::NewTab(None))),
        debug_run(w, 4, lp).work == w.work.push(window::Work::Act(Act::BrowserSplit)),
        debug_run(w, 5, lp) == window::switched(w, keyboard::tab_behind(w)),
        debug_run(w, 6, lp) == tab_ops::zoom_toggled(w),
        debug_run(w, 7, lp) == tab_ops::active_closed(w),
        debug_run(w, 8, lp) == tab_ops::focus_moved(w, 1, 0),
        debug_run(w, 9, lp) == tab_ops::focus_moved(w, -1, 0),
        debug_run(w, 11, lp) == tab_ops::font_set(w, window::font_of(w) + 2000),
        debug_run(w, 15, lp) == actions::search_toggled(w),
        debug_run(w, 17, lp) == actions::hints_asked(w),
        debug_run(w, 19, lp) == actions::cheatsheet_toggled(w),
        n == 0 || n > 19 ==> debug_run(w, n, lp) == w,
{
}

} // verus!
