//! The keyboard of a window: its own shortcuts, then the open overlay, then
//! the shell.
use vstd::prelude::*;
use crate::actions;
use crate::config::Profile;
use crate::input;
use crate::keys;
use crate::keys::Mods;
use crate::modes;
use crate::overlays::SearchModel;
use crate::pane_tree::{Dir, PaneId};
use crate::scripting::Action;
use crate::tab_ops;
use crate::window;
use crate::window::{Act, Job, TermWindow, Win, Work};

verus! {

pub const VK_SHIFT: u16 = 0x10;

pub const VK_CONTROL: u16 = 0x11;

pub const VK_MENU: u16 = 0x12;

pub const VK_LWIN: u16 = 0x5b;

pub const VK_RWIN: u16 = 0x5c;

pub const VK_OEM_PLUS: u16 = 0xbb;

pub const VK_OEM_COMMA: u16 = 0xbc;

pub const VK_OEM_MINUS: u16 = 0xbd;

pub const VK_OEM_2: u16 = 0xbf;

/// A key that is only held for others.
pub open spec fn is_modifier(vk: u16) -> bool {
    vk == VK_SHIFT || vk == VK_CONTROL || vk == VK_MENU || vk == VK_LWIN || vk == VK_RWIN
}

/// The tab that a digit stands for: the last one for 9.
pub open spec fn digit_tab(w: Win, c: int) -> int {
    if c == 0x39 {
        if w.tabs.len() == 0 {
            0
        } else {
            w.tabs.len() - 1
        }
    } else {
        c - 0x31
    }
}

/// The tab before the active one, around the end.
pub open spec fn tab_before(w: Win) -> int {
    if w.tabs.len() == 0 {
        0
    } else {
        (w.active - 1) % (w.tabs.len() as int)
    }
}

/// The tab behind the active one, around the end.
pub open spec fn tab_behind(w: Win) -> int {
    if w.tabs.len() == 0 {
        0
    } else {
        (w.active + 1) % (w.tabs.len() as int)
    }
}

/// The shortcuts with Ctrl, Shift and a letter or a digit.
pub open spec fn ctrl_shift_letter(w: Win, c: u16) -> Option<Win> {
    if c == 0x54 {
        Some(window::did(w, Act::NewTab(None)))
    } else if c == 0x4e {
        Some(window::did(w, Act::NewWindow))
    } else if c == 0x57 {
        Some(tab_ops::active_closed(w))
    } else if c == 0x44 {
        Some(window::did(w, Act::Split(Dir::Row)))
    } else if c == 0x45 {
        Some(window::did(w, Act::Split(Dir::Col)))
    } else if c == 0x42 {
        Some(window::did(w, Act::BrowserSplit))
    } else if c == 0x4d {
        Some(tab_ops::detaching(w, w.active, None))
    } else if c == 0x43 {
        Some(actions::copying(w))
    } else if c == 0x56 {
        Some(window::did(w, Act::AskClipboard))
    } else if c == 0x46 {
        Some(actions::search_toggled(w))
    } else if c == 0x50 {
        Some(window::did(w, Act::AskPalette))
    } else if c == 0x53 {
        Some(window::did(w, Act::AskNextTheme))
    } else if 0x31 <= c <= 0x39 {
        Some(tab_ops::profile_tab(w, (c - 0x31) as usize))
    } else {
        None
    }
}

/// The shortcuts with Ctrl, Shift and another key.
pub open spec fn ctrl_shift_other(w: Win, vk: u16) -> Option<Win> {
    if vk == keys::VK_TAB {
        Some(window::switched(w, tab_before(w)))
    } else if vk == keys::VK_PRIOR {
        Some(tab_ops::tab_moved(w, -1))
    } else if vk == keys::VK_NEXT {
        Some(tab_ops::tab_moved(w, 1))
    } else if vk == keys::VK_RETURN {
        Some(tab_ops::zoom_toggled(w))
    } else if vk == keys::VK_UP {
        Some(actions::prompt_jumped(w, true))
    } else if vk == keys::VK_DOWN {
        Some(actions::prompt_jumped(w, false))
    } else if vk == keys::VK_SPACE {
        Some(actions::hints_asked(w))
    } else if vk == VK_OEM_2 {
        Some(actions::cheatsheet_toggled(w))
    } else {
        None
    }
}

/// The shortcuts with Ctrl and Shift. The character that a letter types is no
/// input.
pub open spec fn ctrl_shift_key(w: Win, vk: u16) -> Option<Win> {
    let c = vk % 256;
    match ctrl_shift_letter(w, c) {
        Some(w1) => if 0x41 <= c <= 0x5a {
            Some(Win { suppress_char: true, ..w1 })
        } else {
            Some(w1)
        },
        None => match ctrl_shift_other(w, vk) {
            Some(w1) => if 0x41 <= c <= 0x5a {
                Some(Win { suppress_char: true, ..w1 })
            } else {
                Some(w1)
            },
            None => None,
        },
    }
}

/// The shortcuts with Ctrl alone.
pub open spec fn ctrl_key(w: Win, vk: u16) -> Option<Win> {
    let c = vk % 256;
    if vk == keys::VK_TAB {
        Some(window::switched(w, tab_behind(w)))
    } else if vk == VK_OEM_COMMA {
        Some(window::did(w, Act::OpenSettings { script: false }))
    } else if vk == VK_OEM_PLUS {
        Some(tab_ops::font_set(w, window::font_of(w) + 1000))
    } else if vk == VK_OEM_MINUS {
        Some(tab_ops::font_set(w, window::font_of(w) - 1000))
    } else if c == 0x4c {
        match window::current(w) {
            Some(t) if window::is_browser(t, t.active) => Some(
                Win { suppress_char: true, ..window::did(w, Act::FocusUrl(t.active)) },
            ),
            _ => None,
        }
    } else if c == 0x30 {
        Some(tab_ops::font_set(w, w.settings.font_size as int))
    } else if 0x31 <= c <= 0x39 {
        Some(window::switched(w, digit_tab(w, c as int)))
    } else {
        None
    }
}

/// The shortcuts with Ctrl and Alt: the arrows move the focus.
pub open spec fn arrow_key(w: Win, vk: u16) -> Option<Win> {
    if vk == keys::VK_LEFT {
        Some(tab_ops::focus_moved(w, -1, 0))
    } else if vk == keys::VK_RIGHT {
        Some(tab_ops::focus_moved(w, 1, 0))
    } else if vk == keys::VK_UP {
        Some(tab_ops::focus_moved(w, 0, -1))
    } else if vk == keys::VK_DOWN {
        Some(tab_ops::focus_moved(w, 0, 1))
    } else {
        None
    }
}

/// What a built-in shortcut does; nothing for a key that is none.
pub open spec fn shortcut(w: Win, vk: u16, m: Mods) -> Option<Win> {
    let c = vk % 256;
    if m.ctrl && m.shift && !m.alt {
        ctrl_shift_key(w, vk)
    } else if m.ctrl && !m.shift && !m.alt {
        ctrl_key(w, vk)
    } else if m.alt && !m.ctrl && !m.shift && 0x31 <= c <= 0x39 {
        Some(Win { suppress_char: true, ..window::switched(w, digit_tab(w, c as int)) })
    } else if m.ctrl && m.alt && arrow_key(w, vk) is Some {
        arrow_key(w, vk)
    } else if vk == keys::VK_F12 {
        match window::current(w) {
            Some(t) if window::is_browser(t, t.active) => Some(
                window::did(w, Act::Devtools(t.active)),
            ),
            _ => None,
        }
    } else {
        None
    }
}

pub open spec fn is_alnum(c: int) -> bool {
    0x30 <= c <= 0x39 || 0x41 <= c <= 0x5a || 0x61 <= c <= 0x7a
}

/// What a shortcut does: bindings of the script run first, and may take a key
/// from a built-in one.
pub open spec fn hotkey_run(
    w: Win,
    vk: u16,
    m: Mods,
    bound: Option<Seq<Action>>,
    profiles: Seq<Profile>,
) -> Option<Win> {
    match bound {
        Some(v) => {
            let w1 = actions::actions_run(w, v, profiles, v.len() as int);
            if is_alnum((vk % 256) as int) {
                Some(Win { suppress_char: true, ..w1 })
            } else {
                Some(w1)
            }
        },
        None => shortcut(w, vk, m),
    }
}

/// The mode of the active terminal.
pub open spec fn active_mode(w: Win) -> u32 {
    match actions::active_term(w) {
        Some(id) => match window::screen_of(w, id) {
            Some(s) => s.mode,
            None => 0,
        },
        None => 0,
    }
}

/// The window with typed bytes on the way to the active terminal, which shows
/// its end again.
pub open spec fn typed_to_active(w: Win, bytes: Seq<u8>) -> Win {
    match actions::active_term(w) {
        Some(id) => {
            let w1 = match window::screen_of(w, id) {
                Some(s) if s.offset != 0 => window::did(w, Act::ScrollToBottom(id)),
                _ => w,
            };
            window::with_work(w1, Work::Write(id, bytes))
        },
        None => w,
    }
}

/// What a key that no shortcut and no overlay took sends to the shell.
pub open spec fn shell_keyed(w: Win, vk: u16, m: Mods, base: Option<u32>) -> (Win, bool) {
    let mode = active_mode(w);
    let paging = m.shift && !m.ctrl && !m.alt && (vk == keys::VK_PRIOR || vk == keys::VK_NEXT);
    let paged = match actions::active_term(w) {
        Some(id) if paging && window::screen_of(w, id) is Some && !modes::mode_has(
            mode,
            modes::ALT_SCREEN,
        ) => Some(window::did(w, Act::ScrollPage { pane: id, up: vk == keys::VK_PRIOR })),
        _ => None,
    };
    match paged {
        Some(w1) => (window::did(w1, Act::Invalidate), true),
        None => match keys::key_bytes(
            vk,
            m,
            modes::mode_has(mode, modes::APP_CURSOR),
            modes::mode_has(mode, modes::DISAMBIGUATE_ESC_CODES),
            base,
        ) {
            Some(b) => (window::did(typed_to_active(w, b), Act::Invalidate), true),
            None => (w, false),
        },
    }
}

/// What a key press does, and whether it was taken.
pub open spec fn key_pressed(
    w: Win,
    vk: u16,
    m: Mods,
    bound: Option<Seq<Action>>,
    profiles: Seq<Profile>,
    base: Option<u32>,
) -> (Win, bool) {
    let w0 = Win { suppress_char: false, ..w };
    if w.cheatsheet {
        if is_modifier(vk) {
            (w0, true)
        } else {
            (
                window::did(
                    Win { cheatsheet: false, suppress_char: true, ..w0 },
                    Act::Invalidate,
                ),
                true,
            )
        }
    } else {
        match hotkey_run(w0, vk, m, bound, profiles) {
            Some(w1) => (w1, true),
            None => if w0.palette is Some {
                (actions::palette_keyed(w0, vk), true)
            } else if w0.hints is Some {
                (actions::hints_keyed(w0, vk), true)
            } else if w0.search is Some {
                (actions::search_keyed(w0, vk, m), true)
            } else {
                shell_keyed(w0, vk, m, base)
            },
        }
    }
}

/// The window with a character put behind the query of the search bar.
pub open spec fn search_typed(w: Win, c: char) -> Win {
    match w.search {
        Some(s) => window::did(
            Win { search: Some(SearchModel { query: s.query.push(c), ..s }), ..w },
            Act::RefreshSearch,
        ),
        None => w,
    }
}

/// What a UTF-16 unit of typed text does. Enter, Tab, Backspace and Escape have
/// been handled as keys.
pub open spec fn char_typed(w: Win, code: u16) -> Win {
    let whole = if vstd::utf8::is_scalar(code as u32) {
        Some(code as char)
    } else {
        None
    };
    if w.suppress_char {
        Win { suppress_char: false, ..w }
    } else if code == 0x0d || code == 0x09 || code == 0x08 || code == 0x1b {
        w
    } else if w.palette is Some {
        match whole {
            Some(c) => actions::palette_typed(w, c),
            None => w,
        }
    } else if w.hints is Some {
        match whole {
            Some(c) => actions::hints_typed(w, c),
            None => w,
        }
    } else if w.search is Some {
        match whole {
            Some(c) if code >= 0x20 && code != 0x7f => search_typed(w, c),
            _ => w,
        }
    } else {
        let w1 = Win { pending: input::still_pending(w.pending, code), ..w };
        match input::typed_char(w.pending, code) {
            Some(c) => typed_to_active(w1, input::sent(seq![c])),
            None => w1,
        }
    }
}

/// What a character typed with Alt does, and whether it was taken: it goes to
/// the shell behind an escape. Alt and Space is the window's menu.
pub open spec fn alt_char_typed(w: Win, code: u16) -> (Win, bool) {
    if w.suppress_char {
        (Win { suppress_char: false, ..w }, true)
    } else if code == 0x20 {
        (w, false)
    } else if vstd::utf8::is_scalar(code as u32) {
        (
            actions::sent_to_active(w, seq![0x1bu8] + input::sent(seq![code as char])),
            true,
        )
    } else {
        (w, true)
    }
}

impl TermWindow {
    /// Show the tab before the active one.
    pub fn go_before(&mut self)
        requires
            old(self).wf(),
        ensures
            final(self).wf(),
            final(self)@ == window::switched(old(self)@, tab_before(old(self)@)),
    {
        let n: usize = self.tabs.len();
        if n == 0 {
            return;
        }
        proof {
            lemma_step(self@.active, n as int);
        }
        if self.active == 0 {
            self.switch_tab(n - 1);
        } else {
            self.switch_tab(self.active - 1);
        }
    }

    /// Show the tab behind the active one.
    pub fn go_behind(&mut self)
        requires
            old(self).wf(),
        ensures
            final(self).wf(),
            final(self)@ == window::switched(old(self)@, tab_behind(old(self)@)),
    {
        let n: usize = self.tabs.len();
        if n == 0 {
            return;
        }
        proof {
            lemma_step(self@.active, n as int);
        }
        if self.active == n - 1 {
            self.switch_tab(0);
        } else {
            self.switch_tab(self.active + 1);
        }
    }

    fn go_to_digit(&mut self, c: u16)
        requires
            old(self).wf(),
            0x31 <= c <= 0x39,
        ensures
            final(self).wf(),
            final(self)@ == window::switched(old(self)@, digit_tab(old(self)@, c as int)),
    {
        let n: usize = self.tabs.len();
        let i: usize = if c == 0x39 {
            if n == 0 {
                0
            } else {
                n - 1
            }
        } else {
            (c - 0x31) as usize
        };
        self.switch_tab(i);
    }

    fn ctrl_shift_text(&mut self, c: u16) -> (r: bool)
        requires
            old(self).wf(),
        ensures
            final(self).wf(),
            match ctrl_shift_letter(old(self)@, c) {
                Some(w) => r && final(self)@ == w,
                None => !r && final(self)@ == old(self)@,
            },
    {
        if c == 0x54 {
            self.new_tab();
        } else if c == 0x4e {
            self.act(Act::NewWindow);
        } else if c == 0x57 {
            self.close_active_pane();
        } else if c == 0x44 {
            self.act(Act::Split(Dir::Row));
        } else if c == 0x45 {
            self.act(Act::Split(Dir::Col));
        } else if c == 0x42 {
            self.act(Act::BrowserSplit);
        } else if c == 0x4d {
            self.detach_tab(self.active, None);
        } else if c == 0x43 {
            self.copy_selection();
        } else if c == 0x56 {
            self.act(Act::AskClipboard);
        } else if c == 0x46 {
            self.toggle_search();
        } else if c == 0x50 {
            self.act(Act::AskPalette);
        } else if c == 0x53 {
            self.act(Act::AskNextTheme);
        } else if 0x31 <= c && c <= 0x39 {
            self.new_tab_with_profile((c - 0x31) as usize);
        } else {
            return false;
        }
        true
    }

    fn ctrl_shift_named(&mut self, vk: u16) -> (r: bool)
        requires
            old(self).wf(),
        ensures
            final(self).wf(),
            match ctrl_shift_other(old(self)@, vk) {
                Some(w) => r && final(self)@ == w,
                None => !r && final(self)@ == old(self)@,
            },
    {
        if vk == keys::VK_TAB {
            self.go_before();
        } else if vk == keys::VK_PRIOR {
            self.move_tab(true);
        } else if vk == keys::VK_NEXT {
            self.move_tab(false);
        } else if vk == keys::VK_RETURN {
            self.zoom_toggle();
        } else if vk == keys::VK_UP {
            self.prompt_jump(true);
        } else if vk == keys::VK_DOWN {
            self.prompt_jump(false);
        } else if vk == keys::VK_SPACE {
            self.open_hints();
        } else if vk == VK_OEM_2 {
            self.toggle_cheatsheet();
        } else {
            return false;
        }
        true
    }

    fn ctrl_shift(&mut self, vk: u16) -> (r: bool)
        requires
            old(self).wf(),
        ensures
            final(self).wf(),
            match ctrl_shift_key(old(self)@, vk) {
                Some(w) => r && final(self)@ == w,
                None => !r && final(self)@ == old(self)@,
            },
    {
        let c: u16 = vk % 256;
        if !self.ctrl_shift_text(c) {
            if !self.ctrl_shift_named(vk) {
                return false;
            }
        }
        if 0x41 <= c && c <= 0x5a {
            self.suppress_char = true;
        }
        true
    }

    /// The active pane, where it is a page.
    fn active_page(&self) -> (r: Option<PaneId>)
        requires
            self.wf(),
        ensures
            r == (match window::current(self@) {
                Some(t) if window::is_browser(t, t.active) => Some(t.active),
                _ => None,
            }),
    {
        if self.active >= self.tabs.len() {
            return None;
        }
        assert(self@.tabs[self.active as int] == self.tabs@[self.active as int]@);
        let t = &self.tabs[self.active];
        if t.active_is_browser() {
            Some(t.active)
        } else {
            None
        }
    }

    fn ctrl_only(&mut self, vk: u16) -> (r: bool)
        requires
            old(self).wf(),
        ensures
            final(self).wf(),
            match ctrl_key(old(self)@, vk) {
                Some(w) => r && final(self)@ == w,
                None => !r && final(self)@ == old(self)@,
            },
    {
        let c: u16 = vk % 256;
        if vk == keys::VK_TAB {
            self.go_behind();
        } else if vk == VK_OEM_COMMA {
            self.act(Act::OpenSettings { script: false });
        } else if vk == VK_OEM_PLUS {
            self.bump_font(1000);
        } else if vk == VK_OEM_MINUS {
            self.bump_font(-1000);
        } else if c == 0x4c {
            match self.active_page() {
                Some(id) => {
                    self.act(Act::FocusUrl(id));
                    self.suppress_char = true;
                },
                None => {
                    return false;
                },
            }
        } else if c == 0x30 {
            self.set_font_size(self.settings.font_size);
        } else if 0x31 <= c && c <= 0x39 {
            self.go_to_digit(c);
        } else {
            return false;
        }
        true
    }

    fn arrows(&mut self, vk: u16) -> (r: bool)
        requires
            old(self).wf(),
        ensures
            final(self).wf(),
            match arrow_key(old(self)@, vk) {
                Some(w) => r && final(self)@ == w,
                None => !r && final(self)@ == old(self)@,
            },
    {
        if vk == keys::VK_LEFT {
            self.focus_dir(-1, 0);
        } else if vk == keys::VK_RIGHT {
            self.focus_dir(1, 0);
        } else if vk == keys::VK_UP {
            self.focus_dir(0, -1);
        } else if vk == keys::VK_DOWN {
            self.focus_dir(0, 1);
        } else {
            return false;
        }
        true
    }

    /// Run a shortcut. `bound` is what a binding of the script for this key
    /// asked for, where there is one. Returns whether the key is a shortcut.
    pub fn hotkey(
        &mut self,
        vk: u16,
        m: &Mods,
        bound: &Option<Vec<Action>>,
        profiles: &Vec<Profile>,
    ) -> (r: bool)
        requires
            old(self).wf(),
        ensures
            final(self).wf(),
            match hotkey_run(old(self)@, vk, *m, bound_view(*bound), profiles@) {
                Some(w) => r && final(self)@ == w,
                None => !r && final(self)@ == old(self)@,
            },
    {
        let c: u16 = vk % 256;
        if let Some(v) = bound {
            self.run_actions(v, profiles);
            if (0x30 <= c && c <= 0x39) || (0x41 <= c && c <= 0x5a) || (0x61 <= c && c <= 0x7a) {
                self.suppress_char = true;
            }
            return true;
        }
        if m.ctrl && m.shift && !m.alt {
            return self.ctrl_shift(vk);
        }
        if m.ctrl && !m.shift && !m.alt {
            return self.ctrl_only(vk);
        }
        if m.alt && !m.ctrl && !m.shift && 0x31 <= c && c <= 0x39 {
            self.go_to_digit(c);
            self.suppress_char = true;
            return true;
        }
        if m.ctrl && m.alt && self.arrows(vk) {
            return true;
        }
        if vk == keys::VK_F12 {
            if let Some(id) = self.active_page() {
                self.act(Act::Devtools(id));
                return true;
            }
        }
        false
    }

    fn type_active(&mut self, bytes: Vec<u8>)
        requires
            old(self).wf(),
        ensures
            final(self).wf(),
            final(self)@ == typed_to_active(old(self)@, bytes@),
    {
        if let Some(id) = self.active_terminal() {
            if let Some(s) = self.screen(id) {
                if s.offset != 0 {
                    self.act(Act::ScrollToBottom(id));
                }
            }
            self.push(Job::Write(id, bytes));
        }
    }

    fn shell_key(&mut self, vk: u16, m: &Mods, mapped: u32) -> (r: bool)
        requires
            old(self).wf(),
        ensures
            final(self).wf(),
            (final(self)@, r) == shell_keyed(old(self)@, vk, *m, keys::base_code(vk, mapped)),
    {
        let mut mode: u32 = 0;
        if let Some(id) = self.active_terminal() {
            if let Some(s) = self.screen(id) {
                mode = s.mode;
                if m.shift && !m.ctrl && !m.alt && (vk == keys::VK_PRIOR || vk == keys::VK_NEXT)
                    && !modes::contains(mode, modes::ALT_SCREEN) {
                    self.act(Act::ScrollPage { pane: id, up: vk == keys::VK_PRIOR });
                    self.act(Act::Invalidate);
                    return true;
                }
            }
        }
        match keys::encode_key(vk, m, mode, mapped) {
            Some(bytes) => {
                self.type_active(bytes);
                self.act(Act::Invalidate);
                true
            },
            None => false,
        }
    }

    /// Whether bindings of the script get the next key: not while the list of
    /// shortcuts is on show.
    pub fn takes_bindings(&self) -> (r: bool)
        ensures
            r == !self@.cheatsheet,
    {
        !self.cheatsheet
    }

    /// A key is pressed. `mapped` is the code that the keyboard layout gives
    /// it. Returns whether it was taken.
    pub fn on_key_down(
        &mut self,
        vk: u16,
        m: &Mods,
        bound: &Option<Vec<Action>>,
        profiles: &Vec<Profile>,
        mapped: u32,
    ) -> (r: bool)
        requires
            old(self).wf(),
            actions::roomy(old(self)@),
        ensures
            final(self).wf(),
            (final(self)@, r) == key_pressed(
                old(self)@,
                vk,
                *m,
                bound_view(*bound),
                profiles@,
                keys::base_code(vk, mapped),
            ),
    {
        self.suppress_char = false;
        if self.cheatsheet {
            if !(vk == VK_SHIFT || vk == VK_CONTROL || vk == VK_MENU || vk == VK_LWIN || vk
                == VK_RWIN) {
                self.cheatsheet = false;
                self.suppress_char = true;
                self.act(Act::Invalidate);
            }
            return true;
        }
        if self.hotkey(vk, m, bound, profiles) {
            return true;
        }
        if self.palette.is_some() {
            self.palette_key(vk);
            return true;
        }
        if self.hints.is_some() {
            self.hints_key(vk);
            return true;
        }
        if self.search.is_some() {
            self.search_key(vk, m);
            return true;
        }
        self.shell_key(vk, m, mapped)
    }

    /// A UTF-16 unit of text is typed.
    pub fn on_char(&mut self, code: u16)
        requires
            old(self).wf(),
        ensures
            final(self).wf(),
            final(self)@ == char_typed(old(self)@, code),
    {
        if self.suppress_char {
            self.suppress_char = false;
            return;
        }
        if code == 0x0d || code == 0x09 || code == 0x08 || code == 0x1b {
            return;
        }
        if self.palette.is_some() {
            if let Some(c) = char::from_u32(code as u32) {
                self.palette_char(c);
            }
            return;
        }
        if self.hints.is_some() {
            if let Some(c) = char::from_u32(code as u32) {
                self.hints_char(c);
            }
            return;
        }
        if self.search.is_some() {
            if code >= 0x20 && code != 0x7f {
                if let Some(c) = char::from_u32(code as u32) {
                    match &mut self.search {
                        Some(s) => {
                            s.typed(c);
                        },
                        None => {},
                    }
                    self.act(Act::RefreshSearch);
                }
            }
            return;
        }
        let c = input::take_unit(&mut self.pending_surrogate, code);
        if let Some(c) = c {
            self.type_active(input::char_bytes(c));
        }
    }

    /// A character is typed with Alt. Returns whether it was taken.
    pub fn on_alt_char(&mut self, code: u16) -> (r: bool)
        requires
            old(self).wf(),
        ensures
            final(self).wf(),
            (final(self)@, r) == alt_char_typed(old(self)@, code),
    {
        if self.suppress_char {
            self.suppress_char = false;
            return true;
        }
        if code == 0x20 {
            return false;
        }
        if let Some(c) = char::from_u32(code as u32) {
            let mut bytes: Vec<u8> = Vec::new();
            bytes.push(0x1b);
            let mut rest = input::char_bytes(c);
            bytes.append(&mut rest);
            assert(bytes@ =~= seq![0x1bu8] + input::sent(seq![c]));
            self.send_active(bytes);
        }
        true
    }
}

pub open spec fn bound_view(b: Option<Vec<Action>>) -> Option<Seq<Action>> {
    match b {
        Some(v) => Some(v@),
        None => None,
    }
}

proof fn lemma_step(at: int, n: int)
    requires
        0 <= at < n,
    ensures
        (at - 1) % n == (if at == 0 {
            n - 1
        } else {
            at - 1
        }),
        (at + 1) % n == (if at == n - 1 {
            0
        } else {
            at + 1
        }),
{
    if at == 0 {
        assert((-1int) % n == n - 1) by (nonlinear_arith)
            requires
                n >= 1,
        ;
    } else {
        vstd::arithmetic::div_mod::lemma_small_mod((at - 1) as nat, n as nat);
    }
    if at == n - 1 {
        vstd::arithmetic::div_mod::lemma_mod_self_0(n);
    } else {
        vstd::arithmetic::div_mod::lemma_small_mod((at + 1) as nat, n as nat);
    }
}

/// While the list of shortcuts is on show, no key reaches the shell: nothing is
/// sent, and a key that is not a modifier takes it away.
pub proof fn law_cheatsheet_is_modal(
    w: Win,
    vk: u16,
    m: Mods,
    bound: Option<Seq<Action>>,
    profiles: Seq<Profile>,
    base: Option<u32>,
)
    requires
        w.cheatsheet,
    ensures
        key_pressed(w, vk, m, bound, profiles, base).1,
        key_pressed(w, vk, m, bound, profiles, base).0.cheatsheet == is_modifier(vk),
        key_pressed(w, vk, m, bound, profiles, base).0.tabs == w.tabs,
        forall|i: int|
            w.work.len() <= i < key_pressed(w, vk, m, bound, profiles, base).0.work.len()
                ==> #[trigger] key_pressed(w, vk, m, bound, profiles, base).0.work[i]
                == Work::Act(Act::Invalidate),
{
}

/// The character of a key that was taken as a shortcut with a letter never
/// reaches the shell.
pub proof fn law_shortcut_types_nothing(w: Win, vk: u16, m: Mods, code: u16)
    requires
        m.ctrl,
        m.shift,
        !m.alt,
        0x41 <= vk <= 0x5a,
        shortcut(w, vk, m) is Some,
    ensures
        char_typed(shortcut(w, vk, m)->0, code).work == (shortcut(w, vk, m)->0).work,
{
}

/// Going one tab on and one tab back ends at the tab it began with.
pub proof fn law_tab_on_and_back(w: Win)
    requires
        window::win_wf(w),
        w.tabs.len() > 0,
    ensures
        tab_before(window::switched(w, tab_behind(w))) == w.active,
{
    let n = w.tabs.len() as int;
    lemma_step(w.active, n);
    let to = tab_behind(w);
    let w1 = window::switched(w, to);
    assert(w1.tabs.len() == n);
    assert(w1.active == to);
    lemma_step(to, n);
}

/// The shortcuts with Ctrl and Shift: T new tab, N new window, W close, D split
/// to the right, E split down, B split with a page, M tab to a window of its
/// own, C copy, V paste, F search, P palette, S next theme; the digits a tab
/// with that profile. None of these letters is typed.
pub proof fn law_ctrl_shift_letters(w: Win, m: Mods)
    requires
        m.ctrl,
        m.shift,
        !m.alt,
    ensures
        ({
            let did = |a: Act| Some(Win { suppress_char: true, ..window::did(w, a) });
            let quiet = |x: Win| Some(Win { suppress_char: true, ..x });
            &&& shortcut(w, 0x54, m) == did(Act::NewTab(None))
            &&& shortcut(w, 0x4e, m) == did(Act::NewWindow)
            &&& shortcut(w, 0x57, m) == quiet(tab_ops::active_closed(w))
            &&& shortcut(w, 0x44, m) == did(Act::Split(Dir::Row))
            &&& shortcut(w, 0x45, m) == did(Act::Split(Dir::Col))
            &&& shortcut(w, 0x42, m) == did(Act::BrowserSplit)
            &&& shortcut(w, 0x4d, m) == quiet(tab_ops::detaching(w, w.active, None))
            &&& shortcut(w, 0x43, m) == quiet(actions::copying(w))
            &&& shortcut(w, 0x56, m) == did(Act::AskClipboard)
            &&& shortcut(w, 0x46, m) == quiet(actions::search_toggled(w))
            &&& shortcut(w, 0x50, m) == did(Act::AskPalette)
            &&& shortcut(w, 0x53, m) == did(Act::AskNextTheme)
            &&& forall|k: u16|
                1 <= k <= 9 ==> #[trigger] shortcut(w, (0x30 + k) as u16, m) == Some(
                    if k <= w.settings.profiles {
                        window::did(w, Act::NewTab(Some((k - 1) as usize)))
                    } else {
                        w
                    },
                )
        }),
{
    assert forall|k: u16| 1 <= k <= 9 implies #[trigger] shortcut(w, (0x30 + k) as u16, m) == Some(
        if k <= w.settings.profiles {
            window::did(w, Act::NewTab(Some((k - 1) as usize)))
        } else {
            w
        },
    ) by {
        let vk = (0x30 + k) as u16;
        assert(vk % 256 == vk);
    }
}

/// The shortcuts with Ctrl, Shift and a named key: Tab the tab before, Page Up
/// and Page Down move the tab to the left and to the right, Enter zooms, Up and
/// Down jump to an older and a newer prompt, Space opens the hints, the slash
/// the list of shortcuts.
pub proof fn law_ctrl_shift_named_keys(w: Win, m: Mods)
    requires
        m.ctrl,
        m.shift,
        !m.alt,
        window::win_wf(w),
        w.tabs.len() > 1,
    ensures
        shortcut(w, 0x09, m) matches Some(r) && r.active == (if w.active == 0 {
            w.tabs.len() - 1
        } else {
            w.active - 1
        }),
        shortcut(w, 0x21, m) matches Some(r) && r.active == (if w.active == 0 {
            w.tabs.len() - 1
        } else {
            w.active - 1
        }) && r.tabs[r.active] == w.tabs[w.active],
        shortcut(w, 0x22, m) matches Some(r) && r.active == (if w.active == w.tabs.len() - 1 {
            0
        } else {
            w.active + 1
        }) && r.tabs[r.active] == w.tabs[w.active],
        shortcut(w, 0x0d, m) == Some(tab_ops::zoom_toggled(w)),
        shortcut(w, 0x26, m) == Some(actions::prompt_jumped(w, true)),
        shortcut(w, 0x28, m) == Some(actions::prompt_jumped(w, false)),
        shortcut(w, 0x20, m) == Some(actions::hints_asked(w)),
        shortcut(w, 0xbf, m) matches Some(r) && r.cheatsheet == !w.cheatsheet,
{
    let n = w.tabs.len() as int;
    lemma_step(w.active, n);
    window::law_switch_shows_tab(w, tab_before(w), 0, 0);
}

/// The shortcuts with Ctrl alone: Tab the next tab, a digit that tab and 9 the
/// last one, plus and minus a larger and a smaller font, 0 the usual one, comma
/// the settings; L the URL bar where the active pane is a page, and nothing of
/// the window's otherwise.
pub proof fn law_ctrl_keys(w: Win, m: Mods, k: u16)
    requires
        m.ctrl,
        !m.shift,
        !m.alt,
        window::win_wf(w),
        w.tabs.len() > 0,
        1 <= k <= 8,
    ensures
        shortcut(w, 0x09, m) matches Some(r) && r.active == (if w.active == w.tabs.len() - 1 {
            0
        } else {
            w.active + 1
        }),
        shortcut(w, (0x30 + k) as u16, m) matches Some(r) && r.active == (if k <= w.tabs.len() {
            k - 1
        } else {
            w.active
        }),
        shortcut(w, 0x39, m) matches Some(r) && r.active == w.tabs.len() - 1,
        shortcut(w, 0xbb, m) == Some(tab_ops::font_set(w, window::font_of(w) + 1000)),
        shortcut(w, 0xbd, m) == Some(tab_ops::font_set(w, window::font_of(w) - 1000)),
        shortcut(w, 0x30, m) == Some(tab_ops::font_set(w, w.settings.font_size as int)),
        shortcut(w, 0xbc, m) == Some(window::did(w, Act::OpenSettings { script: false })),
        ({
            let t = w.tabs[w.active];
            if window::is_browser(t, t.active) {
                shortcut(w, 0x4c, m) == Some(
                    Win { suppress_char: true, ..window::did(w, Act::FocusUrl(t.active)) },
                )
            } else {
                shortcut(w, 0x4c, m) is None
            }
        }),
{
    let n = w.tabs.len() as int;
    lemma_step(w.active, n);
    let vk = (0x30 + k) as u16;
    assert(vk % 256 == vk);
    window::law_switch_shows_tab(w, tab_behind(w), 0, 0);
    window::law_switch_shows_tab(w, k - 1, 0, 0);
    window::law_switch_shows_tab(w, n - 1, 0, 0);
}

/// Ctrl and Alt with an arrow move the focus that way, Alt with a digit shows
/// that tab, and F12 opens the tools of a page.
pub proof fn law_other_shortcuts(w: Win, m: Mods, k: u16)
    requires
        window::win_wf(w),
        w.tabs.len() > 0,
        1 <= k <= 8,
    ensures
        m.ctrl && m.alt ==> {
            &&& shortcut(w, 0x25, m) == Some(tab_ops::focus_moved(w, -1, 0))
            &&& shortcut(w, 0x27, m) == Some(tab_ops::focus_moved(w, 1, 0))
            &&& shortcut(w, 0x26, m) == Some(tab_ops::focus_moved(w, 0, -1))
            &&& shortcut(w, 0x28, m) == Some(tab_ops::focus_moved(w, 0, 1))
        },
        m.alt && !m.ctrl && !m.shift ==> {
            &&& shortcut(w, (0x30 + k) as u16, m) matches Some(r) && r.active == (if k
                <= w.tabs.len() {
                k - 1
            } else {
                w.active
            }) && r.suppress_char
            &&& shortcut(w, 0x39, m) matches Some(r) && r.active == w.tabs.len() - 1
        },
        !m.ctrl && !m.alt ==> shortcut(w, 0x7b, m) == (if window::is_browser(
            w.tabs[w.active],
            w.tabs[w.active].active,
        ) {
            Some(window::did(w, Act::Devtools(w.tabs[w.active].active)))
        } else {
            None
        }),
{
    let n = w.tabs.len() as int;
    let vk = (0x30 + k) as u16;
    assert(vk % 256 == vk);
    window::law_switch_shows_tab(w, k - 1, 0, 0);
    window::law_switch_shows_tab(w, n - 1, 0, 0);
}

/// Without Ctrl and Alt no key but F12 is a shortcut: typing reaches the shell.
pub proof fn law_plain_keys_are_no_shortcuts(w: Win, vk: u16, m: Mods)
    requires
        !m.ctrl,
        !m.alt,
        vk != 0x7b,
    ensures
        shortcut(w, vk, m) is None,
{
}

/// A binding of the script takes its key before any shortcut of the window: just
/// its actions run.
pub proof fn law_bindings_run_first(
    w: Win,
    vk: u16,
    m: Mods,
    v: Seq<Action>,
    profiles: Seq<Profile>,
    base: Option<u32>,
)
    requires
        !w.cheatsheet,
    ensures
        ({
            let (r, taken) = key_pressed(w, vk, m, Some(v), profiles, base);
            let ran = actions::actions_run(
                Win { suppress_char: false, ..w },
                v,
                profiles,
                v.len() as int,
            );
            &&& taken
            &&& r == (Win { suppress_char: r.suppress_char, ..ran })
        }),
{
}

/// A key that is no shortcut goes to the shell while nothing is open over it:
/// the bytes that the key stands for are written to the active terminal, which
/// shows its end again if it was scrolled up.
pub proof fn law_keys_reach_shell(
    w: Win,
    vk: u16,
    m: Mods,
    profiles: Seq<Profile>,
    base: Option<u32>,
    id: PaneId,
    bytes: Seq<u8>,
)
    requires
        !w.cheatsheet,
        w.palette is None,
        w.hints is None,
        w.search is None,
        shortcut(Win { suppress_char: false, ..w }, vk, m) is None,
        actions::active_term(w) == Some(id),
        window::screen_of(w, id) matches Some(s) && keys::key_bytes(
            vk,
            m,
            s.mode & 2 == 2,
            s.mode & 0x4_0000 == 0x4_0000,
            base,
        ) == Some(bytes),
        vk != 0x21 && vk != 0x22,
    ensures
        ({
            let (r, taken) = key_pressed(w, vk, m, None, profiles, base);
            let scrolled = (window::screen_of(w, id)->0).offset != 0;
            &&& taken
            &&& r.work == (if scrolled {
                w.work.push(Work::Act(Act::ScrollToBottom(id)))
            } else {
                w.work
            }).push(Work::Write(id, bytes)).push(Work::Act(Act::Invalidate))
            &&& r.tabs == w.tabs
        }),
{
}

/// Shift and Page Up or Page Down turn a page of the scrollback, up and down,
/// unless the application has the whole screen.
pub proof fn law_shift_pages(w: Win, vk: u16, m: Mods, base: Option<u32>, id: PaneId)
    requires
        vk == 0x21 || vk == 0x22,
        m.shift,
        !m.ctrl,
        !m.alt,
        actions::active_term(w) == Some(id),
        window::screen_of(w, id) matches Some(s) && s.mode & 0x1000 == 0,
    ensures
        shell_keyed(w, vk, m, base).0.work == w.work.push(
            Work::Act(Act::ScrollPage { pane: id, up: vk == 0x21 }),
        ).push(Work::Act(Act::Invalidate)),
        shell_keyed(w, vk, m, base).1,
{
    let x = (window::screen_of(w, id)->0).mode;
    assert(x & 0x1000 == 0 ==> x & 0x1000 != 0x1000) by (bit_vector);
}

/// A character that is typed reaches the active terminal as it is, unless it
/// belongs to a key that has been handled; one that is typed with Alt reaches it
/// behind an escape.
pub proof fn law_characters_reach_shell(w: Win, code: u16, id: PaneId)
    requires
        !w.suppress_char,
        w.palette is None,
        w.hints is None,
        w.search is None,
        actions::active_term(w) == Some(id),
        window::screen_of(w, id) matches Some(s) && s.offset == 0,
        code >= 0x20,
        !(0xd800 <= code < 0xe000),
    ensures
        char_typed(w, code).work == w.work.push(
            Work::Write(id, vstd::utf8::encode_utf8(seq![code as char])),
        ),
        code != 0x20 ==> alt_char_typed(w, code).0.work == w.work.push(
            Work::Write(id, seq![0x1bu8] + vstd::utf8::encode_utf8(seq![code as char])),
        ),
        alt_char_typed(w, 0x20) == (w, false),
{
}

/// Typing while the search bar is open goes behind its query, and searches.
pub proof fn law_typing_searches(w: Win, code: u16)
    requires
        !w.suppress_char,
        w.palette is None,
        w.hints is None,
        w.search is Some,
        code >= 0x20,
        code != 0x7f,
        !(0xd800 <= code < 0xe000),
    ensures
        char_typed(w, code).search matches Some(s) && s.query == (w.search->0).query.push(
            code as char,
        ),
        char_typed(w, code).work == w.work.push(Work::Act(Act::RefreshSearch)),
{
}

/// Enter, Tab, Backspace and Escape are keys, not text; a control character is
/// not searched for; and the character of a shortcut is dropped, once.
pub proof fn law_characters_that_are_no_text(w: Win, code: u16)
    ensures
        !w.suppress_char && (code == 13 || code == 9 || code == 8 || code == 27) ==> char_typed(
            w,
            code,
        ) == w,
        !w.suppress_char && w.palette is None && w.hints is None && w.search is Some && (code < 32
            || code == 127) ==> char_typed(w, code) == w,
        w.suppress_char ==> char_typed(w, code) == (Win { suppress_char: false, ..w }),
{
}

} // verus!
