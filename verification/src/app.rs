//! What the windows of the application share: the list of windows, the
//! drop-down window and its hotkey, and when the settings were last read.
use vstd::prelude::*;
use crate::scripting;
use crate::session::{Session, WindowState};

verus! {

/// A window.
pub type Handle = isize;

pub const QUAKE_HOTKEY_ID: i32 = 0xba1;

pub const MOD_ALT: u32 = 1;

pub const MOD_CONTROL: u32 = 2;

pub const MOD_SHIFT: u32 = 4;

pub const MOD_NOREPEAT: u32 = 0x4000;

/// When the settings and the start-up script were last changed.
#[derive(Clone, Copy, PartialEq, Eq, Debug, Structural)]
pub struct Mtimes {
    pub settings: u64,
    pub script: u64,
}

pub struct App {
    pub windows: Vec<Handle>,
    /// The window that holds the global hotkey.
    pub hotkey_host: Option<Handle>,
    /// The drop-down window.
    pub quake: Option<Handle>,
    pub mtimes: Mtimes,
    /// The next number for a pane.
    pub next: u64,
}

/// The state that an `App` stands for.
#[verifier::ext_equal]
pub struct AppModel {
    pub windows: Seq<Handle>,
    pub hotkey_host: Option<Handle>,
    pub quake: Option<Handle>,
    pub mtimes: Mtimes,
    pub next: u64,
}

impl View for App {
    type V = AppModel;

    open spec fn view(&self) -> AppModel {
        AppModel {
            windows: self.windows@,
            hotkey_host: self.hotkey_host,
            quake: self.quake,
            mtimes: self.mtimes,
            next: self.next,
        }
    }
}

/// A position on the screen, in pixels.
#[derive(Clone, Copy, PartialEq, Eq, Debug, Structural)]
pub struct Place {
    pub x: i32,
    pub y: i32,
    pub w: i32,
    pub h: i32,
}

/// Where a new window goes.
#[derive(Clone, Copy, PartialEq, Eq, Debug)]
pub struct NewPlace {
    /// Where the system is not to choose.
    pub at: Option<(i32, i32)>,
    pub w: i32,
    pub h: i32,
}

/// A hotkey to be taken.
#[derive(Clone, Copy, PartialEq, Eq, Debug, Structural)]
pub enum HotkeyStep {
    /// It is held already, or there is none.
    Nothing,
    /// Its description makes no sense.
    Bad,
    Register { host: Handle, mods: u32, vk: u16 },
}

/// What to do with the drop-down window.
#[derive(Clone, Copy, PartialEq, Eq, Debug, Structural)]
pub enum QuakeStep {
    Hide(Handle),
    /// Show it, in front and with the focus.
    Show(Handle),
    Create(Place),
}

/// What follows the end of a window.
#[derive(Clone, Copy, PartialEq, Eq, Debug, Structural)]
pub struct Aftermath {
    /// The hotkey is given up.
    pub release: bool,
    /// The window that takes the hotkey over.
    pub heir: Option<Handle>,
    /// It was the last window.
    pub quit: bool,
}

/// The modifiers of a hotkey as the system takes them; it does not repeat.
pub open spec fn hotkey_mods(k: scripting::KeySpec) -> u32 {
    (MOD_NOREPEAT + (if k.ctrl {
        MOD_CONTROL as int
    } else {
        0
    }) + (if k.shift {
        MOD_SHIFT as int
    } else {
        0
    }) + (if k.alt {
        MOD_ALT as int
    } else {
        0
    })) as u32
}

/// What to do for a window that can hold the hotkey described by `spec`.
pub open spec fn hotkey_step(a: AppModel, host: Handle, spec: Seq<char>) -> HotkeyStep {
    if a.hotkey_host is Some || spec.len() == 0 {
        HotkeyStep::Nothing
    } else {
        match scripting::keyspec_of(spec) {
            None => HotkeyStep::Bad,
            Some(k) => HotkeyStep::Register { host, mods: hotkey_mods(k), vk: k.vk },
        }
    }
}

/// The full width and 45% of the height of the work area, at its top.
pub open spec fn quake_place(left: int, top: int, right: int, bottom: int) -> (int, int) {
    let h = bottom - top;
    (
        right - left,
        if h < 0 {
            -((-h * 45) / 100)
        } else {
            (h * 45) / 100
        },
    )
}

/// The drop-down window, where it is there.
pub open spec fn live_quake(a: AppModel) -> Option<Handle> {
    match a.quake {
        Some(q) => if a.windows.contains(q) {
            Some(q)
        } else {
            None
        },
        None => None,
    }
}

/// The handles among the first `n` that are not `h`.
pub open spec fn others(v: Seq<Handle>, h: Handle, n: int) -> Seq<Handle>
    decreases n,
{
    if n <= 0 || n > v.len() {
        Seq::empty()
    } else if v[n - 1] == h {
        others(v, h, n - 1)
    } else {
        others(v, h, n - 1).push(v[n - 1])
    }
}

pub open spec fn without(v: Seq<Handle>, h: Handle) -> Seq<Handle> {
    others(v, h, v.len() as int)
}

/// The state once a window is gone.
pub open spec fn gone(a: AppModel, h: Handle) -> AppModel {
    AppModel {
        windows: without(a.windows, h),
        quake: if a.quake == Some(h) {
            None
        } else {
            a.quake
        },
        hotkey_host: if a.hotkey_host == Some(h) {
            None
        } else {
            a.hotkey_host
        },
        ..a
    }
}

/// What follows once a window is gone: if it held the hotkey, that is given up
/// and the first window left takes it over.
pub open spec fn aftermath(a: AppModel, h: Handle) -> Aftermath {
    let rest = without(a.windows, h);
    Aftermath {
        release: a.hotkey_host == Some(h),
        heir: if a.hotkey_host == Some(h) && rest.len() > 0 {
            Some(rest[0])
        } else {
            None
        },
        quit: rest.len() == 0,
    }
}

/// The states among the first `n` that are there.
pub open spec fn present(v: Seq<Option<WindowState>>, n: int) -> Seq<WindowState>
    decreases n,
{
    if n <= 0 || n > v.len() {
        Seq::empty()
    } else {
        match v[n - 1] {
            Some(s) => present(v, n - 1).push(s),
            None => present(v, n - 1),
        }
    }
}

fn contains(v: &Vec<Handle>, h: Handle) -> (r: bool)
    ensures
        r == v@.contains(h),
{
    let mut i: usize = 0;
    while i < v.len()
        invariant
            i <= v@.len(),
            forall|j: int| 0 <= j < i ==> v@[j] != h,
        decreases v@.len() - i,
    {
        if v[i] == h {
            return true;
        }
        i += 1;
    }
    false
}

impl App {
    pub fn new() -> (r: App)
        ensures
            r@ == (AppModel {
                windows: Seq::empty(),
                hotkey_host: None,
                quake: None,
                mtimes: Mtimes { settings: 0, script: 0 },
                next: 1,
            }),
    {
        App {
            windows: Vec::new(),
            hotkey_host: None,
            quake: None,
            mtimes: Mtimes { settings: 0, script: 0 },
            next: 1,
        }
    }

    /// The next number for a pane.
    pub fn next_id(&mut self) -> (r: u64)
        ensures
            r == old(self)@.next,
            final(self)@ == (AppModel {
                next: if old(self)@.next == u64::MAX {
                    0
                } else {
                    (old(self)@.next + 1) as u64
                },
                ..old(self)@
            }),
    {
        let r: u64 = self.next;
        self.next = r.wrapping_add(1);
        r
    }

    /// The settings on disk have changed since they were read: read them again.
    pub fn poll_config_change(&mut self, now: Mtimes) -> (r: bool)
        ensures
            r == (now != old(self)@.mtimes),
            final(self)@ == (AppModel { mtimes: now, ..old(self)@ }),
    {
        let changed = !(self.mtimes == now);
        self.mtimes = now;
        changed
    }

    pub fn register(&mut self, h: Handle)
        ensures
            final(self)@ == (AppModel { windows: old(self)@.windows.push(h), ..old(self)@ }),
    {
        self.windows.push(h);
    }

    /// Take a window off the list, and say whether it is empty now.
    pub fn unregister(&mut self, h: Handle) -> (r: bool)
        ensures
            final(self)@ == (AppModel { windows: without(old(self)@.windows, h), ..old(self)@ }),
            r == (without(old(self)@.windows, h).len() == 0),
    {
        let mut kept: Vec<Handle> = Vec::new();
        let mut i: usize = 0;
        while i < self.windows.len()
            invariant
                i <= self.windows@.len(),
                *self == *old(self),
                kept@ == others(self.windows@, h, i as int),
            decreases self.windows@.len() - i,
        {
            if self.windows[i] != h {
                kept.push(self.windows[i]);
            }
            i += 1;
        }
        self.windows = kept;
        self.windows.len() == 0
    }

    pub fn is_registered(&self, h: Handle) -> (r: bool)
        ensures
            r == self@.windows.contains(h),
    {
        contains(&self.windows, h)
    }

    /// Hold the global hotkey with `host` if nobody holds it yet. Where there
    /// is something to register, `hotkey_taken` says how that went.
    pub fn ensure_quake_hotkey(&self, host: Handle, spec: &str) -> (r: HotkeyStep)
        ensures
            r == hotkey_step(self@, host, spec@),
    {
        if self.hotkey_host.is_some() || spec.is_empty() {
            return HotkeyStep::Nothing;
        }
        match scripting::parse_keyspec(spec) {
            None => HotkeyStep::Bad,
            Some(k) => {
                let mut mods: u32 = MOD_NOREPEAT;
                if k.ctrl {
                    mods = mods + MOD_CONTROL;
                }
                if k.shift {
                    mods = mods + MOD_SHIFT;
                }
                if k.alt {
                    mods = mods + MOD_ALT;
                }
                HotkeyStep::Register { host, mods, vk: k.vk }
            },
        }
    }

    pub fn hotkey_taken(&mut self, host: Handle, taken: bool)
        ensures
            final(self)@ == (AppModel {
                hotkey_host: if taken {
                    Some(host)
                } else {
                    old(self)@.hotkey_host
                },
                ..old(self)@
            }),
    {
        if taken {
            self.hotkey_host = Some(host);
        }
    }

    /// Toggle the drop-down window: create it on first use, then show or hide
    /// it. `in_front` says that it is visible and the foreground window; the
    /// rest is the work area.
    pub fn toggle_quake(
        &self,
        in_front: bool,
        left: i32,
        top: i32,
        right: i32,
        bottom: i32,
    ) -> (r: QuakeStep)
        requires
            i32::MIN <= right - left <= i32::MAX,
            i32::MIN <= bottom - top <= i32::MAX,
        ensures
            r == match live_quake(self@) {
                Some(q) => if in_front {
                    QuakeStep::Hide(q)
                } else {
                    QuakeStep::Show(q)
                },
                None => {
                    let (w, h) = quake_place(left as int, top as int, right as int, bottom as int);
                    QuakeStep::Create(Place { x: left, y: top, w: w as i32, h: h as i32 })
                },
            },
    {
        if let Some(q) = self.quake {
            if self.is_registered(q) {
                return if in_front {
                    QuakeStep::Hide(q)
                } else {
                    QuakeStep::Show(q)
                };
            }
        }
        let tall: i64 = bottom as i64 - top as i64;
        let h: i64 = if tall < 0 {
            -((-tall * 45) / 100)
        } else {
            (tall * 45) / 100
        };
        QuakeStep::Create(Place { x: left, y: top, w: right - left, h: h as i32 })
    }

    /// The drop-down window has been created.
    pub fn quake_created(&mut self, h: Handle)
        ensures
            final(self)@ == (AppModel { quake: Some(h), ..old(self)@ }),
    {
        self.quake = Some(h);
    }

    /// A window is gone: it leaves the list, the drop-down slot and the hotkey.
    pub fn window_destroyed(&mut self, h: Handle) -> (r: Aftermath)
        ensures
            final(self)@ == gone(old(self)@, h),
            r == aftermath(old(self)@, h),
    {
        let quit = self.unregister(h);
        if let Some(q) = self.quake {
            if q == h {
                self.quake = None;
            }
        }
        let mut release = false;
        let mut heir: Option<Handle> = None;
        if let Some(k) = self.hotkey_host {
            if k == h {
                release = true;
                self.hotkey_host = None;
                if self.windows.len() > 0 {
                    heir = Some(self.windows[0]);
                }
            }
        }
        Aftermath { release, heir, quit }
    }

    /// The window whose tab bar a tab is dropped on, and where: `root` is the
    /// window under the pointer, `index` the place that it offers.
    pub fn tabbar_hit(&self, root: Option<Handle>, not: Handle, index: Option<usize>) -> (r: Option<
        (Handle, usize),
    >)
        ensures
            r == match (root, index) {
                (Some(h), Some(i)) => if h != not && self@.windows.contains(h) {
                    Some((h, i))
                } else {
                    None
                },
                _ => None,
            },
    {
        match (root, index) {
            (Some(h), Some(i)) => if h != not && self.is_registered(h) {
                Some((h, i))
            } else {
                None
            },
            _ => None,
        }
    }
}

/// Where a window goes that is torn off at a point, or opened anew: its bar
/// comes to be under the pointer.
pub fn create_window(pos: Option<(i32, i32)>) -> (r: NewPlace)
    requires
        pos matches Some(p) ==> p.0 >= i32::MIN + 80 && p.1 >= i32::MIN + 16,
    ensures
        r == (NewPlace {
            at: match pos {
                Some(p) => Some(((p.0 - 80) as i32, (p.1 - 16) as i32)),
                None => None,
            },
            w: 1180,
            h: 760,
        }),
{
    NewPlace {
        at: match pos {
            Some(p) => Some((p.0 - 80, p.1 - 16)),
            None => None,
        },
        w: 1180,
        h: 760,
    }
}

/// Where a restored window goes: where it was, 200 by 120 pixels at least.
pub fn create_window_restored(state: &WindowState) -> (r: NewPlace)
    ensures
        r == (NewPlace {
            at: Some((state.x, state.y)),
            w: if state.w < 200 {
                200
            } else {
                state.w
            },
            h: if state.h < 120 {
                120
            } else {
                state.h
            },
        }),
{
    NewPlace {
        at: Some((state.x, state.y)),
        w: if state.w < 200 {
            200
        } else {
            state.w
        },
        h: if state.h < 120 {
            120
        } else {
            state.h
        },
    }
}

/// The session made of what the windows are, unless sessions are not kept.
pub fn save_session(keep: bool, windows: Vec<Option<WindowState>>) -> (r: Option<Session>)
    ensures
        r is Some == keep,
        r matches Some(s) ==> s.windows@ == present(windows@, windows@.len() as int),
{
    if !keep {
        return None;
    }
    let ghost all = windows@;
    let mut rest = windows;
    let mut back: Vec<WindowState> = Vec::new();
    let mut i: usize = rest.len();
    while i > 0
        invariant
            i <= all.len(),
            rest@ == all.take(i as int),
            present(all, all.len() as int) == present(all, i as int) + back@.reverse(),
        decreases i,
    {
        i -= 1;
        let ghost behind = back@;
        assert(rest@.last() == all[i as int]);
        if let Some(Some(s)) = rest.pop() {
            back.push(s);
            assert(back@.reverse() =~= seq![s] + behind.reverse());
            assert(present(all, i + 1) + behind.reverse() =~= present(all, i as int)
                + back@.reverse());
        }
        assert(rest@ =~= all.take(i as int));
    }
    let mut out: Vec<WindowState> = Vec::new();
    let ghost whole = back@;
    while back.len() > 0
        invariant
            out@ + back@.reverse() == whole.reverse(),
        decreases back@.len(),
    {
        let ghost behind = back@;
        let ghost had = out@;
        if let Some(s) = back.pop() {
            out.push(s);
            assert(behind.reverse() =~= seq![s] + back@.reverse());
            assert(out@ + back@.reverse() =~= had + behind.reverse());
        }
    }
    assert(out@ =~= out@ + back@.reverse());
    assert(whole.reverse() =~= present(all, 0) + whole.reverse());
    Some(Session { windows: out })
}

/// The windows to open at the start: those of the saved session, where sessions
/// are kept; one fresh window is opened where there is none.
pub fn windows_to_open(keep: bool, saved: Option<Session>) -> (r: Vec<WindowState>)
    ensures
        match saved {
            Some(s) if keep => r@ == s.windows@,
            _ => r@.len() == 0,
        },
{
    match saved {
        Some(s) => if keep {
            s.windows
        } else {
            Vec::new()
        },
        None => Vec::new(),
    }
}

proof fn lemma_others(v: Seq<Handle>, h: Handle, x: Handle, n: int)
    requires
        0 <= n <= v.len(),
    ensures
        others(v, h, n).contains(x) <==> x != h && v.take(n).contains(x),
    decreases n,
{
    let o = others(v, h, n);
    if n > 0 {
        lemma_others(v, h, x, n - 1);
        let p = others(v, h, n - 1);
        assert(v.take(n) =~= v.take(n - 1).push(v[n - 1]));
        if p.contains(x) {
            let i = choose|i: int| 0 <= i < p.len() && p[i] == x;
            assert(o[i] == x);
        }
        if v.take(n - 1).contains(x) {
            let front = v.take(n - 1);
            let i = choose|i: int| 0 <= i < front.len() && front[i] == x;
            assert(v.take(n)[i] == x);
        }
        if v[n - 1] == x {
            assert(v.take(n)[n - 1] == x);
            if x != h {
                assert(o[o.len() - 1] == x);
            }
        }
        if o.contains(x) && x != v[n - 1] {
            let i = choose|i: int| 0 <= i < o.len() && o[i] == x;
            assert(p[i] == x);
        }
        if v.take(n).contains(x) && x != v[n - 1] {
            let front = v.take(n);
            let i = choose|i: int| 0 <= i < front.len() && front[i] == x;
            assert(v.take(n - 1)[i] == x);
        }
    }
}

/// Once a window is gone nothing refers to it, and every other window is still
/// there.
pub proof fn law_gone_is_forgotten(a: AppModel, h: Handle)
    ensures
        !gone(a, h).windows.contains(h),
        gone(a, h).quake != Some(h),
        gone(a, h).hotkey_host != Some(h),
        forall|x: Handle|
            x != h ==> (#[trigger] gone(a, h).windows.contains(x) <==> a.windows.contains(x)),
{
    let n = a.windows.len() as int;
    assert(a.windows.take(n) =~= a.windows);
    lemma_others(a.windows, h, h, n);
    assert forall|x: Handle| x != h implies (#[trigger] gone(a, h).windows.contains(x)
        <==> a.windows.contains(x)) by {
        lemma_others(a.windows, h, x, n);
    }
}

/// The hotkey is held by a window that is there, if by any.
pub open spec fn host_alive(a: AppModel) -> bool {
    a.hotkey_host matches Some(h) ==> a.windows.contains(h)
}

/// Windows come and go, and the hotkey is never held by one that is not there.
pub proof fn law_host_is_alive(a: AppModel, h: Handle)
    requires
        host_alive(a),
    ensures
        host_alive(gone(a, h)),
        host_alive(AppModel { windows: a.windows.push(h), ..a }),
{
    law_gone_is_forgotten(a, h);
    if let Some(k) = a.hotkey_host {
        if k != h {
            assert(gone(a, h).windows.contains(k));
        }
        let i = choose|i: int| 0 <= i < a.windows.len() && a.windows[i] == k;
        assert(a.windows.push(h)[i] == k);
    }
}

/// The hotkey passes on to a window that is there, whenever one is left.
pub proof fn law_hotkey_passes_on(a: AppModel, h: Handle)
    requires
        a.hotkey_host == Some(h),
    ensures
        aftermath(a, h).release,
        match aftermath(a, h).heir {
            Some(x) => gone(a, h).windows.contains(x) && x != h,
            None => aftermath(a, h).quit,
        },
{
    law_gone_is_forgotten(a, h);
    let rest = without(a.windows, h);
    if rest.len() > 0 {
        assert(rest.contains(rest[0]));
    }
}

/// The hotkey is asked for with just the modifiers of its description, and does
/// not repeat while it is held.
pub proof fn law_hotkey_mods(k: scripting::KeySpec)
    ensures
        hotkey_mods(k) == 0x4000 + (if k.alt {
            1int
        } else {
            0
        }) + (if k.ctrl {
            2int
        } else {
            0
        }) + (if k.shift {
            4int
        } else {
            0
        }),
{
}

/// One window at a time holds the hotkey: it is asked for where none holds it
/// and a description is given, for the key described.
pub proof fn law_hotkey_asked_for(a: AppModel, host: Handle, spec: Seq<char>)
    ensures
        a.hotkey_host is Some || spec.len() == 0 ==> hotkey_step(a, host, spec)
            == HotkeyStep::Nothing,
        a.hotkey_host is None && spec.len() > 0 ==> (match scripting::keyspec_of(spec) {
            None => hotkey_step(a, host, spec) == HotkeyStep::Bad,
            Some(k) => hotkey_step(a, host, spec) matches HotkeyStep::Register { host: h, mods, vk }
                && h == host && vk == k.vk && mods == hotkey_mods(k),
        }),
{
}

/// The drop-down window is as wide as the work area, and 45 hundredths as high,
/// to the pixel.
pub proof fn law_quake_place(left: int, top: int, right: int, bottom: int)
    requires
        top <= bottom,
    ensures
        ({
            let (w, h) = quake_place(left, top, right, bottom);
            &&& left + w == right
            &&& 100 * h <= 45 * (bottom - top) < 100 * (h + 1)
        }),
{
}

/// The windows that are left stay in their order.
pub proof fn law_windows_stay_in_order(v: Seq<Handle>, h: Handle, i: int, j: int)
    requires
        0 <= i < j < v.len(),
        v[i] != h,
        v[j] != h,
        v.no_duplicates(),
    ensures
        exists|a: int, b: int|
            0 <= a < b < without(v, h).len() && #[trigger] without(v, h)[a] == v[i]
                && #[trigger] without(v, h)[b] == v[j],
{
    lemma_others_place(v, h, v.len() as int, i);
    lemma_others_place(v, h, v.len() as int, j);
    lemma_others_count(v, h, i, j);
    let a = others(v, h, i).len() as int;
    let b = others(v, h, j).len() as int;
    assert(without(v, h)[a] == v[i] && without(v, h)[b] == v[j]);
}

/// A handle that stays is in the place of those before it that stay.
proof fn lemma_others_place(v: Seq<Handle>, h: Handle, n: int, i: int)
    requires
        0 <= i < n <= v.len(),
        v[i] != h,
    ensures
        others(v, h, i).len() < others(v, h, n).len(),
        others(v, h, n)[others(v, h, i).len() as int] == v[i],
    decreases n,
{
    if i < n - 1 {
        lemma_others_place(v, h, n - 1, i);
    }
}

proof fn lemma_others_count(v: Seq<Handle>, h: Handle, i: int, j: int)
    requires
        0 <= i < j <= v.len(),
        v[i] != h,
    ensures
        others(v, h, i).len() < others(v, h, j).len(),
{
    lemma_others_place(v, h, j, i);
}

/// The drop-down window counts as there just while it is among the windows.
pub proof fn law_quake_is_there(a: AppModel)
    ensures
        live_quake(a) matches Some(q) ==> a.quake == Some(q) && a.windows.contains(q),
        a.quake matches Some(q) ==> (a.windows.contains(q) ==> live_quake(a) == Some(q)),
{
}

/// Every window that could be described is saved, in its turn.
pub proof fn law_described_windows_are_saved(v: Seq<Option<WindowState>>, n: int, i: int)
    requires
        0 <= i < n <= v.len(),
    ensures
        v[i] matches Some(s) ==> present(v, n).contains(s),
        v[n - 1] matches Some(s) ==> present(v, n) == present(v, n - 1).push(s),
        v[n - 1] is None ==> present(v, n) == present(v, n - 1),
    decreases n,
{
    if let Some(s) = v[i] {
        let all = present(v, n);
        let before = present(v, n - 1);
        if i == n - 1 {
            assert(all.last() == s);
        } else {
            law_described_windows_are_saved(v, n - 1, i);
            let j = choose|j: int| 0 <= j < before.len() && before[j] == s;
            assert(all[j] == s);
        }
    }
}

} // verus!
