//! Top-level terminal window: tabs, focus, and the work that a change leaves
//! for the window system to do. Every operation takes the window from one
//! state to the next; the work queue is part of the state, and whoever owns
//! the real window carries the work out in order.
use vstd::prelude::*;
use crate::chrome;
use crate::chrome::Bar;
use crate::input;
use crate::mouse::Cursor;
use crate::overlays::{HintsModel, HintsUi, PaletteModel, PaletteUi, SearchModel, SearchUi};
use crate::pane_tree::{Area, Dir, PaneId};
use crate::scrollback;
use crate::scrollback::{Origin, Screen, Spot};
use crate::tabs;
use crate::tabs::{CellSize, Pane, PaneKind, Tab, TabModel};

verus! {

/// A point in pixels.
#[derive(Clone, Copy, PartialEq, Eq, Debug, Structural)]
pub struct PixelPoint {
    pub x: i32,
    pub y: i32,
}

/// A rectangle in pixels.
#[derive(Clone, Copy, PartialEq, Eq, Debug, Structural)]
pub struct PixelRect {
    pub left: i32,
    pub top: i32,
    pub right: i32,
    pub bottom: i32,
}

/// A piece of work that needs nothing but numbers.
#[derive(Clone, Copy, PartialEq, Eq, Debug, Structural)]
pub enum Act {
    /// Repaint the window.
    Invalidate,
    /// Fit the panes of the active tab to the window.
    Relayout,
    /// Put the active tab's title on the window.
    Title,
    /// Give the window the keyboard.
    FocusWindow,
    /// Close the window.
    Destroy,
    /// Save the session as it is now.
    SaveSession,
    /// Close a tab, once the session has been saved.
    CloseTab(usize),
    /// End the shell or the page of a pane that is gone.
    Discard(PaneId),
    Capture,
    ReleaseCapture,
    /// Open a tab with a profile, or with the default one.
    NewTab(Option<usize>),
    NewWindow,
    /// Start a shell beside the active pane.
    Split(Dir),
    /// Open a page beside the active pane.
    BrowserSplit,
    /// Give a tab a window of its own.
    TearOut { tab: usize, at: Option<PixelPoint> },
    /// Hand a tab to another window.
    HandOver { tab: usize, window: i64, slot: usize },
    MoveWindow { x: i32, y: i32 },
    /// Make the fonts of a tab in a size.
    BuildFonts { tab: usize, size: i32 },
    FocusUrl(PaneId),
    Back(PaneId),
    Forward(PaneId),
    Reload(PaneId),
    Devtools(PaneId),
    /// Read the selection, and open the search bar with it.
    AskSelection,
    /// Read the rows on show, and open the hints over them.
    AskRows,
    /// Read the clipboard, and paste it.
    AskClipboard,
    /// Read the clipboard, and append its first line to the search.
    AskSearchText,
    /// List the themes, and open the palette.
    AskPalette,
    /// List the themes, and go to the next one.
    AskNextTheme,
    /// List the profiles under a point.
    ProfileMenu { x: i64, y: i64 },
    /// Compile the query of the search bar, and search.
    RefreshSearch,
    /// Search from a cell, to the left or to the right.
    Find { origin: Origin, left: bool },
    CopySelection(PaneId),
    ClearSelection(PaneId),
    /// Start a selection of cells, or of words.
    Select { pane: PaneId, spot: Spot, right: bool, words: bool },
    ExtendSelection { pane: PaneId, spot: Spot, right: bool },
    /// Scroll a terminal, up for a positive number.
    Scroll { pane: PaneId, lines: i32 },
    ScrollPage { pane: PaneId, up: bool },
    ScrollToBottom(PaneId),
    OpenSettings { script: bool },
    /// Take the announcement away after a while.
    ToastTimer,
    /// Fit a terminal to a number of cells.
    Resize { pane: PaneId, cols: u16, rows: u16 },
    /// Put a page and its URL bar in their places.
    Place { pane: PaneId, page: PixelRect, edit: PixelRect },
    /// The window exists: set it up, and open what it starts with.
    Create,
    RevokeDrops,
    /// Show or hide the drop-down window.
    ToggleQuake,
    /// Look whether the settings have changed.
    PollConfig,
    KillToastTimer,
    /// Take dropped files.
    DropFiles,
    /// Claim the caption for the tab bar.
    ClaimFrame,
    /// Ask to hear when the pointer leaves the frame.
    TrackLeave,
    SysCommand(u32),
    /// Open the system menu at a point of the screen.
    SystemMenu(PixelPoint),
    Paint,
    ResizeTarget { width: u16, height: u16 },
    /// The resolution has changed: make the fonts anew.
    DpiChanged,
    SetCursor(Cursor),
    /// Color the URL bar.
    ColorEdit,
    /// The page of a pane has been created.
    InstallPage(PaneId),
    /// An address has been entered in the URL bar of a pane.
    EnterUrl(PaneId),
    DumpFrame,
    /// Drop a file of a test on the active pane.
    DropSample(u32),
}

/// A piece of work.
pub enum Job {
    Act(Act),
    /// Send bytes to a terminal.
    Write(PaneId, Vec<u8>),
    /// Open an address outside.
    OpenUrl(String),
    /// Send a page to an address, or let it wait for the page.
    Navigate(PaneId, String),
    /// Open a page at an address beside a pane.
    Browse(PaneId, String),
    /// Change to a theme.
    Theme(String),
    /// Copy, or move, files to a directory.
    Transfer { paths: Vec<String>, dest: String, cut: bool },
}

/// The work that a `Job` stands for.
pub enum Work {
    Act(Act),
    Write(PaneId, Seq<u8>),
    OpenUrl(Seq<char>),
    Navigate(PaneId, Seq<char>),
    Browse(PaneId, Seq<char>),
    Theme(Seq<char>),
    Transfer { paths: Seq<String>, dest: Seq<char>, cut: bool },
}

impl View for Job {
    type V = Work;

    open spec fn view(&self) -> Work {
        match self {
            Job::Act(a) => Work::Act(*a),
            Job::Write(p, b) => Work::Write(*p, b@),
            Job::OpenUrl(u) => Work::OpenUrl(u@),
            Job::Navigate(p, u) => Work::Navigate(*p, u@),
            Job::Browse(p, u) => Work::Browse(*p, u@),
            Job::Theme(n) => Work::Theme(n@),
            Job::Transfer { paths, dest, cut } => Work::Transfer {
                paths: paths@,
                dest: dest@,
                cut: *cut,
            },
        }
    }
}

pub open spec fn works(v: Seq<Job>) -> Seq<Work> {
    v.map_values(|j: Job| j@)
}

/// What the pressed mouse button drags.
pub enum Drag {
    Idle,
    Divider { path: Vec<usize>, index: usize, dir: Dir, last: (i64, i64) },
    Tab { idx: usize, press: (i64, i64), cur: (i64, i64), live: bool },
    /// A pane by its title bar.
    Pane { id: PaneId, press: (i64, i64), cur: (i64, i64), live: bool },
    Select,
}

/// The drag that a `Drag` stands for.
pub enum DragModel {
    Idle,
    Divider { path: Seq<usize>, index: usize, dir: Dir, last: (i64, i64) },
    Tab { idx: usize, press: (i64, i64), cur: (i64, i64), live: bool },
    Pane { id: PaneId, press: (i64, i64), cur: (i64, i64), live: bool },
    Select,
}

impl View for Drag {
    type V = DragModel;

    open spec fn view(&self) -> DragModel {
        match self {
            Drag::Idle => DragModel::Idle,
            Drag::Divider { path, index, dir, last } => DragModel::Divider {
                path: path@,
                index: *index,
                dir: *dir,
                last: *last,
            },
            Drag::Tab { idx, press, cur, live } => DragModel::Tab {
                idx: *idx,
                press: *press,
                cur: *cur,
                live: *live,
            },
            Drag::Pane { id, press, cur, live } => DragModel::Pane {
                id: *id,
                press: *press,
                cur: *cur,
                live: *live,
            },
            Drag::Select => DragModel::Select,
        }
    }
}

/// What the window knows of the settings.
#[derive(Clone, Copy, PartialEq, Eq, Debug, Structural)]
pub struct Settings {
    /// Default font size, in thousandths of a point.
    pub font_size: i32,
    /// How many profiles there are.
    pub profiles: usize,
}

/// The frame of the window.
#[derive(Clone, Copy, PartialEq, Eq, Debug, Structural)]
pub struct Frame {
    /// Size of the client area in pixels.
    pub width: u16,
    pub height: u16,
    /// Pixels to the inch.
    pub dpi: u32,
    /// The window draws its own caption.
    pub custom: bool,
}

pub struct TermWindow {
    pub tabs: Vec<Tab>,
    pub active: usize,
    pub focused: bool,
    /// The pane that was last told it has the focus.
    pub focus_pane: Option<PaneId>,
    pub search: Option<SearchUi>,
    pub hints: Option<HintsUi>,
    pub palette: Option<PaletteUi>,
    /// The list of shortcuts is on show; any key dismisses it.
    pub cheatsheet: bool,
    /// The caption button under the pointer.
    pub hot_caption: Option<u32>,
    /// A passing announcement.
    pub toast: Option<String>,
    pub drag: Drag,
    /// The next character belongs to a key that has been handled.
    pub suppress_char: bool,
    /// The first half of a character that comes in two.
    pub pending_surrogate: Option<u16>,
    pub frame: Frame,
    /// Cell size of the default fonts.
    pub cell: CellSize,
    pub settings: Settings,
    /// What the emulators show, as last observed.
    pub screens: Vec<(PaneId, Screen)>,
    pub work: Vec<Job>,
}

/// The window that a `TermWindow` stands for.
#[verifier::ext_equal]
pub struct Win {
    pub tabs: Seq<TabModel>,
    pub active: int,
    pub focused: bool,
    pub focus_pane: Option<PaneId>,
    pub search: Option<SearchModel>,
    pub hints: Option<HintsModel>,
    pub palette: Option<PaletteModel>,
    pub cheatsheet: bool,
    pub hot_caption: Option<u32>,
    pub toast: Option<Seq<char>>,
    pub drag: DragModel,
    pub suppress_char: bool,
    pub pending: Option<u16>,
    pub frame: Frame,
    pub cell: CellSize,
    pub settings: Settings,
    pub screens: Seq<(PaneId, Screen)>,
    pub work: Seq<Work>,
}

pub open spec fn tab_models(v: Seq<Tab>) -> Seq<TabModel> {
    v.map_values(|t: Tab| t@)
}

impl View for TermWindow {
    type V = Win;

    open spec fn view(&self) -> Win {
        Win {
            tabs: tab_models(self.tabs@),
            active: self.active as int,
            focused: self.focused,
            focus_pane: self.focus_pane,
            search: match self.search {
                Some(s) => Some(s@),
                None => None,
            },
            hints: match self.hints {
                Some(h) => Some(h@),
                None => None,
            },
            palette: match self.palette {
                Some(p) => Some(p@),
                None => None,
            },
            cheatsheet: self.cheatsheet,
            hot_caption: self.hot_caption,
            toast: match self.toast {
                Some(t) => Some(t@),
                None => None,
            },
            drag: self.drag@,
            suppress_char: self.suppress_char,
            pending: self.pending_surrogate,
            frame: self.frame,
            cell: self.cell,
            settings: self.settings,
            screens: self.screens@,
            work: works(self.work@),
        }
    }
}

/// Every tab is in order, the active one exists unless there is none, and
/// sizes are in range.
pub open spec fn win_wf(w: Win) -> bool {
    &&& tabs_ok(w.tabs)
    &&& w.tabs.len() <= chrome::MAX_TABS
    &&& w.tabs.len() > 0 ==> w.active < w.tabs.len()
    &&& 0 <= w.active
    &&& chrome::dpi_ok(w.frame.dpi)
    &&& tabs::cell_ok(w.cell)
    &&& w.pending matches Some(h) ==> input::is_high(h)
    &&& screens_ok(w.screens)
}

pub open spec fn tabs_ok(v: Seq<TabModel>) -> bool {
    forall|i: int| 0 <= i < v.len() ==> tabs::tab_wf(#[trigger] v[i])
}

pub open spec fn screens_ok(v: Seq<(PaneId, Screen)>) -> bool {
    forall|i: int| 0 <= i < v.len() ==> scrollback::screen_ok((#[trigger] v[i]).1)
}

impl TermWindow {
    pub open spec fn wf(self) -> bool {
        &&& win_wf(self@)
        &&& self.palette matches Some(p) ==> p.wf()
    }

    /// In order but for the number of the active tab.
    pub open spec fn loose(self) -> bool {
        &&& win_wf(Win { active: 0, ..self@ })
        &&& self.palette matches Some(p) ==> p.wf()
    }
}

/// The window with one more piece of work to do.
pub open spec fn with_work(w: Win, j: Work) -> Win {
    Win { work: w.work.push(j), ..w }
}

pub open spec fn did(w: Win, a: Act) -> Win {
    with_work(w, Work::Act(a))
}

/// The active tab.
pub open spec fn current(w: Win) -> Option<TabModel> {
    if 0 <= w.active < w.tabs.len() {
        Some(w.tabs[w.active])
    } else {
        None
    }
}

/// The window with its active tab changed.
pub open spec fn with_current(w: Win, t: TabModel) -> Win {
    Win { tabs: w.tabs.update(w.active, t), ..w }
}

/// The part of the window that the panes have: all but the tab bar.
pub open spec fn pane_area(w: Win) -> Area {
    let h = chrome::length_of(w.frame.height as int, w.frame.dpi);
    Area {
        x: 0,
        y: chrome::TABBAR_H as int,
        w: chrome::length_of(w.frame.width as int, w.frame.dpi),
        h: if h < chrome::TABBAR_H {
            0
        } else {
            h - chrome::TABBAR_H
        },
    }
}

/// The tab bar.
pub open spec fn bar_of(w: Win) -> Bar {
    Bar {
        width: chrome::length_of(w.frame.width as int, w.frame.dpi) as i64,
        tabs: w.tabs.len() as usize,
        framed: w.frame.custom,
    }
}

/// The cell size of the active tab.
pub open spec fn cell_of(w: Win) -> CellSize {
    match current(w) {
        Some(t) => match t.cell {
            Some(c) => c,
            None => w.cell,
        },
        None => w.cell,
    }
}

/// The font size of the active tab.
pub open spec fn font_of(w: Win) -> i32 {
    match current(w) {
        Some(t) => t.font_size,
        None => w.settings.font_size,
    }
}

/// What the emulator of a pane shows, as last observed, from `i` on.
pub open spec fn screen_from(v: Seq<(PaneId, Screen)>, id: PaneId, i: int) -> Option<Screen>
    decreases v.len() - i,
{
    if i < 0 || i >= v.len() {
        None
    } else if v[i].0 == id {
        Some(v[i].1)
    } else {
        screen_from(v, id, i + 1)
    }
}

pub open spec fn screen_of(w: Win, id: PaneId) -> Option<Screen> {
    screen_from(w.screens, id, 0)
}

/// Whether title bars are shown: several panes are on show.
pub open spec fn is_multi(t: TabModel) -> bool {
    t.zoomed is None && t.root is Split
}

/// The terminal pane `id` of a tab.
pub open spec fn is_term(t: TabModel, id: PaneId) -> bool {
    t.panes.dom().contains(id) && t.panes[id].kind is Term
}

pub open spec fn is_browser(t: TabModel, id: PaneId) -> bool {
    t.panes.dom().contains(id) && t.panes[id].kind is Browser
}

/// The first tab, from `i` on, that holds the pane.
pub open spec fn tab_with(ts: Seq<TabModel>, id: PaneId, i: int) -> Option<int>
    decreases ts.len() - i,
{
    if i < 0 || i >= ts.len() {
        None
    } else if ts[i].panes.dom().contains(id) {
        Some(i)
    } else {
        tab_with(ts, id, i + 1)
    }
}

/// What a terminal is told of the focus: nothing where it did not ask.
pub open spec fn told(w: Win, id: PaneId, gained: bool) -> Win {
    match screen_of(w, id) {
        Some(s) => match input::focus_bytes(s.mode, gained) {
            Some(b) => with_work(w, Work::Write(id, b)),
            None => w,
        },
        None => w,
    }
}

/// The pane that has the focus: the active one, where it is a terminal and
/// the window has the keyboard.
pub open spec fn focus_target(w: Win) -> Option<PaneId> {
    match current(w) {
        Some(t) if w.focused && is_term(t, t.active) => Some(t.active),
        _ => None,
    }
}

/// The window after the terminals were told where the focus is now.
pub open spec fn synced(w: Win) -> Win {
    let to = focus_target(w);
    if to == w.focus_pane {
        w
    } else {
        let w1 = match w.focus_pane {
            Some(old) => told(w, old, false),
            None => w,
        };
        let w2 = match to {
            Some(new) => told(w1, new, true),
            None => w1,
        };
        Win { focus_pane: to, ..w2 }
    }
}

/// The window after the active pane got the keyboard.
pub open spec fn pane_focused(w: Win) -> Win {
    let w1 = match current(w) {
        Some(t) if is_term(t, t.active) => did(w, Act::FocusWindow),
        _ => w,
    };
    synced(w1)
}

/// The tabs with the pages of one shown and those of the others hidden.
pub open spec fn only_shown(ts: Seq<TabModel>, idx: int) -> Seq<TabModel> {
    Seq::new(ts.len(), |i: int| tabs::shown_tab(ts[i], i == idx))
}

/// The window after a switch to a tab; nothing where there is no such tab.
pub open spec fn switched(w: Win, idx: int) -> Win {
    if !(0 <= idx < w.tabs.len()) {
        w
    } else {
        let w1 = Win { tabs: only_shown(w.tabs, idx), active: idx, ..w };
        did(pane_focused(did(did(w1, Act::Relayout), Act::Title)), Act::Invalidate)
    }
}

impl TermWindow {
    /// A window without tabs.
    pub fn new(frame: Frame, cell: CellSize, settings: Settings) -> (r: TermWindow)
        requires
            chrome::dpi_ok(frame.dpi),
            tabs::cell_ok(cell),
        ensures
            r.wf(),
            r@ == (Win {
                tabs: Seq::empty(),
                active: 0,
                focused: true,
                focus_pane: None,
                search: None,
                hints: None,
                palette: None,
                cheatsheet: false,
                hot_caption: None,
                toast: None,
                drag: DragModel::Idle,
                suppress_char: false,
                pending: None,
                frame,
                cell,
                settings,
                screens: Seq::empty(),
                work: Seq::empty(),
            }),
    {
        let r = TermWindow {
            tabs: Vec::new(),
            active: 0,
            focused: true,
            focus_pane: None,
            search: None,
            hints: None,
            palette: None,
            cheatsheet: false,
            hot_caption: None,
            toast: None,
            drag: Drag::Idle,
            suppress_char: false,
            pending_surrogate: None,
            frame,
            cell,
            settings,
            screens: Vec::new(),
            work: Vec::new(),
        };
        assert(r@.tabs =~= Seq::empty());
        assert(r@.work =~= Seq::empty());
        r
    }

    /// Take the work that waits.
    pub fn take_work(&mut self) -> (r: Vec<Job>)
        requires
            old(self).wf(),
        ensures
            final(self).wf(),
            works(r@) == old(self)@.work,
            final(self)@ == (Win { work: Seq::empty(), ..old(self)@ }),
    {
        let mut r: Vec<Job> = Vec::new();
        r.append(&mut self.work);
        assert(works(r@) =~= old(self)@.work);
        assert(self@.work =~= Seq::empty());
        r
    }

    /// Note what the emulators show.
    pub fn observe(&mut self, screens: Vec<(PaneId, Screen)>)
        requires
            old(self).wf(),
            screens_ok(screens@),
        ensures
            final(self).wf(),
            final(self)@ == (Win { screens: screens@, ..old(self)@ }),
    {
        self.screens = screens;
    }

    pub(crate) fn push(&mut self, j: Job)
        requires
            old(self).wf(),
        ensures
            final(self).wf(),
            final(self)@ == with_work(old(self)@, j@),
    {
        self.work.push(j);
        assert(self@.work =~= old(self)@.work.push(j@));
    }

    pub(crate) fn act(&mut self, a: Act)
        requires
            old(self).wf(),
        ensures
            final(self).wf(),
            final(self)@ == did(old(self)@, a),
    {
        self.push(Job::Act(a));
    }

    /// What the emulator of a pane shows.
    pub fn screen(&self, id: PaneId) -> (r: Option<Screen>)
        requires
            self.wf(),
        ensures
            r == screen_of(self@, id),
            r matches Some(s) ==> scrollback::screen_ok(s),
    {
        let mut i: usize = 0;
        while i < self.screens.len()
            invariant
                i <= self.screens@.len(),
                self.wf(),
                screen_of(self@, id) == screen_from(self.screens@, id, i as int),
            decreases self.screens@.len() - i,
        {
            let (k, s) = self.screens[i];
            assert(self@.screens[i as int].1 == s);
            if k == id {
                return Some(s);
            }
            i += 1;
        }
        None
    }

    /// The tab that holds a pane.
    pub fn tab_of(&self, id: PaneId) -> (r: Option<usize>)
        ensures
            match r {
                Some(i) => tab_with(self@.tabs, id, 0) == Some(i as int) && i < self.tabs@.len()
                    && self@.tabs[i as int].panes.dom().contains(id),
                None => tab_with(self@.tabs, id, 0) is None,
            },
    {
        let mut i: usize = 0;
        while i < self.tabs.len()
            invariant
                i <= self.tabs@.len(),
                tab_with(self@.tabs, id, 0) == tab_with(self@.tabs, id, i as int),
            decreases self.tabs@.len() - i,
        {
            assert(self@.tabs[i as int] == self.tabs@[i as int]@);
            if self.tabs[i].find_pane_by_id(id) {
                return Some(i);
            }
            i += 1;
        }
        None
    }

    fn tell(&mut self, id: PaneId, gained: bool)
        requires
            old(self).wf(),
        ensures
            final(self).wf(),
            final(self)@ == told(old(self)@, id, gained),
    {
        if let Some(s) = self.screen(id) {
            if let Some(b) = input::focus_report(s.mode, gained) {
                self.push(Job::Write(id, b));
            }
        }
    }

    /// Whether the pane `id` of the active tab is a terminal.
    pub fn is_terminal(&self, id: PaneId) -> (r: bool)
        ensures
            r == (current(self@) matches Some(t) && is_term(t, id)),
    {
        if self.active >= self.tabs.len() {
            return false;
        }
        assert(self@.tabs[self.active as int] == self.tabs@[self.active as int]@);
        match self.tabs[self.active].pane(id) {
            Some(p) => matches!(p.kind, PaneKind::Term(_)),
            None => false,
        }
    }

    /// Tell the terminals where the focus is: pane switches and activation of
    /// the window both come through here.
    pub fn sync_pane_focus(&mut self)
        requires
            old(self).wf(),
        ensures
            final(self).wf(),
            final(self)@ == synced(old(self)@),
    {
        let mut to: Option<PaneId> = None;
        if self.focused && self.active < self.tabs.len() {
            assert(self@.tabs[self.active as int] == self.tabs@[self.active as int]@);
            let id: PaneId = self.tabs[self.active].active;
            if self.is_terminal(id) {
                to = Some(id);
            }
        }
        assert(to == focus_target(self@));
        if to == self.focus_pane {
            return;
        }
        if let Some(old_id) = self.focus_pane {
            self.tell(old_id, false);
        }
        if let Some(new_id) = to {
            self.tell(new_id, true);
        }
        self.focus_pane = to;
    }

    pub fn focus_active_pane(&mut self)
        requires
            old(self).wf(),
        ensures
            final(self).wf(),
            final(self)@ == pane_focused(old(self)@),
    {
        if self.active < self.tabs.len() {
            assert(self@.tabs[self.active as int] == self.tabs@[self.active as int]@);
            if self.is_terminal(self.tabs[self.active].active) {
                self.act(Act::FocusWindow);
            }
        }
        self.sync_pane_focus();
    }

    pub(crate) fn show_only(&mut self, idx: usize)
        requires
            old(self).wf(),
            idx < old(self)@.tabs.len(),
        ensures
            final(self).wf(),
            final(self)@ == (Win {
                tabs: only_shown(old(self)@.tabs, idx as int),
                active: idx as int,
                ..old(self)@
            }),
    {
        let ghost before = self@.tabs;
        let n: usize = self.tabs.len();
        let mut i: usize = 0;
        while i < n
            invariant
                i <= n == before.len(),
                self@ == (Win { tabs: self@.tabs, ..old(self)@ }),
                self.palette == old(self).palette,
                self@.tabs.len() == n,
                forall|k: int| 0 <= k < n ==> tabs::tab_wf(#[trigger] before[k]),
                forall|k: int| 0 <= k < n ==> tabs::tab_wf(#[trigger] self@.tabs[k]),
                forall|k: int|
                    0 <= k < i ==> #[trigger] self@.tabs[k] == tabs::shown_tab(
                        before[k],
                        k == idx,
                    ),
                forall|k: int| i <= k < n ==> #[trigger] self@.tabs[k] == before[k],
            decreases n - i,
        {
            let ghost mid = self.tabs@;
            assert(self@.tabs[i as int] == self.tabs@[i as int]@);
            self.tabs[i].show_pages(i == idx);
            proof {
                assert forall|k: int| 0 <= k < n && k != i implies #[trigger] self@.tabs[k]
                    == tab_models(mid)[k] by {
                    assert(self.tabs@[k] == mid[k]);
                }
                assert(self@.tabs[i as int] == self.tabs@[i as int]@);
            }
            i += 1;
        }
        self.active = idx;
        assert(self@.tabs =~= only_shown(before, idx as int));
    }

    pub fn switch_tab(&mut self, idx: usize)
        requires
            old(self).wf(),
        ensures
            final(self).wf(),
            final(self)@ == switched(old(self)@, idx as int),
    {
        if idx >= self.tabs.len() {
            return;
        }
        self.show_only(idx);
        self.act(Act::Relayout);
        self.act(Act::Title);
        self.focus_active_pane();
        self.act(Act::Invalidate);
    }
}

/// Telling panes of the focus changes nothing but that and the work.
pub proof fn lemma_focus_keeps(w: Win)
    ensures
        synced(w) == (Win { focus_pane: synced(w).focus_pane, work: synced(w).work, ..w }),
        pane_focused(w) == (Win {
            focus_pane: pane_focused(w).focus_pane,
            work: pane_focused(w).work,
            ..w
        }),
{
}

/// The pane that is told it has the focus is the active one of the active tab
/// while the window has the focus, and none otherwise; telling it again says
/// nothing more.
pub proof fn law_focus_in_step(w: Win)
    ensures
        synced(w).focus_pane == focus_target(w),
        synced(synced(w)) == synced(w),
        pane_focused(w).focus_pane == focus_target(w),
{
    lemma_focus_keeps(w);
    lemma_focus_keeps(did(w, Act::FocusWindow));
}

/// A switch to a tab makes it the active one, shows its pages and hides those of
/// all others, and changes nothing else of any tab; the layout, the title and
/// the picture of the window are renewed, and the terminal that is active in it
/// has the focus. A tab that is not there cannot be switched to.
pub proof fn law_switch_shows_tab(w: Win, idx: int, i: int, id: PaneId)
    ensures
        !(0 <= idx < w.tabs.len()) ==> switched(w, idx) == w,
        0 <= idx < w.tabs.len() ==> ({
            let r = switched(w, idx);
            &&& r.active == idx
            &&& r.tabs.len() == w.tabs.len()
            &&& r.focus_pane == (if w.focused && is_term(w.tabs[idx], w.tabs[idx].active) {
                Some(w.tabs[idx].active)
            } else {
                None
            })
            &&& r.work.contains(Work::Act(Act::Relayout))
            &&& r.work.contains(Work::Act(Act::Title))
            &&& r.work.last() == Work::Act(Act::Invalidate)
            &&& 0 <= i < w.tabs.len() ==> {
                let (a, b) = (w.tabs[i], r.tabs[i]);
                &&& b.root == a.root && b.active == a.active && b.zoomed == a.zoomed && b.font_size
                    == a.font_size && b.cell == a.cell
                &&& b.panes.dom() == a.panes.dom()
                &&& a.panes.dom().contains(id) ==> match a.panes[id].kind {
                    PaneKind::Term(_) => b.panes[id] == a.panes[id],
                    PaneKind::Browser(p) => b.panes[id].kind matches PaneKind::Browser(q) && q
                        == (crate::browser_pane::BrowserPane { visible: i == idx, ..p }),
                }
            }
        }),
{
    if 0 <= idx < w.tabs.len() {
        let w1 = Win { tabs: only_shown(w.tabs, idx), active: idx, ..w };
        let w2 = did(did(w1, Act::Relayout), Act::Title);
        lemma_focus_keeps(w2);
        law_focus_in_step(w2);
        lemma_work_grows(w2);
        let r = switched(w, idx);
        let n = w.work.len() as int;
        assert(w2.work[n] == Work::Act(Act::Relayout));
        assert(w2.work[n + 1] == Work::Act(Act::Title));
        assert(r.work[n] == w2.work[n]);
        assert(r.work[n + 1] == w2.work[n + 1]);
        assert(r.work.contains(Work::Act(Act::Relayout)));
        assert(r.work.contains(Work::Act(Act::Title)));
        if 0 <= i < w.tabs.len() {
            assert(r.tabs[i].panes.dom() =~= w.tabs[i].panes.dom());
        }
        let t = w.tabs[idx];
        assert(w1.tabs[idx].panes.dom() =~= t.panes.dom());
    }
}

/// Telling terminals of the focus only adds to the work.
pub proof fn lemma_work_grows(w: Win)
    ensures
        synced(w).work.len() >= w.work.len(),
        pane_focused(w).work.len() >= w.work.len(),
        forall|i: int| 0 <= i < w.work.len() ==> #[trigger] synced(w).work[i] == w.work[i],
        forall|i: int| 0 <= i < w.work.len() ==> #[trigger] pane_focused(w).work[i] == w.work[i],
{
}

/// When the focus goes from one terminal to another, the one that loses it is
/// told so first, then the one that gains it, each where it asked to be.
pub proof fn law_focus_moves(w: Win, a: PaneId, b: PaneId, s: Screen, t: Screen)
    requires
        w.focused,
        w.focus_pane == Some(a),
        a != b,
        current(w) matches Some(x) && x.active == b && is_term(x, b),
        screen_of(w, a) == Some(s),
        screen_of(w, b) == Some(t),
        s.mode & 0x800 == 0x800,
        t.mode & 0x800 == 0x800,
    ensures
        synced(w).work == w.work.push(Work::Write(a, seq![0x1bu8, 0x5b, 0x4f])).push(
            Work::Write(b, seq![0x1bu8, 0x5b, 0x49]),
        ),
        synced(w).focus_pane == Some(b),
{
}

/// A window that loses the keyboard tells the terminal that had it; nothing has
/// the focus then.
pub proof fn law_focus_is_lost(w: Win, a: PaneId, s: Screen)
    requires
        !w.focused,
        w.focus_pane == Some(a),
        screen_of(w, a) == Some(s),
        s.mode & 0x800 == 0x800,
    ensures
        synced(w).work == w.work.push(Work::Write(a, seq![0x1bu8, 0x5b, 0x4f])),
        synced(w).focus_pane is None,
{
}

/// The panes have all of the window below the tab bar, and nothing of the bar.
pub proof fn law_panes_below_bar(w: Win)
    requires
        chrome::dpi_ok(w.frame.dpi),
        chrome::length_of(w.frame.height as int, w.frame.dpi) >= 38 * 1024,
    ensures
        pane_area(w).x == 0,
        pane_area(w).y == 38 * 1024,
        pane_area(w).w == chrome::length_of(w.frame.width as int, w.frame.dpi),
        pane_area(w).y + pane_area(w).h == chrome::length_of(w.frame.height as int, w.frame.dpi),
{
}

/// What was observed of a pane is what is known of it: the first entry for it.
pub proof fn law_screen_of(w: Win, k: int)
    requires
        0 <= k < w.screens.len(),
        forall|i: int| 0 <= i < k ==> (#[trigger] w.screens[i]).0 != w.screens[k].0,
    ensures
        screen_of(w, w.screens[k].0) == Some(w.screens[k].1),
{
    lemma_screen_from(w.screens, k, 0);
}

proof fn lemma_screen_from(v: Seq<(PaneId, Screen)>, k: int, i: int)
    requires
        0 <= i <= k < v.len(),
        forall|j: int| 0 <= j < k ==> (#[trigger] v[j]).0 != v[k].0,
    ensures
        screen_from(v, v[k].0, i) == Some(v[k].1),
    decreases k - i,
{
    if i < k {
        assert(v[i].0 != v[k].0);
        lemma_screen_from(v, k, i + 1);
    }
}

/// The tab that holds a pane is found, and no pane is found where none is.
pub proof fn law_tab_with(ts: Seq<TabModel>, id: PaneId)
    ensures
        match tab_with(ts, id, 0) {
            Some(i) => 0 <= i < ts.len() && ts[i].panes.dom().contains(id),
            None => forall|i: int|
                0 <= i < ts.len() ==> !(#[trigger] ts[i]).panes.dom().contains(id),
        },
{
    lemma_tab_with_all(ts, id, 0);
}

proof fn lemma_tab_with_all(ts: Seq<TabModel>, id: PaneId, i: int)
    requires
        0 <= i <= ts.len(),
    ensures
        match tab_with(ts, id, i) {
            Some(k) => i <= k < ts.len() && ts[k].panes.dom().contains(id),
            None => forall|k: int|
                i <= k < ts.len() ==> !(#[trigger] ts[k]).panes.dom().contains(id),
        },
    decreases ts.len() - i,
{
    if i < ts.len() && !ts[i].panes.dom().contains(id) {
        lemma_tab_with_all(ts, id, i + 1);
    }
}

} // verus!
