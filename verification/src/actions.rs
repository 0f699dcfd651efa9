//! What the keys, the palette and the script of a window ask for: searching,
//! hints, pasting, prompt jumps, themes.
use vstd::prelude::*;
use vstd::slice::*;
use crate::chrome;
use crate::command_palette::{Item, PaletteAction};
use crate::config;
use crate::config::Profile;
use crate::ctl::CtlReq;
use crate::hints;
use crate::hints::HintMatch;
use crate::input;
use crate::keys;
use crate::keys::Mods;
use crate::overlays;
use crate::pattern::PatternModel;
use crate::overlays::{HintStep, HintsModel, HintsUi, PaletteModel, PaletteUi, SearchModel, SearchUi};
use crate::pane_tree::PaneId;
use crate::scripting::Action;
use crate::scrollback;
use crate::scrollback::{Match, Screen};
use crate::tab_ops;
use crate::tabs::PaneKind;
use crate::text;
use crate::window;
use crate::window::{Act, Job, TermWindow, Win, Work};

verus! {

/// The active pane, where it is a terminal.
pub open spec fn active_term(w: Win) -> Option<PaneId> {
    match window::current(w) {
        Some(t) if window::is_term(t, t.active) => Some(t.active),
        _ => None,
    }
}

/// The window with bytes on the way to the active terminal.
pub open spec fn sent_to_active(w: Win, bytes: Seq<u8>) -> Win {
    match active_term(w) {
        Some(id) => window::with_work(w, Work::Write(id, bytes)),
        None => w,
    }
}

/// The window after a jump between prompts of the active terminal.
pub open spec fn prompt_jumped(w: Win, older: bool) -> Win {
    match active_term(w) {
        None => w,
        Some(id) => match window::screen_of(w, id) {
            None => w,
            Some(s) => {
                let p = window::current(w)->0.panes[id].kind->Term_0;
                match scrollback::prompt_scroll(p.marks@, p.lines_seen as int, s, older) {
                    Some(d) => window::did(
                        window::did(w, Act::Scroll { pane: id, lines: d as i32 }),
                        Act::Invalidate,
                    ),
                    None => w,
                }
            },
        },
    }
}

/// The window on the way to copy the selection of the active terminal.
pub open spec fn copying(w: Win) -> Win {
    match active_term(w) {
        Some(id) => window::did(w, Act::CopySelection(id)),
        None => w,
    }
}

/// The window with text pasted into the active terminal.
pub open spec fn pasted(w: Win, t: Seq<char>) -> Win {
    match active_term(w) {
        None => w,
        Some(id) => match window::screen_of(w, id) {
            Some(s) => window::with_work(w, Work::Write(id, input::paste_sent(t, s.mode))),
            None => w,
        },
    }
}

pub open spec fn search_toggled(w: Win) -> Win {
    if w.search is Some {
        window::did(Win { search: None, ..w }, Act::Invalidate)
    } else {
        window::did(w, Act::AskSelection)
    }
}

/// What a search bar opens with: a selection within one line, taken
/// literally.
pub open spec fn prefill(selection: Option<Seq<char>>) -> Seq<char> {
    match selection {
        Some(s) if s.len() > 0 && !s.contains('\n') => scrollback::escaped(s),
        _ => Seq::empty(),
    }
}

pub open spec fn search_opened(w: Win, selection: Option<Seq<char>>) -> Win {
    window::did(
        Win {
            search: Some(SearchModel { query: prefill(selection), pattern: None, found: None }),
            ..w
        },
        Act::RefreshSearch,
    )
}

/// The window on the way to search from where `found` is, or else from the
/// end of the display.
pub open spec fn searching(w: Win, found: Option<Match>, left: bool) -> Win {
    match (active_term(w), w.search) {
        (Some(id), Some(s)) if s.ready() => match window::screen_of(w, id) {
            Some(screen) => window::did(
                w,
                Act::Find { origin: scrollback::search_start(found, left, screen), left },
            ),
            None => w,
        },
        _ => w,
    }
}

/// The window after the query has been compiled: a pattern is searched for,
/// anything else clears the selection.
pub open spec fn query_compiled(w: Win, pattern: Option<PatternModel>) -> Win {
    match w.search {
        None => w,
        Some(s) => {
            let s1 = SearchModel { pattern, found: None, ..s };
            let w1 = Win { search: Some(s1), ..w };
            if s1.ready() {
                searching(w1, None, true)
            } else {
                let w2 = match active_term(w1) {
                    Some(id) => window::did(w1, Act::ClearSelection(id)),
                    None => w1,
                };
                window::did(w2, Act::Invalidate)
            }
        },
    }
}

/// The window on the way to the next match, to the left or to the right.
pub open spec fn search_stepped(w: Win, left: bool) -> Win {
    match w.search {
        Some(s) => searching(w, s.found, left),
        None => w,
    }
}

/// Whether a match lies in the scrollback.
pub open spec fn match_ok(m: Match, s: Screen) -> bool {
    -s.history <= m.start.line < s.rows
}

/// The window after a search: the match is selected and scrolled into view, or
/// the selection cleared.
pub open spec fn search_ended(w: Win, m: Option<Match>) -> Win {
    match (active_term(w), w.search) {
        (Some(id), Some(s)) => {
            let w1 = match m {
                Some(m) => {
                    let a = window::did(
                        window::did(
                            w,
                            Act::Select { pane: id, spot: m.start, right: false, words: false },
                        ),
                        Act::ExtendSelection { pane: id, spot: m.end, right: true },
                    );
                    match window::screen_of(w, id) {
                        Some(screen) if scrollback::scroll_to(m.start.line as int, screen)
                            != 0 => window::did(
                            a,
                            Act::Scroll {
                                pane: id,
                                lines: scrollback::scroll_to(m.start.line as int, screen) as i32,
                            },
                        ),
                        _ => a,
                    }
                },
                None => window::did(w, Act::ClearSelection(id)),
            };
            window::did(
                Win { search: Some(SearchModel { found: m, ..s }), ..w1 },
                Act::Invalidate,
            )
        },
        _ => w,
    }
}

/// The first line of a text.
pub open spec fn first_line(t: Seq<char>) -> Seq<char> {
    let l = text::until(t, '\n');
    if l.len() > 0 && l.last() == '\r' && l.len() < t.len() {
        l.drop_last()
    } else {
        l
    }
}

/// The window with the first line of a text put behind the query.
pub open spec fn search_pasted(w: Win, t: Seq<char>) -> Win {
    match w.search {
        Some(s) if t.len() > 0 => window::did(
            Win { search: Some(SearchModel { query: s.query + first_line(t), ..s }), ..w },
            Act::RefreshSearch,
        ),
        _ => w,
    }
}

/// What a key does while the search bar is open.
pub open spec fn search_keyed(w: Win, vk: u16, m: Mods) -> Win {
    if vk == keys::VK_ESCAPE {
        window::did(Win { search: None, ..w }, Act::Invalidate)
    } else if vk == keys::VK_RETURN || vk == VK_F3 {
        search_stepped(w, !m.shift)
    } else if vk == keys::VK_UP {
        search_stepped(w, true)
    } else if vk == keys::VK_DOWN {
        search_stepped(w, false)
    } else if vk == keys::VK_BACK {
        match w.search {
            Some(s) => window::did(
                Win {
                    search: Some(SearchModel { query: overlays::shortened(s.query), ..s }),
                    ..w
                },
                Act::RefreshSearch,
            ),
            None => w,
        }
    } else if m.ctrl && vk % 256 == 0x56 {
        Win { suppress_char: true, ..window::did(w, Act::AskSearchText) }
    } else {
        w
    }
}

pub const VK_F3: u16 = 0x72;

/// What a key does while the hints are open.
pub open spec fn hints_keyed(w: Win, vk: u16) -> Win {
    if vk == keys::VK_ESCAPE {
        window::did(Win { hints: None, ..w }, Act::Invalidate)
    } else if vk == keys::VK_BACK {
        window::did(
            Win {
                hints: match w.hints {
                    Some(h) => Some(HintsModel { typed: overlays::shortened(h.typed), ..h }),
                    None => None,
                },
                ..w
            },
            Act::Invalidate,
        )
    } else {
        w
    }
}

/// What a character does while the hints are open: a complete label sends its
/// text, and one that no label begins with closes them.
pub open spec fn hints_typed(w: Win, c: char) -> Win {
    match w.hints {
        None => w,
        Some(h) => if !overlays::is_graphic(c) {
            w
        } else {
            let typed = h.typed.push(text::ascii_lower(c));
            let w1 = match overlays::picked_from(h.matches, typed, 0) {
                Some(t) => sent_to_active(Win { hints: None, ..w }, input::sent(t)),
                None => if overlays::some_lead(h.matches, typed) {
                    Win { hints: Some(HintsModel { typed, ..h }), ..w }
                } else {
                    Win { hints: None, ..w }
                },
            };
            window::did(w1, Act::Invalidate)
        },
    }
}

/// The window on the way to open the hints.
pub open spec fn hints_asked(w: Win) -> Win {
    match active_term(w) {
        Some(_) => window::did(w, Act::AskRows),
        None => w,
    }
}

/// Whether `m` are the hints for the rows on show.
pub open spec fn is_scan(rows: Seq<(String, Vec<usize>)>, m: Seq<HintMatch>) -> bool {
    let found = hints::rows_found(rows, rows.len() as int);
    &&& m.len() == found.len()
    &&& forall|i: int|
        0 <= i < m.len() ==> {
            &&& (#[trigger] m[i]).text@ == found[i].text
            &&& m[i].row == found[i].row
            &&& m[i].col == found[i].col
            &&& m[i].label@ == hints::hint_label(i, found.len() as int)
        }
}

/// What characters do one after the other while the hints are open.
pub open spec fn hints_spelled(w: Win, s: Seq<char>) -> Win
    decreases s.len(),
{
    if s.len() == 0 {
        w
    } else {
        hints_typed(hints_spelled(w, s.drop_last()), s.last())
    }
}

/// The window after `n` more calls to repaint it.
pub open spec fn repainted(w: Win, n: nat) -> Win
    decreases n,
{
    if n == 0 {
        w
    } else {
        window::did(repainted(w, (n - 1) as nat), Act::Invalidate)
    }
}

proof fn lemma_repainted(w: Win, n: nat)
    ensures
        repainted(w, n) == (Win { work: repainted(w, n).work, ..w }),
    decreases n,
{
    if n > 0 {
        lemma_repainted(w, (n - 1) as nat);
    }
}

/// The first hint with a label is the only one.
proof fn lemma_only_label(m: Seq<HintMatch>, i: int, k: int)
    requires
        0 <= k <= i < m.len(),
        forall|j: int| 0 <= j < m.len() && j != i ==> (#[trigger] m[j]).label@ != m[i].label@,
    ensures
        overlays::picked_from(m, m[i].label@, k) == Some(m[i].text@),
    decreases i - k,
{
    if k < i {
        lemma_only_label(m, i, k + 1);
    }
}

proof fn lemma_no_label(m: Seq<HintMatch>, typed: Seq<char>, k: int)
    requires
        0 <= k,
        forall|j: int| 0 <= j < m.len() ==> (#[trigger] m[j]).label@ != typed,
    ensures
        overlays::picked_from(m, typed, k) is None,
    decreases m.len() - k,
{
    if k < m.len() {
        lemma_no_label(m, typed, k + 1);
    }
}

proof fn lemma_spelling(w: Win, rows: Seq<(String, Vec<usize>)>, h: HintsModel, i: int, k: int)
    requires
        w.hints == Some(h),
        h.typed.len() == 0,
        is_scan(rows, h.matches),
        0 <= i < h.matches.len(),
        0 <= k < h.matches[i].label@.len(),
    ensures
        ({
            let label = h.matches[i].label@;
            hints_spelled(w, label.take(k)) == (Win {
                hints: Some(HintsModel { typed: label.take(k), ..h }),
                ..repainted(w, k as nat)
            })
        }),
    decreases k,
{
    let m = h.matches;
    let n = m.len() as int;
    let wide = hints::label_width(n);
    let label = m[i].label@;
    hints::lemma_label_letters(i, wide);
    lemma_repainted(w, k as nat);
    if k == 0 {
        assert(label.take(0) =~= h.typed);
        assert(hints_spelled(w, label.take(0)) == w);
    } else {
        lemma_spelling(w, rows, h, i, k - 1);
        lemma_repainted(w, (k - 1) as nat);
        let typed = label.take(k);
        assert(typed.drop_last() =~= label.take(k - 1));
        assert(label.take(k - 1).push(label[k - 1]) =~= typed);
        assert(overlays::is_graphic(label[k - 1]));
        assert forall|j: int| 0 <= j < m.len() implies (#[trigger] m[j]).label@ != typed by {
            hints::lemma_label_letters(j, wide);
        }
        lemma_no_label(m, typed, 0);
        assert(label.subrange(0, k) =~= typed);
        assert(overlays::leads_on(m[i], typed));
    }
}

/// Typing the label of a hint, letter by letter, sends its text to the active
/// terminal and closes the hints, whichever hint it is.
pub proof fn law_label_picks(w: Win, rows: Seq<(String, Vec<usize>)>, h: HintsModel, i: int)
    requires
        w.hints == Some(h),
        h.typed.len() == 0,
        is_scan(rows, h.matches),
        0 <= i < h.matches.len(),
    ensures
        ({
            let label = h.matches[i].label@;
            &&& label.len() > 0
            &&& hints_spelled(w, label) == window::did(
                sent_to_active(
                    Win { hints: None, ..repainted(w, (label.len() - 1) as nat) },
                    input::sent(h.matches[i].text@),
                ),
                Act::Invalidate,
            )
        }),
{
    let m = h.matches;
    let n = m.len() as int;
    let wide = hints::label_width(n);
    let label = m[i].label@;
    hints::lemma_label_letters(i, wide);
    let k = label.len() - 1;
    lemma_spelling(w, rows, h, i, k);
    assert(label.drop_last() =~= label.take(k));
    assert(label.take(k).push(label[k]) =~= label);
    assert(overlays::is_graphic(label[k]));
    assert forall|j: int| 0 <= j < m.len() && j != i implies (#[trigger] m[j]).label@ != label by {
        hints::law_labels_prefix_free(i, j, n);
        assert(label.subrange(0, label.len() as int) =~= label);
    }
    lemma_only_label(m, i, 0);
}

/// The list of shortcuts comes or goes. The character that the key types is
/// no input.
pub open spec fn cheatsheet_toggled(w: Win) -> Win {
    window::did(
        Win { cheatsheet: !w.cheatsheet, suppress_char: true, ..w },
        Act::Invalidate,
    )
}

/// What an action of the palette does.
pub open spec fn palette_run(w: Win, a: PaletteAction) -> Win {
    match a {
        PaletteAction::NewTabProfile(i) => tab_ops::profile_tab(w, i),
        PaletteAction::Split(d) => window::did(w, Act::Split(d)),
        PaletteAction::BrowserSplit => window::did(w, Act::BrowserSplit),
        PaletteAction::ClosePane => tab_ops::active_closed(w),
        PaletteAction::Zoom => tab_ops::zoom_toggled(w),
        PaletteAction::DetachTab => tab_ops::detaching(w, w.active, None),
        PaletteAction::PaneToNewTab => match window::current(w) {
            Some(t) => tab_ops::pane_moved_out(w, t.active),
            None => w,
        },
        PaletteAction::NewWindow => window::did(w, Act::NewWindow),
        PaletteAction::FontBigger => tab_ops::font_set(w, window::font_of(w) + 1000),
        PaletteAction::FontSmaller => tab_ops::font_set(w, window::font_of(w) - 1000),
        PaletteAction::FontReset => tab_ops::font_set(w, w.settings.font_size as int),
        PaletteAction::Search => search_toggled(w),
        PaletteAction::MoveTabLeft => tab_ops::tab_moved(w, -1),
        PaletteAction::MoveTabRight => tab_ops::tab_moved(w, 1),
        PaletteAction::PromptPrev => prompt_jumped(w, true),
        PaletteAction::PromptNext => prompt_jumped(w, false),
        PaletteAction::Hints => hints_asked(w),
        PaletteAction::OpenSettings => window::did(w, Act::OpenSettings { script: false }),
        PaletteAction::OpenInitLua => window::did(w, Act::OpenSettings { script: true }),
        PaletteAction::ThemeNext => window::did(w, Act::AskNextTheme),
        PaletteAction::Theme(name) => window::with_work(w, Work::Theme(name@)),
    }
}

/// What a key does while the palette is open.
pub open spec fn palette_keyed(w: Win, vk: u16) -> Win {
    match w.palette {
        None => w,
        Some(p) => if vk == keys::VK_ESCAPE {
            window::did(Win { palette: None, ..w }, Act::Invalidate)
        } else if vk == keys::VK_UP {
            window::did(
                Win {
                    palette: Some(
                        PaletteModel {
                            selected: if p.selected == 0 {
                                0
                            } else {
                                p.selected - 1
                            },
                            ..p
                        },
                    ),
                    ..w
                },
                Act::Invalidate,
            )
        } else if vk == keys::VK_DOWN {
            window::did(
                Win {
                    palette: Some(PaletteModel { selected: overlays::next_selected(p), ..p }),
                    ..w
                },
                Act::Invalidate,
            )
        } else if vk == keys::VK_BACK {
            window::did(
                Win {
                    palette: Some(
                        PaletteModel {
                            query: overlays::shortened(p.query),
                            selected: 0,
                            ..p
                        },
                    ),
                    ..w
                },
                Act::Invalidate,
            )
        } else if vk == keys::VK_RETURN {
            let w1 = window::did(Win { palette: None, ..w }, Act::Invalidate);
            match overlays::chosen_action(p) {
                Some(a) => palette_run(w1, a),
                None => w1,
            }
        } else {
            w
        },
    }
}

/// What a character does while the palette is open.
pub open spec fn palette_typed(w: Win, c: char) -> Win {
    match w.palette {
        Some(p) if c >= ' ' && c != '\u{7f}' => window::did(
            Win {
                palette: Some(PaletteModel { query: p.query.push(c), selected: 0, ..p }),
                ..w
            },
            Act::Invalidate,
        ),
        _ => w,
    }
}

/// What an action that a binding of the script asked for does.
pub open spec fn action_run(w: Win, a: Action, profiles: Seq<Profile>) -> Win {
    match a {
        Action::NewTab(None) => window::did(w, Act::NewTab(None)),
        Action::NewTab(Some(name)) => match config::profile_named(profiles, name@) {
            Some(i) => tab_ops::profile_tab(w, i as usize),
            None => w,
        },
        Action::Split(d) => window::did(w, Act::Split(d)),
        Action::Browse(url) => match window::current(w) {
            Some(t) => tab_ops::request_served(w, t.active, "browse"@, url@).0,
            None => w,
        },
        Action::FontDelta(d) => tab_ops::font_set(w, window::font_of(w) + d),
        Action::SendText(s) => sent_to_active(w, input::sent(s@)),
    }
}

/// What the first `n` of such actions do, in turn.
pub open spec fn actions_run(w: Win, v: Seq<Action>, profiles: Seq<Profile>, n: int) -> Win
    decreases n,
{
    if n <= 0 || n > v.len() {
        w
    } else {
        action_run(actions_run(w, v, profiles, n - 1), v[n - 1], profiles)
    }
}

/// A window that has room for one more tab.
pub open spec fn roomy(w: Win) -> bool {
    w.tabs.len() < chrome::MAX_TABS
}

impl TermWindow {
    /// The active pane, where it is a terminal.
    pub fn active_terminal(&self) -> (r: Option<PaneId>)
        ensures
            r == active_term(self@),
    {
        if self.active >= self.tabs.len() {
            return None;
        }
        assert(self@.tabs[self.active as int] == self.tabs@[self.active as int]@);
        let id: PaneId = self.tabs[self.active].active;
        if self.is_terminal(id) {
            Some(id)
        } else {
            None
        }
    }

    pub fn send_active(&mut self, bytes: Vec<u8>)
        requires
            old(self).wf(),
        ensures
            final(self).wf(),
            final(self)@ == sent_to_active(old(self)@, bytes@),
    {
        if let Some(id) = self.active_terminal() {
            self.push(Job::Write(id, bytes));
        }
    }

    /// Jump between the shell's prompts in the scrollback.
    pub fn prompt_jump(&mut self, older: bool)
        requires
            old(self).wf(),
        ensures
            final(self).wf(),
            final(self)@ == prompt_jumped(old(self)@, older),
    {
        let id: PaneId = match self.active_terminal() {
            Some(id) => id,
            None => {
                return;
            },
        };
        let s = match self.screen(id) {
            Some(s) => s,
            None => {
                return;
            },
        };
        assert(self@.tabs[self.active as int] == self.tabs@[self.active as int]@);
        let target = match self.tabs[self.active].pane(id) {
            Some(p) => match &p.kind {
                PaneKind::Term(t) => scrollback::prompt_target(&t.marks, t.lines_seen, &s, older),
                PaneKind::Browser(_) => None,
            },
            None => None,
        };
        if let Some(d) = target {
            self.act(Act::Scroll { pane: id, lines: d });
            self.act(Act::Invalidate);
        }
    }

    pub fn copy_selection(&mut self)
        requires
            old(self).wf(),
        ensures
            final(self).wf(),
            final(self)@ == copying(old(self)@),
    {
        if let Some(id) = self.active_terminal() {
            self.act(Act::CopySelection(id));
        }
    }

    /// Paste text from the clipboard.
    pub fn paste(&mut self, t: &str)
        requires
            old(self).wf(),
        ensures
            final(self).wf(),
            final(self)@ == pasted(old(self)@, t@),
    {
        if let Some(id) = self.active_terminal() {
            if let Some(s) = self.screen(id) {
                self.push(Job::Write(id, input::paste_bytes(t, s.mode)));
            }
        }
    }

    pub fn close_search(&mut self)
        requires
            old(self).wf(),
        ensures
            final(self).wf(),
            final(self)@ == window::did(Win { search: None, ..old(self)@ }, Act::Invalidate),
    {
        self.search = None;
        self.act(Act::Invalidate);
    }

    pub fn toggle_search(&mut self)
        requires
            old(self).wf(),
        ensures
            final(self).wf(),
            final(self)@ == search_toggled(old(self)@),
    {
        if self.search.is_some() {
            self.close_search();
        } else {
            self.act(Act::AskSelection);
        }
    }

    /// Open the search bar, with the selection in it.
    pub fn open_search(&mut self, selection: Option<String>)
        requires
            old(self).wf(),
        ensures
            final(self).wf(),
            final(self)@ == search_opened(
                old(self)@,
                crate::term_pane::opt_chars(selection),
            ),
    {
        let query = match selection {
            Some(s) => {
                let v = text::chars_of(s.as_str());
                if v.len() > 0 && !text::has_char(v.as_slice(), '\n') {
                    scrollback::regex_escape(s.as_str())
                } else {
                    String::new()
                }
            },
            None => String::new(),
        };
        assert(query@ =~= prefill(crate::term_pane::opt_chars(selection)));
        self.search = Some(SearchUi::open(query));
        self.act(Act::RefreshSearch);
    }

    fn find_from(&mut self, found: Option<Match>, left: bool)
        requires
            old(self).wf(),
        ensures
            final(self).wf(),
            final(self)@ == searching(old(self)@, found, left),
    {
        let ready = match &self.search {
            Some(s) => s.is_ready(),
            None => false,
        };
        if !ready {
            return;
        }
        if let Some(id) = self.active_terminal() {
            if let Some(s) = self.screen(id) {
                let origin = scrollback::search_origin(found, left, &s);
                self.act(Act::Find { origin, left });
            }
        }
    }

    /// The query has been compiled.
    fn compiled(&mut self)
        requires
            old(self).wf(),
            old(self)@.search matches Some(s) ==> s.found is None,
        ensures
            final(self).wf(),
            final(self)@ == query_compiled(
                old(self)@,
                old(self)@.search->0.pattern,
            ),
    {
        let ready = match &self.search {
            Some(s) => s.is_ready(),
            None => {
                return;
            },
        };
        let ghost w1 = Win {
            search: Some(SearchModel { found: None, ..self@.search->0 }),
            ..self@
        };
        assert(w1 =~= self@);
        if ready {
            self.find_from(None, true);
        } else {
            if let Some(id) = self.active_terminal() {
                self.act(Act::ClearSelection(id));
            }
            self.act(Act::Invalidate);
        }
    }

    /// The query has changed: compile it, and search for it from the end of
    /// the display upwards.
    pub fn search_refresh(&mut self)
        requires
            old(self).wf(),
        ensures
            final(self).wf(),
            match (old(self)@.search, final(self)@.search) {
                (Some(s), Some(f)) => {
                    &&& overlays::made_of(s.query, f.pattern)
                    &&& f.query == s.query
                    &&& final(self)@ == query_compiled(old(self)@, f.pattern)
                },
                (None, None) => final(self)@ == old(self)@,
                _ => false,
            },
    {
        let ghost before = self@;
        match &mut self.search {
            Some(s) => {
                s.recompile();
            },
            None => {
                return;
            },
        }
        let ghost mid = self@;
        assert(mid == Win { search: mid.search, ..before });
        self.compiled();
        assert(query_compiled(mid, mid.search->0.pattern) == query_compiled(
            before,
            mid.search->0.pattern,
        ));
    }

    /// Go to the next match.
    pub fn search_step(&mut self, left: bool)
        requires
            old(self).wf(),
        ensures
            final(self).wf(),
            final(self)@ == search_stepped(old(self)@, left),
    {
        let found = match &self.search {
            Some(s) => s.found,
            None => {
                return;
            },
        };
        self.find_from(found, left);
    }

    /// The search that was asked for has ended.
    pub fn search_found(&mut self, m: Option<Match>)
        requires
            old(self).wf(),
            m matches Some(m) ==> (active_term(old(self)@) matches Some(id) ==> (
            window::screen_of(old(self)@, id) matches Some(s) ==> match_ok(m, s))),
        ensures
            final(self).wf(),
            final(self)@ == search_ended(old(self)@, m),
    {
        let id: PaneId = match self.active_terminal() {
            Some(id) => id,
            None => {
                return;
            },
        };
        if self.search.is_none() {
            return;
        }
        match m {
            Some(m) => {
                self.act(Act::Select { pane: id, spot: m.start, right: false, words: false });
                self.act(Act::ExtendSelection { pane: id, spot: m.end, right: true });
                if let Some(s) = self.screen(id) {
                    let lines: i32 = scrollback::scroll_into_view(m.start.line, &s);
                    if lines != 0 {
                        self.act(Act::Scroll { pane: id, lines });
                    }
                }
            },
            None => {
                self.act(Act::ClearSelection(id));
            },
        }
        match &mut self.search {
            Some(s) => {
                s.found = m;
            },
            None => {},
        }
        self.act(Act::Invalidate);
    }

    /// Put the first line of the clipboard behind the query.
    pub fn search_paste(&mut self, t: &str)
        requires
            old(self).wf(),
        ensures
            final(self).wf(),
            final(self)@ == search_pasted(old(self)@, t@),
    {
        let v = text::chars_of(t);
        let n: usize = v.len();
        if n == 0 || self.search.is_none() {
            return;
        }
        let mut end: usize = text::pos_of(v.as_slice(), '\n');
        assert(v@.take(end as int) =~= text::until(t@, '\n'));
        if end > 0 && end < n && v[end - 1] == '\r' {
            assert(v@.take(end as int).drop_last() =~= v@.take(end - 1));
            end -= 1;
        }
        let line = text::string_of(slice_subrange(v.as_slice(), 0, end));
        assert(line@ =~= first_line(t@));
        match &mut self.search {
            Some(s) => {
                s.append(line.as_str());
            },
            None => {},
        }
        self.act(Act::RefreshSearch);
    }

    /// A key while the search bar is open.
    pub fn search_key(&mut self, vk: u16, m: &Mods)
        requires
            old(self).wf(),
        ensures
            final(self).wf(),
            final(self)@ == search_keyed(old(self)@, vk, *m),
    {
        if vk == keys::VK_ESCAPE {
            self.close_search();
        } else if vk == keys::VK_RETURN || vk == VK_F3 {
            self.search_step(!m.shift);
        } else if vk == keys::VK_UP {
            self.search_step(true);
        } else if vk == keys::VK_DOWN {
            self.search_step(false);
        } else if vk == keys::VK_BACK {
            match &mut self.search {
                Some(s) => {
                    s.back();
                },
                None => {
                    return;
                },
            }
            self.act(Act::RefreshSearch);
        } else if m.ctrl && vk % 256 == 0x56 {
            self.act(Act::AskSearchText);
            self.suppress_char = true;
        }
    }

    /// A key while the hints are open.
    pub fn hints_key(&mut self, vk: u16)
        requires
            old(self).wf(),
        ensures
            final(self).wf(),
            final(self)@ == hints_keyed(old(self)@, vk),
    {
        if vk == keys::VK_ESCAPE {
            self.hints = None;
            self.act(Act::Invalidate);
        } else if vk == keys::VK_BACK {
            match &mut self.hints {
                Some(h) => {
                    h.back();
                },
                None => {},
            }
            self.act(Act::Invalidate);
        }
    }

    /// A character while the hints are open.
    pub fn hints_char(&mut self, c: char)
        requires
            old(self).wf(),
        ensures
            final(self).wf(),
            final(self)@ == hints_typed(old(self)@, c),
    {
        let ghost before = self@;
        let step = match &mut self.hints {
            Some(h) => h.type_char(c),
            None => {
                return;
            },
        };
        match step {
            HintStep::Ignored => {
                assert(self@ =~= before);
                return;
            },
            HintStep::More => {},
            HintStep::Picked(t) => {
                self.hints = None;
                self.send_active(input::bytes_of(t.as_str()));
            },
            HintStep::Missed => {
                self.hints = None;
            },
        }
        self.act(Act::Invalidate);
    }

    pub fn open_hints(&mut self)
        requires
            old(self).wf(),
        ensures
            final(self).wf(),
            final(self)@ == hints_asked(old(self)@),
    {
        if self.active_terminal().is_some() {
            self.act(Act::AskRows);
        }
    }

    /// Label what is interesting in the rows on show.
    pub fn show_hints(&mut self, rows: &[(String, Vec<usize>)])
        requires
            old(self).wf(),
        ensures
            final(self).wf(),
            if hints::rows_found(rows@, rows@.len() as int).len() == 0 {
                final(self)@ == old(self)@
            } else {
                &&& final(self)@.hints matches Some(h)
                &&& is_scan(rows@, h.matches)
                &&& h.typed == Seq::<char>::empty()
                &&& final(self)@ == window::did(
                    Win { hints: Some(h), ..old(self)@ },
                    Act::Invalidate,
                )
            },
    {
        let matches = hints::scan(rows);
        assert(is_scan(rows@, matches@));
        if matches.len() == 0 {
            return;
        }
        let h = HintsUi { matches, typed: String::new() };
        assert(h@.typed =~= Seq::empty());
        self.hints = Some(h);
        self.act(Act::Invalidate);
    }

    pub fn toggle_cheatsheet(&mut self)
        requires
            old(self).wf(),
        ensures
            final(self).wf(),
            final(self)@ == cheatsheet_toggled(old(self)@),
    {
        self.cheatsheet = !self.cheatsheet;
        self.suppress_char = true;
        self.act(Act::Invalidate);
    }

    /// Open the palette with its items.
    pub fn open_palette(&mut self, items: Vec<Item>)
        requires
            old(self).wf(),
        ensures
            final(self).wf(),
            final(self)@ == window::did(
                Win {
                    palette: Some(
                        PaletteModel { items: items@, query: Seq::empty(), selected: 0 },
                    ),
                    ..old(self)@
                },
                Act::Invalidate,
            ),
    {
        self.palette = Some(PaletteUi::open(items));
        self.act(Act::Invalidate);
    }

    pub fn run_palette_action(&mut self, a: PaletteAction)
        requires
            old(self).wf(),
            roomy(old(self)@),
        ensures
            final(self).wf(),
            final(self)@ == palette_run(old(self)@, a),
    {
        match a {
            PaletteAction::NewTabProfile(i) => self.new_tab_with_profile(i),
            PaletteAction::Split(d) => self.act(Act::Split(d)),
            PaletteAction::BrowserSplit => self.act(Act::BrowserSplit),
            PaletteAction::ClosePane => self.close_active_pane(),
            PaletteAction::Zoom => self.zoom_toggle(),
            PaletteAction::DetachTab => self.detach_tab(self.active, None),
            PaletteAction::PaneToNewTab => {
                if self.active < self.tabs.len() {
                    assert(self@.tabs[self.active as int] == self.tabs@[self.active as int]@);
                    self.pane_to_new_tab(self.tabs[self.active].active);
                }
            },
            PaletteAction::NewWindow => self.act(Act::NewWindow),
            PaletteAction::FontBigger => self.bump_font(1000),
            PaletteAction::FontSmaller => self.bump_font(-1000),
            PaletteAction::FontReset => self.set_font_size(self.settings.font_size),
            PaletteAction::Search => self.toggle_search(),
            PaletteAction::MoveTabLeft => self.move_tab(true),
            PaletteAction::MoveTabRight => self.move_tab(false),
            PaletteAction::PromptPrev => self.prompt_jump(true),
            PaletteAction::PromptNext => self.prompt_jump(false),
            PaletteAction::Hints => self.open_hints(),
            PaletteAction::OpenSettings => self.act(Act::OpenSettings { script: false }),
            PaletteAction::OpenInitLua => self.act(Act::OpenSettings { script: true }),
            PaletteAction::ThemeNext => self.act(Act::AskNextTheme),
            PaletteAction::Theme(name) => self.push(Job::Theme(name)),
        }
    }

    /// A key while the palette is open.
    pub fn palette_key(&mut self, vk: u16)
        requires
            old(self).wf(),
            roomy(old(self)@),
        ensures
            final(self).wf(),
            final(self)@ == palette_keyed(old(self)@, vk),
    {
        if self.palette.is_none() {
            return;
        }
        if vk == keys::VK_ESCAPE {
            self.palette = None;
            self.act(Act::Invalidate);
            return;
        }
        if vk == keys::VK_RETURN {
            let chosen = match &self.palette {
                Some(p) => p.chosen(),
                None => None,
            };
            self.palette = None;
            self.act(Act::Invalidate);
            if let Some(a) = chosen {
                self.run_palette_action(a);
            }
            return;
        }
        if !(vk == keys::VK_UP || vk == keys::VK_DOWN || vk == keys::VK_BACK) {
            return;
        }
        match &mut self.palette {
            Some(p) => {
                if vk == keys::VK_UP {
                    p.up();
                } else if vk == keys::VK_DOWN {
                    p.down();
                } else {
                    p.back();
                }
            },
            None => {},
        }
        self.act(Act::Invalidate);
    }

    /// A character while the palette is open.
    pub fn palette_char(&mut self, c: char)
        requires
            old(self).wf(),
        ensures
            final(self).wf(),
            final(self)@ == palette_typed(old(self)@, c),
    {
        if c < ' ' || c == '\u{7f}' {
            return;
        }
        match &mut self.palette {
            Some(p) => {
                p.typed(c);
            },
            None => {
                return;
            },
        }
        self.act(Act::Invalidate);
    }

    /// Carry out an action that a binding of the script asked for.
    pub fn run_action(&mut self, a: &Action, profiles: &Vec<Profile>)
        requires
            old(self).wf(),
        ensures
            final(self).wf(),
            final(self)@ == action_run(old(self)@, *a, profiles@),
    {
        match a {
            Action::NewTab(None) => self.new_tab(),
            Action::NewTab(Some(name)) => {
                if let Some(i) = config::find_profile(profiles, name.as_str()) {
                    self.new_tab_with_profile(i);
                }
            },
            Action::Split(d) => self.act(Act::Split(*d)),
            Action::Browse(url) => {
                if self.active < self.tabs.len() {
                    assert(self@.tabs[self.active as int] == self.tabs@[self.active as int]@);
                    let req = CtlReq {
                        pane: self.tabs[self.active].active,
                        verb: text::owned("browse"),
                        arg: url.clone(),
                    };
                    self.handle_ctl(&req);
                }
            },
            Action::FontDelta(d) => self.bump_font(*d),
            Action::SendText(s) => self.send_active(input::bytes_of(s.as_str())),
        }
    }

    pub fn run_actions(&mut self, v: &Vec<Action>, profiles: &Vec<Profile>)
        requires
            old(self).wf(),
        ensures
            final(self).wf(),
            final(self)@ == actions_run(old(self)@, v@, profiles@, v@.len() as int),
    {
        let mut i: usize = 0;
        while i < v.len()
            invariant
                i <= v@.len(),
                self.wf(),
                self@ == actions_run(old(self)@, v@, profiles@, i as int),
            decreases v@.len() - i,
        {
            self.run_action(&v[i], profiles);
            i += 1;
        }
    }
}

/// A jump to a prompt scrolls the active terminal by what the prompts ask for,
/// and does nothing without one.
pub proof fn law_prompt_jump_scrolls(w: Win, older: bool, id: PaneId, s: Screen)
    requires
        active_term(w) == Some(id),
        window::screen_of(w, id) == Some(s),
    ensures
        ({
            let p = window::current(w)->0.panes[id].kind->Term_0;
            match scrollback::prompt_scroll(p.marks@, p.lines_seen as int, s, older) {
                Some(d) => prompt_jumped(w, older).work == w.work.push(
                    Work::Act(Act::Scroll { pane: id, lines: d as i32 }),
                ).push(Work::Act(Act::Invalidate)),
                None => prompt_jumped(w, older) == w,
            }
        }),
{
}

/// Copying takes the selection of the active terminal, pasting writes to it: in
/// brackets where it asked for them.
pub proof fn law_copy_and_paste(w: Win, t: Seq<char>, id: PaneId, s: Screen)
    requires
        active_term(w) == Some(id),
        window::screen_of(w, id) == Some(s),
    ensures
        copying(w).work == w.work.push(Work::Act(Act::CopySelection(id))),
        pasted(w, t).work == w.work.push(Work::Write(id, input::paste_sent(t, s.mode))),
        copying(w).tabs == w.tabs && pasted(w, t).tabs == w.tabs,
{
}

/// The search bar opens, with a selection of one line as its query, taken
/// literally, and closes again; closing asks for nothing more than a picture.
pub proof fn law_search_opens(w: Win, selection: Seq<char>)
    ensures
        w.search is None ==> search_toggled(w).work == w.work.push(Work::Act(Act::AskSelection)),
        w.search is Some ==> search_toggled(w).search is None,
        selection.len() > 0 && !selection.contains('\n') ==> (search_opened(
            w,
            Some(selection),
        ).search matches Some(s) && s.query == scrollback::escaped(selection) && s.found is None),
        selection.contains('\n') ==> (search_opened(w, Some(selection)).search matches Some(s)
            && s.query.len() == 0),
        search_opened(w, None).search matches Some(s) && s.query.len() == 0,
        search_opened(w, Some(selection)).work == w.work.push(Work::Act(Act::RefreshSearch)),
{
}

/// The keys of the search bar: Enter, F3 and Up go to an older match, Shift and
/// Enter, Shift and F3, and Down to a newer one, Backspace takes the last
/// character off, Escape closes.
pub proof fn law_search_keys(w: Win, m: Mods, s: SearchModel)
    requires
        w.search == Some(s),
    ensures
        search_keyed(w, 0x1b, m).search is None,
        !m.shift ==> search_keyed(w, 0x0d, m) == search_stepped(w, true) && search_keyed(w, 0x72, m)
            == search_stepped(w, true),
        m.shift ==> search_keyed(w, 0x0d, m) == search_stepped(w, false) && search_keyed(w, 0x72, m)
            == search_stepped(w, false),
        search_keyed(w, 0x26, m) == search_stepped(w, true),
        search_keyed(w, 0x28, m) == search_stepped(w, false),
        search_keyed(w, 0x08, m).search matches Some(t) && t.query == (if s.query.len() == 0 {
            s.query
        } else {
            s.query.drop_last()
        }),
        search_keyed(w, 0x08, m).work == w.work.push(Work::Act(Act::RefreshSearch)),
        m.ctrl ==> search_keyed(w, 0x56, m).work == w.work.push(Work::Act(Act::AskSearchText)),
{
}

/// A step of the search goes from the match there is: to the left for an older
/// one, from before its start, to the right for a newer one, from behind its
/// end. Without a pattern nothing is searched for.
pub proof fn law_search_steps(w: Win, left: bool, id: PaneId, s: SearchModel, screen: Screen)
    requires
        active_term(w) == Some(id),
        w.search == Some(s),
        window::screen_of(w, id) == Some(screen),
    ensures
        !s.ready() ==> search_stepped(w, left) == w,
        s.ready() ==> (s.found matches Some(m) ==> search_stepped(w, left).work == w.work.push(
            Work::Act(
                Act::Find {
                    origin: if left {
                        scrollback::Origin::Before(m.start)
                    } else {
                        scrollback::Origin::Behind(m.end)
                    },
                    left,
                },
            ),
        )),
{
}

/// A match that is found is selected from end to end, remembered, and brought
/// into view; where none is found the selection is taken away.
pub proof fn law_match_is_shown(w: Win, m: Match, id: PaneId, s: SearchModel, screen: Screen)
    requires
        active_term(w) == Some(id),
        w.search == Some(s),
        window::screen_of(w, id) == Some(screen),
        scrollback::screen_ok(screen),
        match_ok(m, screen),
    ensures
        ({
            let r = search_ended(w, Some(m));
            let n = w.work.len() as int;
            let d = scrollback::scroll_to(m.start.line as int, screen);
            &&& r.search matches Some(t) && t.found == Some(m) && t.query == s.query
            &&& r.work[n] == Work::Act(
                Act::Select { pane: id, spot: m.start, right: false, words: false },
            )
            &&& r.work[n + 1] == Work::Act(
                Act::ExtendSelection { pane: id, spot: m.end, right: true },
            )
            &&& d != 0 ==> r.work[n + 2] == Work::Act(Act::Scroll { pane: id, lines: d as i32 })
            &&& r.work.last() == Work::Act(Act::Invalidate)
        }),
        ({
            let r = search_ended(w, None);
            &&& r.search matches Some(t) && t.found is None
            &&& r.work == w.work.push(Work::Act(Act::ClearSelection(id))).push(
                Work::Act(Act::Invalidate),
            )
        }),
{
}

/// Pasting into the search bar puts just the first line of a text behind the
/// query, without its line end.
pub proof fn law_search_takes_first_line(w: Win, line: Seq<char>, more: Seq<char>, s: SearchModel)
    requires
        w.search == Some(s),
        line.len() > 0,
        !line.contains('\n'),
        line.last() != '\r',
    ensures
        search_pasted(w, line).search matches Some(t) && t.query == s.query + line,
        search_pasted(w, line + seq!['\n'] + more).search matches Some(t) && t.query == s.query
            + line,
        search_pasted(w, line + seq!['\r', '\n'] + more).search matches Some(t) && t.query
            == s.query + line,
{
    let a = line;
    let b = line + seq!['\n'] + more;
    let c = line + seq!['\r', '\n'] + more;
    let n = line.len() as int;
    assert forall|i: int| 0 <= i < n implies line[i] != '\n' by {
        if line[i] == '\n' {
            assert(line.contains('\n'));
        }
    }
    text::lemma_char_pos(a, '\n', n);
    text::lemma_char_pos(b, '\n', n);
    text::lemma_char_pos(c, '\n', n + 1);
    assert(a.take(n) =~= line);
    assert(b.take(n) =~= line);
    assert(c.take(n + 1) =~= line.push('\r'));
    assert(line.push('\r').drop_last() =~= line);
}

/// The keys of the palette: Up and Down go through the items and stop at the
/// ends, Backspace takes the last character of the query off, Escape closes, and
/// Enter closes and runs the item that is chosen.
pub proof fn law_palette_keys(w: Win, p: PaletteModel)
    requires
        w.palette == Some(p),
    ensures
        palette_keyed(w, 0x1b).palette is None && palette_keyed(w, 0x1b).tabs == w.tabs,
        palette_keyed(w, 0x26).palette matches Some(q) && q.selected == (if p.selected == 0 {
            0
        } else {
            p.selected - 1
        }) && q.query == p.query,
        palette_keyed(w, 0x28).palette matches Some(q) && q.selected == overlays::next_selected(p)
            && q.query == p.query,
        palette_keyed(w, 0x08).palette matches Some(q) && q.selected == 0 && q.query == (
        if p.query.len() == 0 {
            p.query
        } else {
            p.query.drop_last()
        }),
        overlays::chosen_action(p) matches Some(a) ==> palette_keyed(w, 0x0d) == palette_run(
            window::did(Win { palette: None, ..w }, Act::Invalidate),
            a,
        ),
        overlays::chosen_action(p) is None ==> palette_keyed(w, 0x0d).palette is None
            && palette_keyed(w, 0x0d).tabs == w.tabs,
        forall|c: char|
            c >= ' ' && c != '\u{7f}' ==> (#[trigger] palette_typed(w, c).palette matches Some(q)
                && q.query == p.query.push(c) && q.selected == 0),
{
}

/// What the items of the palette do is what their names say, and the same as the
/// shortcuts for it.
pub proof fn law_palette_actions(w: Win, t: crate::tabs::TabModel)
    requires
        window::win_wf(w),
        window::current(w) == Some(t),
    ensures
        ({
            let did = |a: PaletteAction, b: Act| palette_run(w, a) == window::did(w, b);
            &&& did(PaletteAction::Split(crate::pane_tree::Dir::Row), Act::Split(crate::pane_tree::Dir::Row))
            &&& did(PaletteAction::Split(crate::pane_tree::Dir::Col), Act::Split(crate::pane_tree::Dir::Col))
            &&& did(PaletteAction::BrowserSplit, Act::BrowserSplit)
            &&& did(PaletteAction::NewWindow, Act::NewWindow)
            &&& did(PaletteAction::OpenSettings, Act::OpenSettings { script: false })
            &&& did(PaletteAction::OpenInitLua, Act::OpenSettings { script: true })
            &&& did(PaletteAction::ThemeNext, Act::AskNextTheme)
            &&& palette_run(w, PaletteAction::ClosePane) == tab_ops::active_closed(w)
            &&& palette_run(w, PaletteAction::Zoom).tabs[w.active].zoomed == (if t.zoomed is None {
                Some(t.active)
            } else {
                None
            })
            &&& palette_run(w, PaletteAction::DetachTab) == tab_ops::detaching(w, w.active, None)
            &&& palette_run(w, PaletteAction::PaneToNewTab) == tab_ops::pane_moved_out(w, t.active)
            &&& palette_run(w, PaletteAction::FontBigger) == tab_ops::font_set(
                w,
                t.font_size + 1000,
            )
            &&& palette_run(w, PaletteAction::FontSmaller) == tab_ops::font_set(
                w,
                t.font_size - 1000,
            )
            &&& palette_run(w, PaletteAction::FontReset) == tab_ops::font_set(
                w,
                w.settings.font_size as int,
            )
            &&& palette_run(w, PaletteAction::Search) == search_toggled(w)
            &&& palette_run(w, PaletteAction::MoveTabLeft) == tab_ops::tab_moved(w, -1)
            &&& palette_run(w, PaletteAction::MoveTabRight) == tab_ops::tab_moved(w, 1)
            &&& palette_run(w, PaletteAction::PromptPrev) == prompt_jumped(w, true)
            &&& palette_run(w, PaletteAction::PromptNext) == prompt_jumped(w, false)
            &&& palette_run(w, PaletteAction::Hints) == hints_asked(w)
            &&& forall|i: usize| #[trigger]
                palette_run(w, PaletteAction::NewTabProfile(i)) == (if i < w.settings.profiles {
                    window::did(w, Act::NewTab(Some(i)))
                } else {
                    w
                })
            &&& forall|name: String| #[trigger]
                palette_run(w, PaletteAction::Theme(name)).work == w.work.push(
                    Work::Theme(name@),
                )
        }),
{
}

/// What a script asks for is done in its order: a tab, with the profile of a
/// name, a split, a page in the tab on show, a larger or smaller font, text for
/// the active terminal.
pub proof fn law_script_actions(w: Win, v: Seq<Action>, profiles: Seq<Profile>, d: i32, s: String)
    requires
        v.len() > 0,
    ensures
        actions_run(w, v, profiles, v.len() as int) == action_run(
            actions_run(w, v.drop_last(), profiles, v.len() - 1),
            v.last(),
            profiles,
        ),
        action_run(w, Action::NewTab(None), profiles) == window::did(w, Act::NewTab(None)),
        action_run(w, Action::Split(crate::pane_tree::Dir::Row), profiles) == window::did(w, Act::Split(crate::pane_tree::Dir::Row)),
        action_run(w, Action::Split(crate::pane_tree::Dir::Col), profiles) == window::did(w, Act::Split(crate::pane_tree::Dir::Col)),
        action_run(w, Action::FontDelta(d), profiles) == tab_ops::font_set(
            w,
            window::font_of(w) + d,
        ),
        active_term(w) matches Some(id) ==> action_run(w, Action::SendText(s), profiles).work
            == w.work.push(Work::Write(id, vstd::utf8::encode_utf8(s@))),
        window::current(w) matches Some(t) ==> action_run(w, Action::Browse(s), profiles)
            == tab_ops::request_served(w, t.active, "browse"@, s@).0,
{
    lemma_actions_prefix(w, v, profiles, v.len() - 1);
}

proof fn lemma_actions_prefix(w: Win, v: Seq<Action>, profiles: Seq<Profile>, n: int)
    requires
        v.len() > 0,
        0 <= n < v.len(),
    ensures
        actions_run(w, v, profiles, n) == actions_run(w, v.drop_last(), profiles, n),
    decreases n,
{
    if n > 0 {
        lemma_actions_prefix(w, v, profiles, n - 1);
    }
}

/// The keys of the hints: Escape closes them without sending anything, Backspace
/// takes the last letter back; a letter that no label begins with closes them.
pub proof fn law_hints_keys(w: Win, h: HintsModel, c: char)
    requires
        w.hints == Some(h),
    ensures
        hints_keyed(w, 0x1b).hints is None,
        hints_keyed(w, 0x1b).work == w.work.push(Work::Act(Act::Invalidate)),
        hints_keyed(w, 0x08).hints matches Some(k) && k.matches == h.matches && k.typed == (
        if h.typed.len() == 0 {
            h.typed
        } else {
            h.typed.drop_last()
        }),
        overlays::is_graphic(c) && (forall|i: int|
            0 <= i < h.matches.len() ==> !text::stands_at(
                (#[trigger] h.matches[i]).label@,
                h.typed.push(text::ascii_lower(c)),
                0,
            )) ==> hints_typed(w, c).hints is None && hints_typed(w, c).work == w.work.push(
            Work::Act(Act::Invalidate),
        ),
{
    let typed = h.typed.push(text::ascii_lower(c));
    if forall|i: int|
        0 <= i < h.matches.len() ==> !text::stands_at((#[trigger] h.matches[i]).label@, typed, 0) {
        assert forall|j: int| 0 <= j < h.matches.len() implies (#[trigger] h.matches[j]).label@
            != typed by {
            if h.matches[j].label@ == typed {
                assert(typed.subrange(0, typed.len() as int) =~= typed);
                assert(text::stands_at(h.matches[j].label@, typed, 0));
            }
        }
        lemma_no_label(h.matches, typed, 0);
        assert(!overlays::some_lead(h.matches, typed)) by {
            if overlays::some_lead(h.matches, typed) {
                let i = choose|i: int|
                    0 <= i < h.matches.len() && overlays::leads_on(#[trigger] h.matches[i], typed);
                assert(text::stands_at(h.matches[i].label@, typed, 0));
            }
        }
    }
}

/// A new query is searched for from the end of the display, towards what is
/// older; one that is no pattern takes the selection away.
pub proof fn law_query_is_searched_for(
    w: Win,
    p: Option<PatternModel>,
    s: SearchModel,
    id: PaneId,
    screen: crate::scrollback::Screen,
)
    requires
        w.search == Some(s),
        active_term(w) == Some(id),
        window::screen_of(w, id) == Some(screen),
    ensures
        ({
            let r = query_compiled(w, p);
            let ready = p matches Some(q) && q.ready;
            &&& r.search matches Some(x) && x.pattern == p && x.found is None && x.query == s.query
            &&& ready ==> r.work == w.work.push(
                window::Work::Act(
                    Act::Find {
                        origin: scrollback::search_start(None, true, screen),
                        left: true,
                    },
                ),
            )
            &&& !ready ==> r.work == w.work.push(window::Work::Act(Act::ClearSelection(id))).push(
                window::Work::Act(Act::Invalidate),
            )
        }),
{
}

} // verus!
