//! The overlays that take a window's keys while they are open: the command
//! palette, the quick-select hints, and the search bar.
use vstd::prelude::*;
use vstd::slice::*;
use crate::command_palette;
use crate::command_palette::{Item, PaletteAction};
use crate::hints::HintMatch;
use crate::pattern;
use crate::pattern::{Pattern, PatternModel};
use crate::scrollback::Match;
use crate::text;

verus! {

/// `s` without its last character.
pub open spec fn shortened(s: Seq<char>) -> Seq<char> {
    if s.len() == 0 {
        s
    } else {
        s.drop_last()
    }
}

fn drop_last_char(s: &String) -> (r: String)
    ensures
        r@ == shortened(s@),
{
    let v = text::chars_of(s.as_str());
    let n: usize = v.len();
    if n == 0 {
        return String::new();
    }
    let front = slice_subrange(v.as_slice(), 0, n - 1);
    assert(front@ =~= s@.drop_last());
    text::string_of(front)
}

/// The command palette while it is open.
pub struct PaletteUi {
    pub items: Vec<Item>,
    pub query: String,
    pub filtered: Vec<usize>,
    pub selected: usize,
}

/// The palette that a `PaletteUi` stands for.
#[verifier::ext_equal]
pub struct PaletteModel {
    pub items: Seq<Item>,
    pub query: Seq<char>,
    pub selected: int,
}

impl View for PaletteUi {
    type V = PaletteModel;

    open spec fn view(&self) -> PaletteModel {
        PaletteModel {
            items: self.items@,
            query: self.query@,
            selected: self.selected as int,
        }
    }
}

/// The selection one further down, as far as there are items and rows.
pub open spec fn next_selected(p: PaletteModel) -> int {
    let n = command_palette::filtered(p.items, p.query).len();
    let last = if n == 0 {
        0
    } else {
        n - 1
    };
    let s = if p.selected + 1 < last {
        p.selected + 1
    } else {
        last
    };
    if s < 9 {
        s
    } else {
        9
    }
}

/// The action of the selected item.
pub open spec fn chosen_action(p: PaletteModel) -> Option<PaletteAction> {
    let f = command_palette::filtered(p.items, p.query);
    if p.selected < f.len() {
        Some(p.items[f[p.selected] as int].action)
    } else {
        None
    }
}

/// The same action once more.
pub fn copy_action(a: &PaletteAction) -> (r: PaletteAction)
    ensures
        r == *a,
{
    match a {
        PaletteAction::Theme(n) => PaletteAction::Theme(n.clone()),
        PaletteAction::ThemeNext => PaletteAction::ThemeNext,
        PaletteAction::NewTabProfile(i) => PaletteAction::NewTabProfile(*i),
        PaletteAction::Split(d) => PaletteAction::Split(*d),
        PaletteAction::BrowserSplit => PaletteAction::BrowserSplit,
        PaletteAction::ClosePane => PaletteAction::ClosePane,
        PaletteAction::Zoom => PaletteAction::Zoom,
        PaletteAction::DetachTab => PaletteAction::DetachTab,
        PaletteAction::PaneToNewTab => PaletteAction::PaneToNewTab,
        PaletteAction::NewWindow => PaletteAction::NewWindow,
        PaletteAction::FontBigger => PaletteAction::FontBigger,
        PaletteAction::FontSmaller => PaletteAction::FontSmaller,
        PaletteAction::FontReset => PaletteAction::FontReset,
        PaletteAction::Search => PaletteAction::Search,
        PaletteAction::MoveTabLeft => PaletteAction::MoveTabLeft,
        PaletteAction::MoveTabRight => PaletteAction::MoveTabRight,
        PaletteAction::PromptPrev => PaletteAction::PromptPrev,
        PaletteAction::PromptNext => PaletteAction::PromptNext,
        PaletteAction::Hints => PaletteAction::Hints,
        PaletteAction::OpenSettings => PaletteAction::OpenSettings,
        PaletteAction::OpenInitLua => PaletteAction::OpenInitLua,
    }
}

impl PaletteUi {
    /// The list on show is the one that the query asks for.
    pub open spec fn wf(self) -> bool {
        command_palette::is_filtered(self.items@, self.query@, self.filtered@)
    }

    /// A palette just opened.
    pub fn open(items: Vec<Item>) -> (r: PaletteUi)
        ensures
            r.wf(),
            r@ == (PaletteModel { items: items@, query: Seq::empty(), selected: 0 }),
    {
        let query = String::new();
        let filtered = command_palette::filter(items.as_slice(), query.as_str());
        PaletteUi { items, query, filtered, selected: 0 }
    }

    fn refresh(&mut self)
        ensures
            final(self).wf(),
            final(self)@ == (PaletteModel { selected: 0, ..old(self)@ }),
    {
        self.filtered = command_palette::filter(self.items.as_slice(), self.query.as_str());
        self.selected = 0;
    }

    /// Select the item above.
    pub fn up(&mut self)
        requires
            old(self).wf(),
        ensures
            final(self).wf(),
            final(self)@ == (PaletteModel {
                selected: if old(self).selected == 0 {
                    0
                } else {
                    old(self).selected - 1
                },
                ..old(self)@
            }),
    {
        if self.selected > 0 {
            self.selected -= 1;
        }
    }

    /// Select the item below.
    pub fn down(&mut self)
        requires
            old(self).wf(),
        ensures
            final(self).wf(),
            final(self)@ == (PaletteModel { selected: next_selected(old(self)@), ..old(self)@ }),
    {
        let count: usize = self.items.len();
        proof {
            assert(count == self.items@.len());
            command_palette::lemma_filtered(self.items@, self.query@, self.filtered@);
        }
        let n: usize = self.filtered.len();
        let last: usize = if n == 0 {
            0
        } else {
            n - 1
        };
        let s: usize = if self.selected < last && self.selected + 1 < last {
            self.selected + 1
        } else {
            last
        };
        self.selected = if s < 9 {
            s
        } else {
            9
        };
    }

    /// Take the last character of the query back.
    pub fn back(&mut self)
        requires
            old(self).wf(),
        ensures
            final(self).wf(),
            final(self)@ == (PaletteModel {
                query: shortened(old(self)@.query),
                selected: 0,
                ..old(self)@
            }),
    {
        self.query = drop_last_char(&self.query);
        self.refresh();
    }

    /// Type a character of the query.
    pub fn typed(&mut self, c: char)
        requires
            old(self).wf(),
        ensures
            final(self).wf(),
            final(self)@ == (PaletteModel {
                query: old(self)@.query.push(c),
                selected: 0,
                ..old(self)@
            }),
    {
        self.query.push(c);
        self.refresh();
    }

    /// What Enter runs.
    pub fn chosen(&self) -> (r: Option<PaletteAction>)
        requires
            self.wf(),
        ensures
            r == chosen_action(self@),
    {
        let count: usize = self.items.len();
        proof {
            assert(count == self.items@.len());
            command_palette::lemma_filtered(self.items@, self.query@, self.filtered@);
        }
        if self.selected < self.filtered.len() {
            let i: usize = self.filtered[self.selected];
            Some(copy_action(&self.items[i].action))
        } else {
            None
        }
    }
}

/// The quick-select hints while they are open.
pub struct HintsUi {
    pub matches: Vec<HintMatch>,
    pub typed: String,
}

/// The hints that a `HintsUi` stands for.
#[verifier::ext_equal]
pub struct HintsModel {
    pub matches: Seq<HintMatch>,
    pub typed: Seq<char>,
}

impl View for HintsUi {
    type V = HintsModel;

    open spec fn view(&self) -> HintsModel {
        HintsModel { matches: self.matches@, typed: self.typed@ }
    }
}

/// What a character does to the hints.
pub enum HintStep {
    /// It is none that labels are made of.
    Ignored,
    /// It has been added to what was typed.
    More,
    /// A label is complete: its text.
    Picked(String),
    /// No label begins so.
    Missed,
}

/// The text of the first hint, from `i` on, whose label is `typed`.
pub open spec fn picked_from(m: Seq<HintMatch>, typed: Seq<char>, i: int) -> Option<Seq<char>>
    decreases m.len() - i,
{
    if i < 0 || i >= m.len() {
        None
    } else if m[i].label@ == typed {
        Some(m[i].text@)
    } else {
        picked_from(m, typed, i + 1)
    }
}

/// Whether the label of a hint begins with `typed`.
pub open spec fn leads_on(h: HintMatch, typed: Seq<char>) -> bool {
    text::stands_at(h.label@, typed, 0)
}

/// Whether some label begins with `typed`.
pub open spec fn some_lead(m: Seq<HintMatch>, typed: Seq<char>) -> bool {
    exists|i: int| 0 <= i < m.len() && leads_on(#[trigger] m[i], typed)
}

pub open spec fn is_graphic(c: char) -> bool {
    '!' <= c <= '~'
}

/// Whether `step` is what the character does, and `after` what it leaves.
pub open spec fn hint_stepped(
    before: HintsModel,
    c: char,
    step: HintStep,
    after: HintsModel,
) -> bool {
    let typed = before.typed.push(text::ascii_lower(c));
    if !is_graphic(c) {
        step is Ignored && after == before
    } else {
        &&& after == HintsModel { typed, ..before }
        &&& match picked_from(before.matches, typed, 0) {
            Some(t) => step matches HintStep::Picked(s) && s@ == t,
            None => if some_lead(before.matches, typed) {
                step is More
            } else {
                step is Missed
            },
        }
    }
}

impl HintsUi {
    /// Take the last typed character back.
    pub fn back(&mut self)
        ensures
            final(self)@ == (HintsModel {
                typed: shortened(old(self)@.typed),
                ..old(self)@
            }),
    {
        self.typed = drop_last_char(&self.typed);
    }

    pub fn type_char(&mut self, c: char) -> (r: HintStep)
        ensures
            hint_stepped(old(self)@, c, r, final(self)@),
    {
        if !('!' <= c && c <= '~') {
            return HintStep::Ignored;
        }
        self.typed.push(text::to_lower(c));
        let typed = text::chars_of(self.typed.as_str());
        let mut lead = false;
        let mut i: usize = 0;
        while i < self.matches.len()
            invariant
                i <= self.matches@.len(),
                typed@ == self.typed@,
                self.matches@ == old(self).matches@,
                self.typed@ == old(self).typed@.push(text::ascii_lower(c)),
                is_graphic(c),
                picked_from(self.matches@, typed@, 0) == picked_from(
                    self.matches@,
                    typed@,
                    i as int,
                ),
                lead <==> exists|k: int|
                    0 <= k < i && leads_on(#[trigger] self.matches@[k], typed@),
            decreases self.matches@.len() - i,
        {
            let label = text::chars_of(self.matches[i].label.as_str());
            if text::same_chars(label.as_slice(), typed.as_slice()) {
                return HintStep::Picked(self.matches[i].text.clone());
            }
            if text::stands(label.as_slice(), typed.as_slice(), 0) {
                lead = true;
                assert(leads_on(self.matches@[i as int], typed@));
            }
            i += 1;
        }
        if lead {
            HintStep::More
        } else {
            HintStep::Missed
        }
    }
}

/// The search bar while it is open.
pub struct SearchUi {
    pub query: String,
    /// What was compiled last.
    pub pattern: Option<Pattern>,
    pub found: Option<Match>,
}

/// The search bar that a `SearchUi` stands for.
#[verifier::ext_equal]
pub struct SearchModel {
    pub query: Seq<char>,
    /// What was compiled last.
    pub pattern: Option<PatternModel>,
    pub found: Option<Match>,
}

impl SearchModel {
    /// There is a pattern that can be searched for.
    pub open spec fn ready(self) -> bool {
        self.pattern matches Some(p) && p.ready
    }
}

pub open spec fn opt_pattern(p: Option<Pattern>) -> Option<PatternModel> {
    match p {
        Some(p) => Some(p@),
        None => None,
    }
}

impl View for SearchUi {
    type V = SearchModel;

    open spec fn view(&self) -> SearchModel {
        SearchModel {
            query: self.query@,
            pattern: opt_pattern(self.pattern),
            found: self.found,
        }
    }
}

/// Whether `p` can come of compiling a query: nothing for an empty one, else a
/// pattern for just that query. Whether it can be searched for, the regex
/// compiler says.
pub open spec fn made_of(query: Seq<char>, p: Option<PatternModel>) -> bool {
    if query.len() == 0 {
        p is None
    } else {
        p matches Some(p) && p.text == query
    }
}

impl SearchUi {
    pub fn open(query: String) -> (r: SearchUi)
        ensures
            r@ == (SearchModel { query: query@, pattern: None, found: None }),
    {
        SearchUi { query, pattern: None, found: None }
    }

    pub fn typed(&mut self, c: char)
        ensures
            final(self)@ == (SearchModel { query: old(self)@.query.push(c), ..old(self)@ }),
    {
        self.query.push(c);
    }

    pub fn back(&mut self)
        ensures
            final(self)@ == (SearchModel { query: shortened(old(self)@.query), ..old(self)@ }),
    {
        self.query = drop_last_char(&self.query);
    }

    pub fn append(&mut self, t: &str)
        ensures
            final(self)@ == (SearchModel { query: old(self)@.query + t@, ..old(self)@ }),
    {
        text::push_text(&mut self.query, t);
    }

    /// Whether there is a pattern that can be searched for.
    pub fn is_ready(&self) -> (r: bool)
        ensures
            r == self@.ready(),
    {
        match &self.pattern {
            Some(p) => p.is_ready(),
            None => false,
        }
    }

    /// The query has changed, and this is what it compiled to.
    pub fn compiled(&mut self, pattern: Option<Pattern>)
        ensures
            final(self).pattern == pattern,
            final(self)@ == (SearchModel {
                pattern: opt_pattern(pattern),
                found: None,
                ..old(self)@
            }),
    {
        self.pattern = pattern;
        self.found = None;
    }

    /// The query has changed: compile it. An empty one is no pattern. Whether
    /// another one is, the regex compiler says.
    pub fn recompile(&mut self)
        ensures
            made_of(old(self)@.query, final(self)@.pattern),
            final(self)@ == (SearchModel {
                pattern: final(self)@.pattern,
                found: None,
                ..old(self)@
            }),
    {
        let pattern = if self.query.as_str().is_empty() {
            None
        } else {
            Some(pattern::compile(self.query.as_str()))
        };
        self.compiled(pattern);
    }
}

/// The selection goes down one item at a time, and stays among the items and
/// among the ten rows of the list.
pub proof fn law_selection_goes_down(p: PaletteModel)
    requires
        0 <= p.selected,
    ensures
        ({
            let n = command_palette::filtered(p.items, p.query).len();
            let s = next_selected(p);
            &&& p.selected + 1 < n && p.selected < 9 ==> s == p.selected + 1
            &&& p.selected + 1 >= n && n > 0 ==> s <= n - 1
            &&& s <= 9
            &&& n > 0 ==> 0 <= s < n
            &&& n == 0 ==> s == 0
        }),
{
}

/// What is run is what is shown at the selection: the item that the query left
/// there.
pub proof fn law_selected_item_is_run(p: PaletteModel, k: int)
    requires
        0 <= p.selected,
    ensures
        ({
            let f = command_palette::filtered(p.items, p.query);
            &&& p.selected < f.len() ==> chosen_action(p) == Some(
                p.items[f[p.selected] as int].action,
            )
            &&& p.selected >= f.len() ==> chosen_action(p) is None
        }),
{
}

/// Typing a label in full, in either case, picks its text; typing the start of
/// one waits for more; anything else is a miss, and characters that no label has
/// change nothing.
pub proof fn law_typed_label_is_picked(
    before: HintsModel,
    c: char,
    step: HintStep,
    after: HintsModel,
    k: int,
    low: char,
)
    requires
        hint_stepped(before, c, step, after),
        0 <= k < before.matches.len(),
        'a' <= low <= 'z',
        c == low || c as u32 == low as u32 - 32,
        forall|i: int, j: int|
            0 <= i < j < before.matches.len() ==> (#[trigger] before.matches[i]).label@ != (
            #[trigger] before.matches[j]).label@,
    ensures
        after.typed == before.typed.push(low),
        after.matches == before.matches,
        before.matches[k].label@ == before.typed.push(low) ==> (step matches HintStep::Picked(s)
            && s@ == before.matches[k].text@),
        step matches HintStep::Picked(s) ==> exists|i: int|
            0 <= i < before.matches.len() && (#[trigger] before.matches[i]).label@
                == before.typed.push(low) && before.matches[i].text@ == s@,
        step is More ==> exists|i: int|
            0 <= i < before.matches.len() && text::stands_at(
                (#[trigger] before.matches[i]).label@,
                before.typed.push(low),
                0,
            ),
        step is Missed ==> !text::stands_at(
            before.matches[k].label@,
            before.typed.push(low),
            0,
        ),
{
    let typed = before.typed.push(low);
    assert(text::ascii_lower(c) == low);
    lemma_picked(before.matches, typed, 0);
    if some_lead(before.matches, typed) {
        let i = choose|i: int|
            0 <= i < before.matches.len() && leads_on(#[trigger] before.matches[i], typed);
        assert(text::stands_at(before.matches[i].label@, typed, 0));
    } else {
        assert(!leads_on(before.matches[k], typed));
    }
    if before.matches[k].label@ == typed {
        if let Some(t) = picked_from(before.matches, typed, 0) {
            let i = choose|i: int|
                0 <= i < before.matches.len() && (#[trigger] before.matches[i]).label@ == typed
                    && before.matches[i].text@ == t;
            assert(i == k);
        }
    }
}

proof fn lemma_picked(m: Seq<HintMatch>, typed: Seq<char>, i: int)
    requires
        0 <= i,
    ensures
        match picked_from(m, typed, i) {
            Some(t) => exists|j: int|
                i <= j < m.len() && (#[trigger] m[j]).label@ == typed && m[j].text@ == t,
            None => forall|j: int| i <= j < m.len() ==> (#[trigger] m[j]).label@ != typed,
        },
    decreases m.len() - i,
{
    if i < m.len() && m[i].label@ != typed {
        lemma_picked(m, typed, i + 1);
    }
}

} // verus!
