//! Command palette: every action, fuzzy-filterable. Data and filtering.
use vstd::prelude::*;
use crate::config::Profile;
use crate::pane_tree::Dir;
use crate::text;

verus! {

#[derive(Clone, PartialEq, Debug)]
pub enum PaletteAction {
    Theme(String),
    ThemeNext,
    NewTabProfile(usize),
    Split(Dir),
    BrowserSplit,
    ClosePane,
    Zoom,
    DetachTab,
    PaneToNewTab,
    NewWindow,
    FontBigger,
    FontSmaller,
    FontReset,
    Search,
    MoveTabLeft,
    MoveTabRight,
    PromptPrev,
    PromptNext,
    Hints,
    OpenSettings,
    OpenInitLua,
}

pub struct Item {
    pub label: String,
    pub hint: &'static str,
    pub action: PaletteAction,
}

/// The key that opens a tab with the profile `i`.
pub open spec fn profile_hint(i: int) -> Seq<char> {
    if i < 9 {
        "Ctrl+Shift+"@.push((0x31 + i) as char)
    } else {
        ""@
    }
}

fn profile_key(i: usize) -> (r: &'static str)
    ensures
        r@ == profile_hint(i as int),
{
    proof {
        reveal_strlit("Ctrl+Shift+");
        reveal_strlit("Ctrl+Shift+1");
        reveal_strlit("Ctrl+Shift+2");
        reveal_strlit("Ctrl+Shift+3");
        reveal_strlit("Ctrl+Shift+4");
        reveal_strlit("Ctrl+Shift+5");
        reveal_strlit("Ctrl+Shift+6");
        reveal_strlit("Ctrl+Shift+7");
        reveal_strlit("Ctrl+Shift+8");
        reveal_strlit("Ctrl+Shift+9");
    }
    let r = if i == 0 {
        "Ctrl+Shift+1"
    } else if i == 1 {
        "Ctrl+Shift+2"
    } else if i == 2 {
        "Ctrl+Shift+3"
    } else if i == 3 {
        "Ctrl+Shift+4"
    } else if i == 4 {
        "Ctrl+Shift+5"
    } else if i == 5 {
        "Ctrl+Shift+6"
    } else if i == 6 {
        "Ctrl+Shift+7"
    } else if i == 7 {
        "Ctrl+Shift+8"
    } else if i == 8 {
        "Ctrl+Shift+9"
    } else {
        ""
    };
    assert(r@ =~= profile_hint(i as int));
    r
}

/// The fixed entries of the palette: label, key and action.
pub open spec fn fixed_items() -> Seq<(Seq<char>, Seq<char>, PaletteAction)> {
    seq![
        ("Split Right"@, "Ctrl+Shift+D"@, PaletteAction::Split(Dir::Row)),
        ("Split Down"@, "Ctrl+Shift+E"@, PaletteAction::Split(Dir::Col)),
        ("Split: Browser Pane"@, "Ctrl+Shift+B"@, PaletteAction::BrowserSplit),
        ("Close Pane"@, "Ctrl+Shift+W"@, PaletteAction::ClosePane),
        ("Zoom Pane (toggle)"@, "Ctrl+Shift+Enter"@, PaletteAction::Zoom),
        ("Detach Tab to New Window"@, "Ctrl+Shift+M"@, PaletteAction::DetachTab),
        ("Move Pane to New Tab"@, ""@, PaletteAction::PaneToNewTab),
        ("New Window"@, "Ctrl+Shift+N"@, PaletteAction::NewWindow),
        ("Font: Bigger"@, "Ctrl+="@, PaletteAction::FontBigger),
        ("Font: Smaller"@, "Ctrl+-"@, PaletteAction::FontSmaller),
        ("Font: Reset"@, "Ctrl+0"@, PaletteAction::FontReset),
        ("Search Scrollback"@, "Ctrl+Shift+F"@, PaletteAction::Search),
        ("Move Tab Left"@, "Ctrl+Shift+PgUp"@, PaletteAction::MoveTabLeft),
        ("Move Tab Right"@, "Ctrl+Shift+PgDn"@, PaletteAction::MoveTabRight),
        ("Jump to Previous Prompt"@, "Ctrl+Shift+Up"@, PaletteAction::PromptPrev),
        ("Jump to Next Prompt"@, "Ctrl+Shift+Down"@, PaletteAction::PromptNext),
        ("Quick Select (hints)"@, "Ctrl+Shift+Space"@, PaletteAction::Hints),
        ("Settings: Open settings.json"@, "Ctrl+,"@, PaletteAction::OpenSettings),
        ("Settings: Open init.lua (Lua scripting)"@, ""@, PaletteAction::OpenInitLua),
        ("Theme: Next"@, "Ctrl+Shift+S"@, PaletteAction::ThemeNext),
    ]
}

pub open spec fn entry(i: Item) -> (Seq<char>, Seq<char>, PaletteAction) {
    (i.label@, i.hint@, i.action)
}

pub open spec fn entries(v: Seq<Item>) -> Seq<(Seq<char>, Seq<char>, PaletteAction)> {
    v.map_values(|i: Item| entry(i))
}

fn add_item(v: &mut Vec<Item>, label: &str, hint: &'static str, action: PaletteAction)
    ensures
        entries(final(v)@) == entries(old(v)@).push((label@, hint@, action)),
        final(v)@.len() == old(v)@.len() + 1,
{
    let ghost before = entries(v@);
    v.push(Item { label: text::owned(label), hint, action });
    assert(entries(v@) =~= before.push((label@, hint@, action)));
}

fn fixed() -> (v: Vec<Item>)
    ensures
        entries(v@) == fixed_items(),
        v@.len() == 20,
{
    let mut v: Vec<Item> = Vec::new();
    add_item(&mut v, "Split Right", "Ctrl+Shift+D", PaletteAction::Split(Dir::Row));
    add_item(&mut v, "Split Down", "Ctrl+Shift+E", PaletteAction::Split(Dir::Col));
    add_item(&mut v, "Split: Browser Pane", "Ctrl+Shift+B", PaletteAction::BrowserSplit);
    add_item(&mut v, "Close Pane", "Ctrl+Shift+W", PaletteAction::ClosePane);
    add_item(&mut v, "Zoom Pane (toggle)", "Ctrl+Shift+Enter", PaletteAction::Zoom);
    add_item(&mut v, "Detach Tab to New Window", "Ctrl+Shift+M", PaletteAction::DetachTab);
    add_item(&mut v, "Move Pane to New Tab", "", PaletteAction::PaneToNewTab);
    add_item(&mut v, "New Window", "Ctrl+Shift+N", PaletteAction::NewWindow);
    add_item(&mut v, "Font: Bigger", "Ctrl+=", PaletteAction::FontBigger);
    add_item(&mut v, "Font: Smaller", "Ctrl+-", PaletteAction::FontSmaller);
    add_item(&mut v, "Font: Reset", "Ctrl+0", PaletteAction::FontReset);
    add_item(&mut v, "Search Scrollback", "Ctrl+Shift+F", PaletteAction::Search);
    add_item(&mut v, "Move Tab Left", "Ctrl+Shift+PgUp", PaletteAction::MoveTabLeft);
    add_item(&mut v, "Move Tab Right", "Ctrl+Shift+PgDn", PaletteAction::MoveTabRight);
    add_item(&mut v, "Jump to Previous Prompt", "Ctrl+Shift+Up", PaletteAction::PromptPrev);
    add_item(&mut v, "Jump to Next Prompt", "Ctrl+Shift+Down", PaletteAction::PromptNext);
    add_item(&mut v, "Quick Select (hints)", "Ctrl+Shift+Space", PaletteAction::Hints);
    add_item(&mut v, "Settings: Open settings.json", "Ctrl+,", PaletteAction::OpenSettings);
    add_item(&mut v, "Settings: Open init.lua (Lua scripting)", "", PaletteAction::OpenInitLua);
    add_item(&mut v, "Theme: Next", "Ctrl+Shift+S", PaletteAction::ThemeNext);
    assert(entries(v@) =~= fixed_items());
    v
}

/// Every action: a tab for each profile, the fixed actions, each theme.
pub fn items(profiles: &[Profile], themes: &[String]) -> (v: Vec<Item>)
    ensures
        v@.len() == profiles@.len() + 20 + themes@.len(),
        forall|i: int|
            0 <= i < profiles@.len() ==> entry(#[trigger] v@[i]) == (
                "New Tab: "@ + profiles@[i].name@,
                profile_hint(i),
                PaletteAction::NewTabProfile(i as usize),
            ),
        forall|i: int|
            0 <= i < 20 ==> entry(v@[profiles@.len() + i]) == #[trigger] fixed_items()[i],
        forall|i: int|
            0 <= i < themes@.len() ==> entry(v@[profiles@.len() + 20 + i]) == (
                "Theme: "@ + (#[trigger] themes@[i])@,
                ""@,
                PaletteAction::Theme(themes@[i]),
            ),
{
    let mut v: Vec<Item> = Vec::new();
    let mut i: usize = 0;
    while i < profiles.len()
        invariant
            i <= profiles@.len(),
            v@.len() == i,
            forall|j: int|
                0 <= j < i ==> entry(#[trigger] v@[j]) == (
                    "New Tab: "@ + profiles@[j].name@,
                    profile_hint(j),
                    PaletteAction::NewTabProfile(j as usize),
                ),
        decreases profiles@.len() - i,
    {
        let mut label = text::owned("New Tab: ");
        text::push_text(&mut label, profiles[i].name.as_str());
        v.push(Item { label, hint: profile_key(i), action: PaletteAction::NewTabProfile(i) });
        i += 1;
    }
    let ghost first = v@;
    let mut rest = fixed();
    let ghost middle = rest@;
    v.append(&mut rest);
    assert(v@ =~= first + middle);
    assert forall|j: int| 0 <= j < 20 implies entry(v@[profiles@.len() + j])
        == #[trigger] fixed_items()[j] by {
        assert(entries(middle)[j] == entry(middle[j]));
    }
    let ghost base = v@;
    let mut k: usize = 0;
    while k < themes.len()
        invariant
            k <= themes@.len(),
            base.len() == profiles@.len() + 20,
            v@.len() == base.len() + k,
            forall|j: int| 0 <= j < base.len() ==> #[trigger] v@[j] == base[j],
            forall|j: int|
                0 <= j < k ==> entry(v@[profiles@.len() + 20 + j]) == (
                    "Theme: "@ + (#[trigger] themes@[j])@,
                    ""@,
                    PaletteAction::Theme(themes@[j]),
                ),
        decreases themes@.len() - k,
    {
        let mut label = text::owned("Theme: ");
        text::push_text(&mut label, themes[k].as_str());
        let ghost before = v@;
        v.push(Item { label, hint: "", action: PaletteAction::Theme(themes[k].clone()) });
        assert forall|j: int| 0 <= j < k + 1 implies entry(v@[profiles@.len() + 20 + j]) == (
            "Theme: "@ + (#[trigger] themes@[j])@,
            ""@,
            PaletteAction::Theme(themes@[j]),
        ) by {
            if j < k {
                assert(v@[profiles@.len() + 20 + j] == before[profiles@.len() + 20 + j]);
            }
        }
        k += 1;
    }
    assert forall|j: int| 0 <= j < 20 implies entry(v@[profiles@.len() + j])
        == #[trigger] fixed_items()[j] by {
        assert(v@[profiles@.len() + j] == base[profiles@.len() + j]);
    }
    v
}

/// What `str::to_lowercase` makes of text.
pub uninterp spec fn lower_text(s: Seq<char>) -> Seq<char>;

/// `str::to_lowercase`. On text of ASCII alone it changes the capital letters
/// and nothing else.
#[verifier::external_body]
fn lower_case(s: &str) -> (r: String)
    ensures
        r@ == lower_text(s@),
        vstd::utf8::is_ascii_chars(s@) ==> r@ == text::lowered(s@),
{
    s.to_lowercase()
}

/// Text in lower case; on ASCII alone, the capital letters change and nothing
/// else.
pub open spec fn in_lower_case(s: Seq<char>) -> Seq<char> {
    if vstd::utf8::is_ascii_chars(s) {
        text::lowered(s)
    } else {
        lower_text(s)
    }
}

/// Index of the character of `label` that the character `k` of `query` falls
/// on when each takes the first place after the one before it; the length
/// where there is none.
pub open spec fn place(label: Seq<char>, query: Seq<char>, k: int) -> int
    decreases k + 1,
{
    if k < 0 {
        -1
    } else {
        let from = place(label, query, k - 1) + 1;
        if from >= label.len() {
            label.len() as int
        } else {
            from + text::char_pos(label.skip(from), query[k])
        }
    }
}

/// How well `query` fits into `label`, both in lower case: None where it is no
/// subsequence, else lower for a match that is compact and early.
pub open spec fn fit(label: Seq<char>, query: Seq<char>) -> Option<int> {
    if query.len() == 0 {
        Some(0int)
    } else {
        let first = place(label, query, 0);
        let last = place(label, query, query.len() - 1);
        if last < label.len() {
            Some((last - first) * 4 + first)
        } else {
            None
        }
    }
}

proof fn lemma_place(label: Seq<char>, query: Seq<char>, k: int, m: int)
    requires
        0 <= k <= m,
    ensures
        0 <= place(label, query, k) <= label.len(),
        place(label, query, k) <= place(label, query, m) <= label.len(),
        place(label, query, k) < label.len() && k < m ==> place(label, query, k) < place(
            label,
            query,
            m,
        ),
        place(label, query, k) >= label.len() ==> place(label, query, m) >= label.len(),
    decreases m,
{
    lemma_place_range(label, query, k);
    lemma_place_range(label, query, m);
    if k < m {
        lemma_place(label, query, k, m - 1);
        let from = place(label, query, m - 1) + 1;
        if from < label.len() {
            lemma_char_pos_range(label.skip(from), query[m]);
        }
    }
}

proof fn lemma_place_range(label: Seq<char>, query: Seq<char>, k: int)
    ensures
        -1 <= place(label, query, k) <= label.len(),
        k >= 0 ==> 0 <= place(label, query, k),
    decreases k + 1,
{
    if k >= 0 {
        lemma_place_range(label, query, k - 1);
        let from = place(label, query, k - 1) + 1;
        if from < label.len() {
            lemma_char_pos_range(label.skip(from), query[k]);
        }
    }
}

proof fn lemma_char_pos_range(s: Seq<char>, c: char)
    ensures
        0 <= text::char_pos(s, c) <= s.len(),
    decreases s.len(),
{
    if s.len() > 0 && s[0] != c {
        lemma_char_pos_range(s.drop_first(), c);
    }
}

/// `fit` of text in lower case.
pub fn fit_score(label: &[char], query: &[char]) -> (r: Option<u128>)
    ensures
        match r {
            Some(s) => fit(label@, query@) == Some(s as int),
            None => fit(label@, query@) is None,
        },
{
    if query.len() == 0 {
        return Some(0);
    }
    let n: usize = label.len();
    let mut first: usize = 0;
    let mut last: usize = 0;
    let mut from: usize = 0;
    let mut q: usize = 0;
    while q < query.len()
        invariant
            q <= query@.len(),
            n == label@.len(),
            from <= n,
            from == place(label@, query@, q - 1) + 1,
            q > 0 ==> last == place(label@, query@, q - 1) && last < n,
            q > 0 ==> first == place(label@, query@, 0) && first <= last,
        decreases query@.len() - q,
    {
        let rest = vstd::slice::slice_subrange(label, from, n);
        assert(rest@ =~= label@.skip(from as int));
        let p: usize = text::pos_of(rest, query[q]);
        proof {
            lemma_place(label@, query@, 0, q as int);
            lemma_place(label@, query@, q as int, query@.len() - 1);
            lemma_place_range(label@, query@, q as int);
        }
        if p >= rest.len() {
            return None;
        }
        last = from + p;
        if q == 0 {
            first = last;
        }
        from = last + 1;
        q += 1;
    }
    Some((last - first) as u128 * 4 + first as u128)
}

/// How well a query fits a label, without regard to case.
pub open spec fn match_score(label: Seq<char>, query: Seq<char>) -> Option<int> {
    if query.len() == 0 {
        Some(0int)
    } else {
        fit(in_lower_case(label), in_lower_case(query))
    }
}

/// Subsequence match without regard to case; a lower score is better.
pub fn score(label: &str, query: &str) -> (r: Option<u128>)
    ensures
        match r {
            Some(s) => match_score(label@, query@) == Some(s as int),
            None => match_score(label@, query@) is None,
        },
{
    if query.is_empty() {
        return Some(0);
    }
    let l = text::chars_of(lower_case(label).as_str());
    let q = text::chars_of(lower_case(query).as_str());
    fit_score(l.as_slice(), q.as_slice())
}

/// The scores of labels for a query.
pub open spec fn item_score(items: Seq<Item>, query: Seq<char>, i: int) -> Option<int> {
    match_score(items[i].label@, query)
}

/// Whether the item `i` goes before the item `j`: a better score, or the same
/// and an earlier place.
pub open spec fn ranked(items: Seq<Item>, query: Seq<char>, i: int, j: int) -> bool {
    let a = item_score(items, query, i)->0;
    let b = item_score(items, query, j)->0;
    a < b || (a == b && i < j)
}

/// Whether pairs of score and index go up.
pub open spec fn pairs_ranked(v: Seq<(u128, usize)>) -> bool {
    forall|k: int, l: int|
        0 <= k < l < v.len() ==> ((#[trigger] v[k]).0 < (#[trigger] v[l]).0 || (v[k].0 == v[l].0
            && v[k].1 < v[l].1))
}

/// Insert `(s, i)` behind everything that goes before it.
fn insert_ranked(v: &mut Vec<(u128, usize)>, s: u128, i: usize)
    requires
        forall|k: int| 0 <= k < old(v)@.len() ==> (#[trigger] old(v)@[k]).1 < i,
        pairs_ranked(old(v)@),
    ensures
        exists|at: int|
            0 <= at <= old(v)@.len() && final(v)@ == #[trigger] old(v)@.insert(at, (s, i)),
        pairs_ranked(final(v)@),
{
    let n: usize = v.len();
    let ghost v0 = v@;
    let mut at: usize = 0;
    while at < n && v[at].0 <= s
        invariant
            at <= n == v@.len(),
            v@ == v0,
            forall|k: int| 0 <= k < at ==> (#[trigger] v@[k]).0 <= s,
        decreases n - at,
    {
        at += 1;
    }
    v.insert(at, (s, i));
    assert(v@ == v0.insert(at as int, (s, i)));
    assert forall|k: int, l: int| 0 <= k < l < v@.len() implies ((#[trigger] v@[k]).0 < (
    #[trigger] v@[l]).0 || (v@[k].0 == v@[l].0 && v@[k].1 < v@[l].1)) by {
        let k0 = if k < at {
            k
        } else {
            k - 1
        };
        let l0 = if l < at {
            l
        } else {
            l - 1
        };
        if k == at {
            assert(v@[l] == v0[l0]);
            assert(v0[at as int].0 > s);
            assert(l0 >= at);
            if l0 > at {
                assert(v0[at as int].0 <= v0[l0].0);
            }
        } else if l == at {
            assert(v@[k] == v0[k0]);
        } else {
            assert(v@[k] == v0[k0]);
            assert(v@[l] == v0[l0]);
        }
    }
}

/// Whether `r` lists the items that a query keeps, best match first.
pub open spec fn is_filtered(items: Seq<Item>, query: Seq<char>, r: Seq<usize>) -> bool {
    &&& forall|i: int|
        0 <= i < items.len() ==> (item_score(items, query, i) is Some
            <==> #[trigger] r.contains(i as usize))
    &&& forall|k: int| 0 <= k < r.len() ==> #[trigger] r[k] < items.len()
    &&& forall|k: int, l: int|
        0 <= k < l < r.len() ==> ranked(
            items,
            query,
            #[trigger] r[k] as int,
            #[trigger] r[l] as int,
        )
}

/// The items that a query keeps, best match first.
pub open spec fn filtered(items: Seq<Item>, query: Seq<char>) -> Seq<usize> {
    choose|r: Seq<usize>| is_filtered(items, query, r)
}

/// There is only one such list.
pub proof fn lemma_filtered(items: Seq<Item>, query: Seq<char>, a: Seq<usize>)
    requires
        is_filtered(items, query, a),
        items.len() <= usize::MAX,
    ensures
        filtered(items, query) == a,
{
    let b = filtered(items, query);
    assert(is_filtered(items, query, b));
    lemma_filtered_prefix(items, query, a, b, a.len() as int);
    lemma_filtered_prefix(items, query, b, a, b.len() as int);
    assert(a =~= b);
}

/// Two such lists agree as far as the first goes.
proof fn lemma_filtered_prefix(
    items: Seq<Item>,
    query: Seq<char>,
    a: Seq<usize>,
    b: Seq<usize>,
    n: int,
)
    requires
        is_filtered(items, query, a),
        is_filtered(items, query, b),
        items.len() <= usize::MAX,
        0 <= n <= a.len(),
    ensures
        n <= b.len(),
        forall|k: int| 0 <= k < n ==> a[k] == b[k],
    decreases n,
{
    if n > 0 {
        lemma_filtered_prefix(items, query, a, b, n - 1);
        let x = a[n - 1];
        assert(a.contains(x as int as usize));
        assert(item_score(items, query, x as int) is Some);
        assert(b.contains(x as int as usize));
        let m = choose|m: int| 0 <= m < b.len() && b[m] == x;
        if m < n - 1 {
            assert(a[m] == x);
            assert(ranked(items, query, a[m] as int, a[n - 1] as int));
            assert(false);
        }
        if m > n - 1 {
            let y = b[n - 1];
            assert(b.contains(y as int as usize));
            assert(item_score(items, query, y as int) is Some);
            assert(a.contains(y as int as usize));
            let p = choose|p: int| 0 <= p < a.len() && a[p] == y;
            assert(ranked(items, query, b[n - 1] as int, b[m] as int));
            if p < n - 1 {
                assert(b[p] == y);
                assert(ranked(items, query, b[p] as int, b[n - 1] as int));
                assert(false);
            } else if p > n - 1 {
                assert(ranked(items, query, a[n - 1] as int, a[p] as int));
                assert(false);
            } else {
                assert(ranked(items, query, x as int, x as int));
                assert(false);
            }
        }
    }
}

/// Indices into `items`, best match first.
pub fn filter(items: &[Item], query: &str) -> (r: Vec<usize>)
    ensures
        is_filtered(items@, query@, r@),
{
    let mut v: Vec<(u128, usize)> = Vec::new();
    let mut i: usize = 0;
    while i < items.len()
        invariant
            i <= items@.len(),
            forall|k: int|
                0 <= k < v@.len() ==> (#[trigger] v@[k]).1 < i && item_score(
                    items@,
                    query@,
                    v@[k].1 as int,
                ) == Some(v@[k].0 as int),
            pairs_ranked(v@),
            forall|j: int|
                #![trigger item_score(items@, query@, j)]
                0 <= j < i && item_score(items@, query@, j) is Some ==> exists|k: int|
                    0 <= k < v@.len() && (#[trigger] v@[k]).1 == j,
        decreases items@.len() - i,
    {
        let ghost v0 = v@;
        match score(items[i].label.as_str(), query) {
            Some(s) => {
                insert_ranked(&mut v, s, i);
                proof {
                    let at = choose|at: int|
                        0 <= at <= v0.len() && v@ == #[trigger] v0.insert(at, (s, i));
                    assert forall|k: int| 0 <= k < v@.len() implies (#[trigger] v@[k]).1 < i + 1
                        && item_score(items@, query@, v@[k].1 as int) == Some(v@[k].0 as int) by {
                        if k < at {
                            assert(v@[k] == v0[k]);
                        } else if k > at {
                            assert(v@[k] == v0[k - 1]);
                        }
                    }
                    assert forall|j: int|
                        #![trigger item_score(items@, query@, j)]
                        0 <= j < i + 1 && item_score(items@, query@, j) is Some implies exists|
                        k: int,
                    | 0 <= k < v@.len() && (#[trigger] v@[k]).1 == j by {
                        if j == i {
                            assert(v@[at].1 == j);
                        } else {
                            let k = choose|k: int| 0 <= k < v0.len() && (#[trigger] v0[k]).1 == j;
                            if k < at {
                                assert(v@[k].1 == j);
                            } else {
                                assert(v@[k + 1].1 == j);
                            }
                        }
                    }
                }
            },
            None => {},
        }
        i += 1;
    }
    let mut r: Vec<usize> = Vec::new();
    let mut k: usize = 0;
    while k < v.len()
        invariant
            k <= v@.len(),
            r@.len() == k,
            forall|j: int| 0 <= j < k ==> #[trigger] r@[j] == v@[j].1,
        decreases v@.len() - k,
    {
        r.push(v[k].1);
        k += 1;
    }
    proof {
        assert forall|i: int| 0 <= i < items@.len() implies (item_score(items@, query@, i) is Some
            <==> #[trigger] r@.contains(i as usize)) by {
            if item_score(items@, query@, i) is Some {
                let k = choose|k: int| 0 <= k < v@.len() && (#[trigger] v@[k]).1 == i;
                assert(r@[k] == i as usize);
            }
            if r@.contains(i as usize) {
                let k = choose|k: int| 0 <= k < r@.len() && r@[k] == i as usize;
                assert(v@[k].1 == i);
            }
        }
    }
    r
}

/// Without a query every item stays, in its place.
pub proof fn law_empty_query(items: Seq<Item>, i: int, j: int)
    requires
        0 <= i < j < items.len(),
    ensures
        item_score(items, Seq::empty(), i) == Some(0int),
        ranked(items, Seq::empty(), i, j),
{
}

/// A label that the query fits has its characters in their order.
pub proof fn law_fit_is_subsequence(label: Seq<char>, query: Seq<char>, k: int)
    requires
        fit(label, query) is Some,
        0 <= k < query.len(),
    ensures
        0 <= place(label, query, k) < label.len(),
        label[place(label, query, k)] == query[k],
        k > 0 ==> place(label, query, k - 1) < place(label, query, k),
{
    lemma_place(label, query, k, query.len() - 1);
    let from = place(label, query, k - 1) + 1;
    lemma_place_range(label, query, k - 1);
    lemma_char_pos_hit(label.skip(from), query[k]);
    if k > 0 {
        lemma_place(label, query, k - 1, k);
    }
}

proof fn lemma_char_pos_hit(s: Seq<char>, c: char)
    ensures
        0 <= text::char_pos(s, c) <= s.len(),
        text::char_pos(s, c) < s.len() ==> s[text::char_pos(s, c)] == c,
    decreases s.len(),
{
    if s.len() > 0 && s[0] != c {
        lemma_char_pos_hit(s.drop_first(), c);
    }
}

proof fn lemma_place_prefix(label: Seq<char>, query: Seq<char>, c: char, k: int)
    requires
        k < query.len(),
    ensures
        place(label, query.push(c), k) == place(label, query, k),
    decreases k + 1,
{
    if k >= 0 {
        lemma_place_prefix(label, query, c, k - 1);
        assert(query.push(c)[k] == query[k]);
    }
}

/// Typing on only narrows the list: what a query of ASCII keeps with one more
/// character it kept before.
pub proof fn law_typing_narrows(
    items: Seq<Item>,
    query: Seq<char>,
    c: char,
    before: Seq<usize>,
    after: Seq<usize>,
)
    requires
        vstd::utf8::is_ascii_chars(query.push(c)),
        is_filtered(items, query, before),
        is_filtered(items, query.push(c), after),
        items.len() <= usize::MAX,
    ensures
        forall|k: int| 0 <= k < after.len() ==> before.contains(#[trigger] after[k]),
{
    let longer = query.push(c);
    assert(vstd::utf8::is_ascii_chars(query)) by {
        assert forall|i: int| 0 <= i < query.len() implies '\0' <= #[trigger] query[i] <= '\u{7f}' by {
            assert(longer[i] == query[i]);
        }
    }
    assert(text::lowered(longer) =~= text::lowered(query).push(text::ascii_lower(c)));
    assert forall|k: int| 0 <= k < after.len() implies before.contains(#[trigger] after[k]) by {
        let i = after[k] as int;
        assert(after.contains(i as usize));
        assert(item_score(items, longer, i) is Some);
        let label = in_lower_case(items[i].label@);
        let q = text::lowered(query);
        if query.len() > 0 {
            let n = q.len() as int;
            lemma_place_prefix(label, q, text::ascii_lower(c), n - 1);
            lemma_place(label, q.push(text::ascii_lower(c)), n - 1, n);
        }
        assert(item_score(items, query, i) is Some);
        assert(before.contains(i as usize));
    }
}

/// The case of a query of ASCII does not matter: the same items are kept, in
/// the same order.
pub proof fn law_case_does_not_matter(items: Seq<Item>, a: Seq<char>, b: Seq<char>, r: Seq<usize>)
    requires
        vstd::utf8::is_ascii_chars(a),
        vstd::utf8::is_ascii_chars(b),
        text::lowered(a) == text::lowered(b),
        is_filtered(items, a, r),
        items.len() <= usize::MAX,
    ensures
        is_filtered(items, b, r),
        filtered(items, b) == r,
{
    assert(a.len() == text::lowered(a).len() == text::lowered(b).len() == b.len());
    assert forall|i: int| #[trigger] item_score(items, b, i) == item_score(items, a, i) by {}
    assert forall|i: int| 0 <= i < items.len() implies (item_score(items, b, i) is Some
        <==> #[trigger] r.contains(i as usize)) by {
        assert(item_score(items, b, i) == item_score(items, a, i));
    }
    assert forall|k: int, l: int| 0 <= k < l < r.len() implies ranked(
        items,
        b,
        #[trigger] r[k] as int,
        #[trigger] r[l] as int,
    ) by {
        assert(ranked(items, a, r[k] as int, r[l] as int));
    }
    lemma_filtered(items, b, r);
}

/// A query fits every label that has its characters in their order, whatever
/// stands between them.
pub proof fn law_subsequence_fits(label: Seq<char>, query: Seq<char>, at: Seq<int>)
    requires
        query.len() > 0,
        at.len() == query.len(),
        forall|k: int| 0 <= k < at.len() ==> 0 <= #[trigger] at[k] < label.len(),
        forall|k: int| 0 <= k < at.len() ==> label[#[trigger] at[k]] == query[k],
        forall|k: int, l: int| 0 <= k < l < at.len() ==> #[trigger] at[k] < #[trigger] at[l],
    ensures
        fit(label, query) is Some,
        place(label, query, 0) <= at[0],
        place(label, query, query.len() - 1) <= at.last(),
{
    lemma_place_first(label, query, at, query.len() - 1);
    lemma_place_first(label, query, at, 0);
}

proof fn lemma_place_first(label: Seq<char>, query: Seq<char>, at: Seq<int>, k: int)
    requires
        at.len() == query.len(),
        forall|i: int| 0 <= i < at.len() ==> 0 <= #[trigger] at[i] < label.len(),
        forall|i: int| 0 <= i < at.len() ==> label[#[trigger] at[i]] == query[i],
        forall|i: int, l: int| 0 <= i < l < at.len() ==> #[trigger] at[i] < #[trigger] at[l],
        0 <= k < at.len(),
    ensures
        0 <= place(label, query, k) <= at[k],
    decreases k,
{
    if k > 0 {
        lemma_place_first(label, query, at, k - 1);
        assert(at[k - 1] < at[k]);
    }
    let from = place(label, query, k - 1) + 1;
    assert(k == 0 ==> place(label, query, k - 1) == -1);
    let rest = label.skip(from);
    assert(rest[at[k] - from] == query[k]);
    lemma_char_pos_before(rest, query[k], at[k] - from);
}

proof fn lemma_char_pos_before(s: Seq<char>, c: char, i: int)
    requires
        0 <= i < s.len(),
        s[i] == c,
    ensures
        0 <= text::char_pos(s, c) <= i,
    decreases i,
{
    if i > 0 && s[0] != c {
        lemma_char_pos_before(s.drop_first(), c, i - 1);
    }
}

/// A match is the better the closer together it is, and then the earlier it
/// starts: a gap costs four times what a later start does.
pub proof fn law_score_of_match(label: Seq<char>, query: Seq<char>)
    requires
        query.len() > 0,
        fit(label, query) is Some,
    ensures
        ({
            let first = place(label, query, 0);
            let last = place(label, query, query.len() - 1);
            &&& fit(label, query) == Some(5 * last - 4 * first - (last - first))
            &&& label[first] == query[0]
            &&& forall|j: int| 0 <= j < first ==> #[trigger] label[j] != query[0]
        }),
{
    law_fit_is_subsequence(label, query, 0);
    let first = place(label, query, 0);
    assert(place(label, query, -1) == -1);
    assert(label.skip(0) =~= label);
    lemma_char_pos_first(label, query[0]);
}

proof fn lemma_char_pos_first(s: Seq<char>, c: char)
    ensures
        0 <= text::char_pos(s, c) <= s.len(),
        forall|j: int| 0 <= j < text::char_pos(s, c) ==> #[trigger] s[j] != c,
    decreases s.len(),
{
    if s.len() > 0 && s[0] != c {
        lemma_char_pos_first(s.drop_first(), c);
        assert forall|j: int| 0 <= j < text::char_pos(s, c) implies #[trigger] s[j] != c by {
            if j > 0 {
                assert(s.drop_first()[j - 1] == s[j]);
            }
        }
    }
}

/// What the entries of the palette say is what they do.
pub proof fn law_entries_do_what_they_say()
    ensures
        fixed_items().contains(
            ("Split Right"@, "Ctrl+Shift+D"@, PaletteAction::Split(Dir::Row)),
        ),
        fixed_items().contains(("Split Down"@, "Ctrl+Shift+E"@, PaletteAction::Split(Dir::Col))),
        fixed_items().contains(
            ("Split: Browser Pane"@, "Ctrl+Shift+B"@, PaletteAction::BrowserSplit),
        ),
        fixed_items().contains(("Close Pane"@, "Ctrl+Shift+W"@, PaletteAction::ClosePane)),
        fixed_items().contains(("Zoom Pane (toggle)"@, "Ctrl+Shift+Enter"@, PaletteAction::Zoom)),
        fixed_items().contains(
            ("Detach Tab to New Window"@, "Ctrl+Shift+M"@, PaletteAction::DetachTab),
        ),
        fixed_items().contains(("Move Pane to New Tab"@, ""@, PaletteAction::PaneToNewTab)),
        fixed_items().contains(("New Window"@, "Ctrl+Shift+N"@, PaletteAction::NewWindow)),
        fixed_items().contains(("Font: Bigger"@, "Ctrl+="@, PaletteAction::FontBigger)),
        fixed_items().contains(("Font: Smaller"@, "Ctrl+-"@, PaletteAction::FontSmaller)),
        fixed_items().contains(("Font: Reset"@, "Ctrl+0"@, PaletteAction::FontReset)),
        fixed_items().contains(("Search Scrollback"@, "Ctrl+Shift+F"@, PaletteAction::Search)),
        fixed_items().contains(("Move Tab Left"@, "Ctrl+Shift+PgUp"@, PaletteAction::MoveTabLeft)),
        fixed_items().contains(
            ("Move Tab Right"@, "Ctrl+Shift+PgDn"@, PaletteAction::MoveTabRight),
        ),
        fixed_items().contains(
            ("Jump to Previous Prompt"@, "Ctrl+Shift+Up"@, PaletteAction::PromptPrev),
        ),
        fixed_items().contains(
            ("Jump to Next Prompt"@, "Ctrl+Shift+Down"@, PaletteAction::PromptNext),
        ),
        fixed_items().contains(
            ("Quick Select (hints)"@, "Ctrl+Shift+Space"@, PaletteAction::Hints),
        ),
        fixed_items().contains(("Theme: Next"@, "Ctrl+Shift+S"@, PaletteAction::ThemeNext)),
{
    let f = fixed_items();
    assert(f[0].2 == PaletteAction::Split(Dir::Row) && f[1].2 == PaletteAction::Split(Dir::Col));
    assert(f[2].2 == PaletteAction::BrowserSplit && f[3].2 == PaletteAction::ClosePane);
    assert(f[4].2 == PaletteAction::Zoom && f[5].2 == PaletteAction::DetachTab);
    assert(f[6].2 == PaletteAction::PaneToNewTab && f[7].2 == PaletteAction::NewWindow);
    assert(f[8].2 == PaletteAction::FontBigger && f[9].2 == PaletteAction::FontSmaller);
    assert(f[10].2 == PaletteAction::FontReset && f[11].2 == PaletteAction::Search);
    assert(f[12].2 == PaletteAction::MoveTabLeft && f[13].2 == PaletteAction::MoveTabRight);
    assert(f[14].2 == PaletteAction::PromptPrev && f[15].2 == PaletteAction::PromptNext);
    assert(f[16].2 == PaletteAction::Hints && f[19].2 == PaletteAction::ThemeNext);
}

/// The palette names the key of each of the first nine profiles, counted from
/// one.
pub proof fn law_profile_hint(i: int)
    requires
        0 <= i,
    ensures
        i < 9 ==> profile_hint(i) == "Ctrl+Shift+"@ + text::decimal((i + 1) as nat),
        i >= 9 ==> profile_hint(i) == ""@,
{
    if i < 9 {
        assert(text::decimal((i + 1) as nat) =~= seq![(0x31 + i) as char]);
        assert(profile_hint(i) =~= "Ctrl+Shift+"@ + text::decimal((i + 1) as nat));
    }
}

} // verus!
