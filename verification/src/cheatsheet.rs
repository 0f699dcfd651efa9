//! Keyboard-shortcut overlay: every built-in binding, grouped, and which of
//! them the settings have released to the shell.
use vstd::prelude::*;
use vstd::slice::*;
use crate::text;

verus! {

pub struct Entry {
    pub keys: &'static str,
    pub action: &'static str,
}

pub struct Section {
    pub title: &'static str,
    pub entries: Vec<Entry>,
}

/// Rows of the overlay: keys and what they do.
pub open spec fn rows(v: Seq<Entry>) -> Seq<(Seq<char>, Seq<char>)> {
    v.map_values(|e: Entry| (e.keys@, e.action@))
}

pub fn e(keys: &'static str, action: &'static str) -> (r: Entry)
    ensures
        r.keys@ == keys@,
        r.action@ == action@,
{
    Entry { keys, action }
}

fn add_row(v: &mut Vec<Entry>, keys: &'static str, action: &'static str)
    ensures
        rows(final(v)@) == rows(old(v)@).push((keys@, action@)),
{
    let ghost before = rows(v@);
    v.push(e(keys, action));
    assert(rows(v@) =~= before.push((keys@, action@)));
}

pub open spec fn tabs_rows() -> Seq<(Seq<char>, Seq<char>)> {
    seq![
        ("Alt+T / Ctrl+Shift+T"@, "new tab (same profile)"@),
        ("Alt+Shift+T"@, "new tab, pick profile"@),
        ("Ctrl+Shift+1\u{2026}9"@, "new tab with profile N"@),
        ("Alt+1\u{2026}9"@, "go to tab N (9 = last)"@),
        ("Ctrl+1\u{2026}9"@, "go to tab N (9 = last)"@),
        ("Alt+Shift+] / Ctrl+Tab"@, "next tab"@),
        ("Alt+Shift+[ / Ctrl+Shift+Tab"@, "previous tab"@),
        ("Ctrl+Shift+PgUp/PgDn"@, "reorder tab"@),
        ("Ctrl+Shift+M"@, "detach tab into new window"@),
    ]
}

pub fn tabs() -> (s: Section)
    ensures
        s.title@ == "Tabs"@,
        rows(s.entries@) == tabs_rows(),
{
    let mut v: Vec<Entry> = Vec::new();
    add_row(&mut v, "Alt+T / Ctrl+Shift+T", "new tab (same profile)");
    add_row(&mut v, "Alt+Shift+T", "new tab, pick profile");
    add_row(&mut v, "Ctrl+Shift+1\u{2026}9", "new tab with profile N");
    add_row(&mut v, "Alt+1\u{2026}9", "go to tab N (9 = last)");
    add_row(&mut v, "Ctrl+1\u{2026}9", "go to tab N (9 = last)");
    add_row(&mut v, "Alt+Shift+] / Ctrl+Tab", "next tab");
    add_row(&mut v, "Alt+Shift+[ / Ctrl+Shift+Tab", "previous tab");
    add_row(&mut v, "Ctrl+Shift+PgUp/PgDn", "reorder tab");
    add_row(&mut v, "Ctrl+Shift+M", "detach tab into new window");
    assert(rows(v@) =~= tabs_rows());
    Section { title: "Tabs", entries: v }
}

pub open spec fn panes_rows() -> Seq<(Seq<char>, Seq<char>)> {
    seq![
        ("Alt+D / Ctrl+Shift+D"@, "split right (same profile)"@),
        ("Alt+Shift+D / Ctrl+Shift+E"@, "split down"@),
        ("Ctrl+Shift+B"@, "split with browser pane"@),
        ("Alt+W / Ctrl+Shift+W"@, "close pane"@),
        ("Alt+[ / Alt+]"@, "previous / next pane"@),
        ("Alt+\u{2190}\u{2191}\u{2193}\u{2192} / Ctrl+Alt+\u{2190}\u{2191}\u{2193}\u{2192}"@, "focus pane in direction"@),
        ("Ctrl+Shift+Enter"@, "zoom pane (toggle)"@),
    ]
}

pub fn panes() -> (s: Section)
    ensures
        s.title@ == "Panes"@,
        rows(s.entries@) == panes_rows(),
{
    let mut v: Vec<Entry> = Vec::new();
    add_row(&mut v, "Alt+D / Ctrl+Shift+D", "split right (same profile)");
    add_row(&mut v, "Alt+Shift+D / Ctrl+Shift+E", "split down");
    add_row(&mut v, "Ctrl+Shift+B", "split with browser pane");
    add_row(&mut v, "Alt+W / Ctrl+Shift+W", "close pane");
    add_row(&mut v, "Alt+[ / Alt+]", "previous / next pane");
    add_row(&mut v, "Alt+\u{2190}\u{2191}\u{2193}\u{2192} / Ctrl+Alt+\u{2190}\u{2191}\u{2193}\u{2192}", "focus pane in direction");
    add_row(&mut v, "Ctrl+Shift+Enter", "zoom pane (toggle)");
    assert(rows(v@) =~= panes_rows());
    Section { title: "Panes", entries: v }
}

pub open spec fn terminal_rows() -> Seq<(Seq<char>, Seq<char>)> {
    seq![
        ("Ctrl+Shift+C / Ctrl+Insert"@, "copy (select copies too)"@),
        ("Ctrl+Shift+V / Shift+Insert"@, "paste (right/middle-click too)"@),
        ("Ctrl+Shift+F"@, "search scrollback"@),
        ("Ctrl+Shift+P"@, "command palette"@),
        ("Ctrl+Shift+\u{2191}/\u{2193}"@, "previous / next prompt"@),
        ("Ctrl+Shift+Space"@, "quick select (hints)"@),
        ("Ctrl+Click"@, "open URL under cursor"@),
        ("2x / 3x click"@, "select word, link / line"@),
        ("Shift+Click"@, "extend selection"@),
        ("Shift+PgUp/PgDn"@, "scrollback paging"@),
        ("Ctrl+= / - / 0"@, "font bigger / smaller / reset"@),
        ("Shift+Enter"@, "newline without submitting"@),
    ]
}

pub fn terminal() -> (s: Section)
    ensures
        s.title@ == "Terminal"@,
        rows(s.entries@) == terminal_rows(),
{
    let mut v: Vec<Entry> = Vec::new();
    add_row(&mut v, "Ctrl+Shift+C / Ctrl+Insert", "copy (select copies too)");
    add_row(&mut v, "Ctrl+Shift+V / Shift+Insert", "paste (right/middle-click too)");
    add_row(&mut v, "Ctrl+Shift+F", "search scrollback");
    add_row(&mut v, "Ctrl+Shift+P", "command palette");
    add_row(&mut v, "Ctrl+Shift+\u{2191}/\u{2193}", "previous / next prompt");
    add_row(&mut v, "Ctrl+Shift+Space", "quick select (hints)");
    add_row(&mut v, "Ctrl+Click", "open URL under cursor");
    add_row(&mut v, "2x / 3x click", "select word, link / line");
    add_row(&mut v, "Shift+Click", "extend selection");
    add_row(&mut v, "Shift+PgUp/PgDn", "scrollback paging");
    add_row(&mut v, "Ctrl+= / - / 0", "font bigger / smaller / reset");
    add_row(&mut v, "Shift+Enter", "newline without submitting");
    assert(rows(v@) =~= terminal_rows());
    Section { title: "Terminal", entries: v }
}

pub open spec fn window_rows() -> Seq<(Seq<char>, Seq<char>)> {
    seq![
        ("Alt+N / Ctrl+Shift+N"@, "new window"@),
        ("Ctrl+`"@, "quake mode (global)"@),
        ("Ctrl+,"@, "open settings.json"@),
        ("Ctrl+Shift+S"@, "next theme"@),
        ("Ctrl+L"@, "URL bar (browser pane)"@),
        ("F12"@, "DevTools (browser pane)"@),
        ("Ctrl+Shift+/"@, "this overlay"@),
    ]
}

pub fn window() -> (s: Section)
    ensures
        s.title@ == "Window & app"@,
        rows(s.entries@) == window_rows(),
{
    let mut v: Vec<Entry> = Vec::new();
    add_row(&mut v, "Alt+N / Ctrl+Shift+N", "new window");
    add_row(&mut v, "Ctrl+`", "quake mode (global)");
    add_row(&mut v, "Ctrl+,", "open settings.json");
    add_row(&mut v, "Ctrl+Shift+S", "next theme");
    add_row(&mut v, "Ctrl+L", "URL bar (browser pane)");
    add_row(&mut v, "F12", "DevTools (browser pane)");
    add_row(&mut v, "Ctrl+Shift+/", "this overlay");
    assert(rows(v@) =~= window_rows());
    Section { title: "Window & app", entries: v }
}

/// The sections of the overlay, in two columns.
pub fn columns() -> (r: (Vec<Section>, Vec<Section>))
    ensures
        r.0@.len() == 2,
        rows(r.0@[0].entries@) == tabs_rows(),
        rows(r.0@[1].entries@) == panes_rows(),
        r.0@[0].title@ == "Tabs"@,
        r.0@[1].title@ == "Panes"@,
        r.1@.len() == 2,
        rows(r.1@[0].entries@) == terminal_rows(),
        rows(r.1@[1].entries@) == window_rows(),
        r.1@[0].title@ == "Terminal"@,
        r.1@[1].title@ == "Window & app"@,
{
    let mut left: Vec<Section> = Vec::new();
    left.push(tabs());
    left.push(panes());
    let mut right: Vec<Section> = Vec::new();
    right.push(terminal());
    right.push(window());
    (left, right)
}

/// Whether a list of chords, without their `alt+`, has one of them, without
/// regard to case and to white space around it.
pub open spec fn listed(passthrough: Seq<String>, chord: Seq<char>) -> bool {
    exists|i: int|
        0 <= i < passthrough.len() && text::lowered(
            text::trimmed((#[trigger] passthrough[i])@),
        ) == text::lowered(chord)
}

/// Whether an Alt binding has been released to the shell in full. A row that
/// also names a chord without Alt stays bound; one that names two Alt chords
/// is released with both.
pub open spec fn is_released(chord: Seq<char>, passthrough: Seq<String>) -> bool {
    let k = text::lowered(chord);
    if !text::stands_at(k, "alt+"@, 0) {
        false
    } else {
        let rest = k.skip(4);
        match text::find(rest, " / "@) {
            Some(i) => {
                let second = rest.skip(i + 3);
                text::stands_at(second, "alt+"@, 0) && listed(passthrough, rest.take(i)) && listed(
                    passthrough,
                    second.skip(4),
                )
            },
            None => listed(passthrough, rest),
        }
    }
}

fn lists(passthrough: &[String], chord: &[char]) -> (r: bool)
    ensures
        r == listed(passthrough@, chord@),
{
    let want = text::to_lower_all(chord);
    let mut i: usize = 0;
    while i < passthrough.len()
        invariant
            i <= passthrough@.len(),
            want@ == text::lowered(chord@),
            forall|j: int|
                0 <= j < i ==> text::lowered(text::trimmed((#[trigger] passthrough@[j])@)) != want@,
        decreases passthrough@.len() - i,
    {
        let all = text::chars_of(passthrough[i].as_str());
        let have = text::to_lower_all(text::trim(all.as_slice()));
        if text::same_chars(have.as_slice(), want.as_slice()) {
            return true;
        }
        i += 1;
    }
    false
}

/// True when `chord` is an Alt binding that is fully released to the shell, so
/// that the overlay should hide its row. Alias rows ("Alt+T / Ctrl+Shift+T")
/// stay, as the other chord still works; pair rows ("Alt+[ / Alt+]") hide only
/// when both halves are released.
pub fn released(chord: &str, passthrough: &[String]) -> (r: bool)
    ensures
        r == is_released(chord@, passthrough@),
{
    proof {
        reveal_strlit("alt+");
        reveal_strlit(" / ");
    }
    let k = text::to_lower_all(text::chars_of(chord).as_slice());
    let n: usize = k.len();
    if !text::begins(k.as_slice(), "alt+") {
        return false;
    }
    let rest = slice_subrange(k.as_slice(), 4, n);
    assert(rest@ =~= k@.skip(4));
    match text::find_chars(rest, text::chars_of(" / ").as_slice()) {
        Some(i) => {
            let first = slice_subrange(rest, 0, i);
            let second = slice_subrange(rest, i + 3, n - 4);
            assert(first@ =~= rest@.take(i as int));
            assert(second@ =~= rest@.skip(i + 3));
            if !text::begins(second, "alt+") {
                return false;
            }
            let tail = slice_subrange(second, 4, second.len());
            assert(tail@ =~= second@.skip(4));
            lists(passthrough, first) && lists(passthrough, tail)
        },
        None => lists(passthrough, rest),
    }
}

/// A binding without Alt is never released.
pub proof fn law_only_alt_is_released(chord: Seq<char>, passthrough: Seq<String>)
    requires
        !text::stands_at(text::lowered(chord), "alt+"@, 0),
    ensures
        !is_released(chord, passthrough),
{
}

/// An Alt chord is released just where it is listed without its Alt, in whatever
/// case and with whatever white space around it.
pub proof fn law_listed_chord_is_released(
    key: Seq<char>,
    a: Seq<char>,
    b: Seq<char>,
    passthrough: Seq<String>,
    i: int,
)
    requires
        key.len() > 0,
        !text::is_space(key[0]),
        !text::is_space(key.last()),
        !text::holds(text::lowered(key), " / "@),
        forall|j: int| 0 <= j < a.len() ==> text::is_space(#[trigger] a[j]),
        forall|j: int| 0 <= j < b.len() ==> text::is_space(#[trigger] b[j]),
        0 <= i < passthrough.len(),
    ensures
        passthrough[i]@ == a + key + b ==> is_released("Alt+"@ + key, passthrough),
        (forall|j: int|
            0 <= j < passthrough.len() ==> text::lowered(
                text::trimmed((#[trigger] passthrough[j])@),
            ) != text::lowered(key)) ==> !is_released("Alt+"@ + key, passthrough),
{
    reveal_strlit("Alt+");
    reveal_strlit("alt+");
    text::law_trimmed(a, key, b);
    let k = text::lowered("Alt+"@ + key);
    assert(k.subrange(0, 4) =~= "alt+"@);
    assert(k.skip(4) =~= text::lowered(key));
    assert(text::lowered(text::lowered(key)) =~= text::lowered(key));
}

} // verus!
