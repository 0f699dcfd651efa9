//! What the start-up script may change: settings, profiles, key bindings and
//! the title hook. Running the script itself is outside.
use vstd::prelude::*;
use vstd::slice::*;
use crate::config::{find_profile, Config, Profile};
use crate::keys::Mods;
use crate::pane_tree::Dir;
use crate::text;

verus! {

/// What a key binding of the script asked the window to do.
#[derive(Clone, Debug, PartialEq)]
pub enum Action {
    NewTab(Option<String>),
    Split(Dir),
    Browse(String),
    /// Change of the font size, in thousandths of a point.
    FontDelta(i32),
    SendText(String),
}

#[derive(Clone, Copy, PartialEq, Eq, Debug, Structural)]
pub struct KeySpec {
    pub ctrl: bool,
    pub shift: bool,
    pub alt: bool,
    pub vk: u16,
}

/// A part of a key description, as it is compared: without white space around
/// it and in lower case.
pub open spec fn word(s: Seq<char>) -> Seq<char> {
    text::lowered(text::trimmed(s))
}

/// The modifiers that the first `n` parts name; None where one names none.
pub open spec fn spec_mods(parts: Seq<Seq<char>>, n: int) -> Option<KeySpec>
    decreases n,
{
    if n <= 0 {
        Some(KeySpec { ctrl: false, shift: false, alt: false, vk: 0 })
    } else {
        match spec_mods(parts, n - 1) {
            None => None,
            Some(k) => {
                let w = word(parts[n - 1]);
                if w == "ctrl"@ || w == "control"@ {
                    Some(KeySpec { ctrl: true, ..k })
                } else if w == "shift"@ {
                    Some(KeySpec { shift: true, ..k })
                } else if w == "alt"@ {
                    Some(KeySpec { alt: true, ..k })
                } else {
                    None
                }
            },
        }
    }
}

/// The key code of a named key.
pub open spec fn named_key(w: Seq<char>) -> Option<u16> {
    if w == "enter"@ || w == "return"@ {
        Some(0x0d)
    } else if w == "tab"@ {
        Some(0x09)
    } else if w == "space"@ {
        Some(0x20)
    } else if w == "escape"@ || w == "esc"@ {
        Some(0x1b)
    } else if w == "up"@ {
        Some(0x26)
    } else if w == "down"@ {
        Some(0x28)
    } else if w == "left"@ {
        Some(0x25)
    } else if w == "right"@ {
        Some(0x27)
    } else if w == "home"@ {
        Some(0x24)
    } else if w == "end"@ {
        Some(0x23)
    } else if w == "pgup"@ || w == "pageup"@ {
        Some(0x21)
    } else if w == "pgdn"@ || w == "pagedown"@ {
        Some(0x22)
    } else if w == "insert"@ {
        Some(0x2d)
    } else if w == "delete"@ {
        Some(0x2e)
    } else if w == "backspace"@ {
        Some(0x08)
    } else if w == "`"@ || w == "backtick"@ || w == "grave"@ {
        Some(0xc0)
    } else if w == "-"@ || w == "minus"@ {
        Some(0xbd)
    } else if w == "="@ || w == "plus"@ || w == "equals"@ {
        Some(0xbb)
    } else {
        None
    }
}

/// The key code of a key in lower case: a named key, a letter or digit, or a
/// function key from F1 to F24.
pub open spec fn key_code(w: Seq<char>) -> Option<u16> {
    if named_key(w) is Some {
        named_key(w)
    } else if w.len() == 1 && 'a' <= w[0] <= 'z' {
        Some((w[0] as u32 - 32) as u16)
    } else if w.len() == 1 && '0' <= w[0] <= '9' {
        Some(w[0] as u16)
    } else if w.len() > 0 && w[0] == 'f' {
        match text::digits_value(w.skip(1)) {
            Some(n) => if 1 <= n <= 24 {
                Some((0x6f + n) as u16)
            } else {
                None
            },
            None => None,
        }
    } else {
        None
    }
}

/// The key chord that a description such as `ctrl+shift+g` stands for.
pub open spec fn keyspec_of(s: Seq<char>) -> Option<KeySpec> {
    let parts = text::split(s, '+');
    let last = parts.len() - 1;
    match spec_mods(parts, last) {
        None => None,
        Some(k) => match key_code(word(parts[last])) {
            None => None,
            Some(vk) => Some(KeySpec { vk, ..k }),
        },
    }
}

fn word_of(s: &[char]) -> (r: Vec<char>)
    ensures
        r@ == word(s@),
{
    text::to_lower_all(text::trim(s))
}

fn is_word(w: &[char], t: &str) -> (r: bool)
    ensures
        r == (w@ == t@),
{
    text::same_chars(w, text::chars_of(t).as_slice())
}

fn named_vk(w: &[char]) -> (r: Option<u16>)
    ensures
        r == named_key(w@),
{
    if is_word(w, "enter") || is_word(w, "return") {
        Some(0x0d)
    } else if is_word(w, "tab") {
        Some(0x09)
    } else if is_word(w, "space") {
        Some(0x20)
    } else if is_word(w, "escape") || is_word(w, "esc") {
        Some(0x1b)
    } else if is_word(w, "up") {
        Some(0x26)
    } else if is_word(w, "down") {
        Some(0x28)
    } else if is_word(w, "left") {
        Some(0x25)
    } else if is_word(w, "right") {
        Some(0x27)
    } else if is_word(w, "home") {
        Some(0x24)
    } else if is_word(w, "end") {
        Some(0x23)
    } else if is_word(w, "pgup") || is_word(w, "pageup") {
        Some(0x21)
    } else if is_word(w, "pgdn") || is_word(w, "pagedown") {
        Some(0x22)
    } else if is_word(w, "insert") {
        Some(0x2d)
    } else if is_word(w, "delete") {
        Some(0x2e)
    } else if is_word(w, "backspace") {
        Some(0x08)
    } else if is_word(w, "`") || is_word(w, "backtick") || is_word(w, "grave") {
        Some(0xc0)
    } else if is_word(w, "-") || is_word(w, "minus") {
        Some(0xbd)
    } else if is_word(w, "=") || is_word(w, "plus") || is_word(w, "equals") {
        Some(0xbb)
    } else {
        None
    }
}

fn vk_of(w: &[char]) -> (r: Option<u16>)
    ensures
        r == key_code(w@),
{
    if let Some(vk) = named_vk(w) {
        return Some(vk);
    }
    let n: usize = w.len();
    if n == 1 && 'a' <= w[0] && w[0] <= 'z' {
        return Some((w[0] as u32 - 32) as u16);
    }
    if n == 1 && '0' <= w[0] && w[0] <= '9' {
        return Some(w[0] as u32 as u16);
    }
    if n > 0 && w[0] == 'f' {
        let tail = slice_subrange(w, 1, n);
        assert(tail@ =~= w@.skip(1));
        return match text::parse_digits(tail, 24) {
            Some(k) => if k >= 1 {
                Some((0x6f + k) as u16)
            } else {
                None
            },
            None => None,
        };
    }
    None
}

proof fn lemma_mods_none(parts: Seq<Seq<char>>, i: int, n: int)
    requires
        0 <= i <= n,
        spec_mods(parts, i) is None,
    ensures
        spec_mods(parts, n) is None,
    decreases n - i,
{
    if i < n {
        lemma_mods_none(parts, i, n - 1);
    }
}

pub fn parse_keyspec(s: &str) -> (r: Option<KeySpec>)
    ensures
        r == keyspec_of(s@),
{
    let ghost want = text::split(s@, '+');
    let parts = text::split_chars(text::chars_of(s).as_slice(), '+');
    let last: usize = parts.len() - 1;
    let mut spec = KeySpec { ctrl: false, shift: false, alt: false, vk: 0 };
    let mut i: usize = 0;
    while i < last
        invariant
            i <= last == want.len() - 1,
            parts@.len() == want.len(),
            want == text::split(s@, '+'),
            forall|j: int| 0 <= j < parts@.len() ==> (#[trigger] parts@[j])@ == want[j],
            spec_mods(want, i as int) == Some(spec),
        decreases last - i,
    {
        let w = word_of(parts[i].as_slice());
        assert(parts@[i as int]@ == want[i as int]);
        if is_word(w.as_slice(), "ctrl") || is_word(w.as_slice(), "control") {
            spec.ctrl = true;
        } else if is_word(w.as_slice(), "shift") {
            spec.shift = true;
        } else if is_word(w.as_slice(), "alt") {
            spec.alt = true;
        } else {
            proof {
                assert(spec_mods(want, i + 1) is None);
                lemma_mods_none(want, i + 1, last as int);
            }
            return None;
        }
        i += 1;
    }
    assert(parts@[last as int]@ == want[last as int]);
    match vk_of(word_of(parts[last].as_slice()).as_slice()) {
        Some(vk) => {
            spec.vk = vk;
            Some(spec)
        },
        None => None,
    }
}

/// Parts of a key description, joined by plus signs.
pub open spec fn joined(parts: Seq<Seq<char>>) -> Seq<char>
    decreases parts.len(),
{
    if parts.len() == 0 {
        Seq::empty()
    } else if parts.len() == 1 {
        parts[0]
    } else {
        parts[0] + seq!['+'] + joined(parts.drop_first())
    }
}

/// Parts that can be joined: at least the key, and no plus sign in any.
pub open spec fn parts_ok(parts: Seq<Seq<char>>) -> bool {
    &&& parts.len() > 0
    &&& forall|i: int, k: int|
        0 <= i < parts.len() && 0 <= k < parts[i].len() ==> #[trigger] parts[i][k] != '+'
}

proof fn lemma_split_joined(parts: Seq<Seq<char>>)
    requires
        parts_ok(parts),
    ensures
        text::split(joined(parts), '+') == parts,
    decreases parts.len(),
{
    let s = joined(parts);
    let n = parts[0].len() as int;
    if parts.len() == 1 {
        assert forall|k: int| 0 <= k < n implies s[k] != '+' by {
            assert(parts[0][k] != '+');
        }
        text::lemma_char_pos(s, '+', n);
        assert(text::split(s, '+') =~= parts);
    } else {
        let rest = parts.drop_first();
        assert forall|i: int, k: int| 0 <= i < rest.len() && 0 <= k < rest[i].len() implies #[trigger] rest[i][k]
            != '+' by {
            assert(rest[i] == parts[i + 1]);
            assert(parts[i + 1][k] != '+');
        }
        lemma_split_joined(rest);
        assert forall|k: int| 0 <= k < n implies s[k] != '+' by {
            assert(s[k] == parts[0][k]);
        }
        assert(s[n] == '+');
        text::lemma_char_pos(s, '+', n);
        assert(s.take(n) =~= parts[0]);
        assert(s.skip(n + 1) =~= joined(rest));
        assert(text::split(s, '+') =~= parts);
    }
}

pub open spec fn names_ctrl(part: Seq<char>) -> bool {
    word(part) == "ctrl"@ || word(part) == "control"@
}

pub open spec fn names_shift(part: Seq<char>) -> bool {
    word(part) == "shift"@
}

pub open spec fn names_alt(part: Seq<char>) -> bool {
    word(part) == "alt"@
}

proof fn lemma_mods_named(parts: Seq<Seq<char>>, n: int)
    requires
        0 <= n <= parts.len(),
    ensures
        spec_mods(parts, n) is Some <==> forall|i: int|
            0 <= i < n ==> names_ctrl(#[trigger] parts[i]) || names_shift(parts[i]) || names_alt(
                parts[i],
            ),
        spec_mods(parts, n) matches Some(k) ==> {
            &&& k.ctrl <==> exists|i: int| 0 <= i < n && names_ctrl(#[trigger] parts[i])
            &&& k.shift <==> exists|i: int| 0 <= i < n && names_shift(#[trigger] parts[i])
            &&& k.alt <==> exists|i: int| 0 <= i < n && names_alt(#[trigger] parts[i])
            &&& k.vk == 0
        },
    decreases n,
{
    reveal_strlit("ctrl");
    reveal_strlit("control");
    reveal_strlit("shift");
    reveal_strlit("alt");
    if n > 0 {
        lemma_mods_named(parts, n - 1);
        let p = parts[n - 1];
        if names_shift(p) {
            assert("shift"@[0] == 's' && "ctrl"@[0] == 'c' && "control"@[0] == 'c');
        }
        if names_alt(p) {
            assert("alt"@[0] == 'a' && "ctrl"@[0] == 'c' && "control"@[0] == 'c' && "shift"@[0]
                == 's');
        }
    }
}

/// What a key description says: all parts but the last name modifiers, in any
/// order and as often as one likes, and the key is that of the last part alone.
pub proof fn law_keyspec_parts(parts: Seq<Seq<char>>)
    requires
        parts_ok(parts),
    ensures
        ({
            let n = parts.len() - 1;
            let key = keyspec_of(parts[n]);
            &&& keyspec_of(joined(parts)) is Some <==> key is Some && forall|i: int|
                0 <= i < n ==> names_ctrl(#[trigger] parts[i]) || names_shift(parts[i])
                    || names_alt(parts[i])
            &&& keyspec_of(joined(parts)) matches Some(k) ==> {
                &&& k.vk == key->0.vk
                &&& k.ctrl <==> exists|i: int| 0 <= i < n && names_ctrl(#[trigger] parts[i])
                &&& k.shift <==> exists|i: int| 0 <= i < n && names_shift(#[trigger] parts[i])
                &&& k.alt <==> exists|i: int| 0 <= i < n && names_alt(#[trigger] parts[i])
            }
        }),
{
    let n = parts.len() - 1;
    lemma_split_joined(parts);
    lemma_mods_named(parts, n);
    let alone = seq![parts[n]];
    assert forall|i: int, k: int| 0 <= i < alone.len() && 0 <= k < alone[i].len() implies #[trigger] alone[i][k]
        != '+' by {
        assert(parts[n][k] != '+');
    }
    lemma_split_joined(alone);
    assert(joined(alone) == parts[n]);
}

/// Whether every modifier part of `a` is a part of `b`, too, as it is compared.
pub open spec fn mods_within(a: Seq<Seq<char>>, b: Seq<Seq<char>>) -> bool {
    forall|i: int|
        0 <= i < a.len() - 1 ==> exists|j: int|
            0 <= j < b.len() - 1 && word(#[trigger] b[j]) == word(#[trigger] a[i])
}

proof fn lemma_mods_within(a: Seq<Seq<char>>, b: Seq<Seq<char>>)
    requires
        mods_within(a, b),
    ensures
        (exists|i: int| 0 <= i < a.len() - 1 && names_ctrl(#[trigger] a[i])) ==> exists|j: int|
            0 <= j < b.len() - 1 && names_ctrl(#[trigger] b[j]),
        (exists|i: int| 0 <= i < a.len() - 1 && names_shift(#[trigger] a[i])) ==> exists|j: int|
            0 <= j < b.len() - 1 && names_shift(#[trigger] b[j]),
        (exists|i: int| 0 <= i < a.len() - 1 && names_alt(#[trigger] a[i])) ==> exists|j: int|
            0 <= j < b.len() - 1 && names_alt(#[trigger] b[j]),
        (forall|j: int|
            0 <= j < b.len() - 1 ==> names_ctrl(#[trigger] b[j]) || names_shift(b[j]) || names_alt(
                b[j],
            )) ==> forall|i: int|
            0 <= i < a.len() - 1 ==> names_ctrl(#[trigger] a[i]) || names_shift(a[i]) || names_alt(
                a[i],
            ),
{
}

/// Neither the order nor the repetition of modifiers changes what a key
/// description stands for.
pub proof fn law_modifier_order_does_not_matter(a: Seq<Seq<char>>, b: Seq<Seq<char>>)
    requires
        parts_ok(a),
        parts_ok(b),
        mods_within(a, b),
        mods_within(b, a),
        word(a.last()) == word(b.last()),
    ensures
        keyspec_of(joined(a)) == keyspec_of(joined(b)),
{
    law_keyspec_parts(a);
    law_keyspec_parts(b);
    lemma_split_joined(a);
    lemma_split_joined(b);
    lemma_mods_within(a, b);
    lemma_mods_within(b, a);
    assert(keyspec_of(joined(a)) is Some == keyspec_of(joined(b)) is Some) by {
        lemma_mods_named(a, a.len() - 1);
        lemma_mods_named(b, b.len() - 1);
    }
}

proof fn lemma_trim_front(front: Seq<char>, s: Seq<char>)
    requires
        forall|i: int| 0 <= i < front.len() ==> text::is_space(#[trigger] front[i]),
    ensures
        text::trim_left(front + s) == text::trim_left(s),
    decreases front.len(),
{
    if front.len() == 0 {
        assert(front + s =~= s);
    } else {
        assert((front + s)[0] == front[0]);
        assert((front + s).drop_first() =~= front.drop_first() + s);
        lemma_trim_front(front.drop_first(), s);
    }
}

proof fn lemma_trim_back(s: Seq<char>, back: Seq<char>)
    requires
        forall|i: int| 0 <= i < back.len() ==> text::is_space(#[trigger] back[i]),
    ensures
        text::trim_right(s + back) == text::trim_right(s),
    decreases back.len(),
{
    if back.len() == 0 {
        assert(s + back =~= s);
    } else {
        assert((s + back).last() == back.last());
        assert((s + back).drop_last() =~= s + back.drop_last());
        lemma_trim_back(s, back.drop_last());
    }
}

proof fn lemma_trim_left_of(s: Seq<char>, back: Seq<char>)
    requires
        forall|i: int| 0 <= i < back.len() ==> text::is_space(#[trigger] back[i]),
    ensures
        text::trim_left(s + back) == (if text::trim_left(s).len() > 0 {
            text::trim_left(s) + back
        } else {
            Seq::empty()
        }),
    decreases s.len(),
{
    if s.len() == 0 {
        assert(s + back =~= back + Seq::<char>::empty());
        lemma_trim_front(back, Seq::empty());
    } else if text::is_space(s[0]) {
        assert((s + back).drop_first() =~= s.drop_first() + back);
        lemma_trim_left_of(s.drop_first(), back);
    }
}

proof fn lemma_lowered_left(s: Seq<char>)
    ensures
        text::lowered(text::trim_left(s)) == text::trim_left(text::lowered(s)),
    decreases s.len(),
{
    if s.len() > 0 && text::is_space(s[0]) {
        assert(text::lowered(s).drop_first() =~= text::lowered(s.drop_first()));
        lemma_lowered_left(s.drop_first());
    }
}

proof fn lemma_lowered_right(s: Seq<char>)
    ensures
        text::lowered(text::trim_right(s)) == text::trim_right(text::lowered(s)),
    decreases s.len(),
{
    if s.len() > 0 && text::is_space(s.last()) {
        assert(text::lowered(s).drop_last() =~= text::lowered(s.drop_last()));
        lemma_lowered_right(s.drop_last());
    }
}

/// A part of a key description is compared without the blanks around it, and
/// without regard to ASCII case.
pub proof fn law_part_is_read_loosely(
    front: Seq<char>,
    a: Seq<char>,
    back: Seq<char>,
    b: Seq<char>,
)
    requires
        forall|i: int| 0 <= i < front.len() ==> text::is_space(#[trigger] front[i]),
        forall|i: int| 0 <= i < back.len() ==> text::is_space(#[trigger] back[i]),
        text::lowered(a) == text::lowered(b),
    ensures
        word(front + a + back) == word(b),
{
    assert(front + a + back =~= front + (a + back));
    lemma_trim_front(front, a + back);
    lemma_trim_left_of(a, back);
    if text::trim_left(a).len() > 0 {
        lemma_trim_back(text::trim_left(a), back);
    } else {
        assert(text::trim_left(a) =~= Seq::empty());
    }
    assert(text::trimmed(front + a + back) == text::trimmed(a));
    lemma_lowered_left(a);
    lemma_lowered_right(text::trim_left(a));
    lemma_lowered_left(b);
    lemma_lowered_right(text::trim_left(b));
}

/// Whether a key press is the chord `k`.
pub open spec fn chord_is(k: KeySpec, vk: u16, mods: Mods) -> bool {
    k.vk == vk && k.ctrl == mods.ctrl && k.shift == mods.shift && k.alt == mods.alt
}

/// Index of the first binding for a key press.
pub open spec fn binding_from(binds: Seq<KeySpec>, vk: u16, mods: Mods, i: int) -> Option<int>
    decreases binds.len() - i,
{
    if i < 0 || i >= binds.len() {
        None
    } else if chord_is(binds[i], vk, mods) {
        Some(i)
    } else {
        binding_from(binds, vk, mods, i + 1)
    }
}

/// The binding that a key press runs: the first that was registered for it.
pub fn handle_key(binds: &Vec<KeySpec>, vk: u16, mods: &Mods) -> (r: Option<usize>)
    ensures
        match r {
            Some(i) => binding_from(binds@, vk, *mods, 0) == Some(i as int) && i < binds@.len(),
            None => binding_from(binds@, vk, *mods, 0) is None,
        },
{
    let mut i: usize = 0;
    while i < binds.len()
        invariant
            i <= binds@.len(),
            binding_from(binds@, vk, *mods, 0) == binding_from(binds@, vk, *mods, i as int),
        decreases binds@.len() - i,
    {
        let k = binds[i];
        if k.vk == vk && k.ctrl == mods.ctrl && k.shift == mods.shift && k.alt == mods.alt {
            return Some(i);
        }
        i += 1;
    }
    None
}

/// The bindings among registered key descriptions, with the index of the
/// description; descriptions that name no key are left out.
pub open spec fn bindings_of(specs: Seq<String>, n: int) -> Seq<(KeySpec, usize)>
    decreases n,
{
    if n <= 0 {
        Seq::empty()
    } else {
        let before = bindings_of(specs, n - 1);
        match keyspec_of(specs[n - 1]@) {
            Some(k) => before.push((k, (n - 1) as usize)),
            None => before,
        }
    }
}

/// The bindings that registered descriptions make, in order.
pub fn bindings(specs: &Vec<String>) -> (r: Vec<(KeySpec, usize)>)
    ensures
        r@ == bindings_of(specs@, specs@.len() as int),
{
    let mut r: Vec<(KeySpec, usize)> = Vec::new();
    let mut i: usize = 0;
    while i < specs.len()
        invariant
            i <= specs@.len(),
            r@ == bindings_of(specs@, i as int),
        decreases specs@.len() - i,
    {
        if let Some(k) = parse_keyspec(specs[i].as_str()) {
            r.push((k, i));
        }
        i += 1;
    }
    r
}

/// Index of the first hook for the tab title.
pub open spec fn hook_from(events: Seq<String>, i: int) -> Option<int>
    decreases events.len() - i,
{
    if i < 0 || i >= events.len() {
        None
    } else if events[i]@ == "tab_title"@ {
        Some(i)
    } else {
        hook_from(events, i + 1)
    }
}

/// The hook that formats tab titles: the first registered for that event.
pub fn title_hook(events: &Vec<String>) -> (r: Option<usize>)
    ensures
        match r {
            Some(i) => hook_from(events@, 0) == Some(i as int) && i < events@.len(),
            None => hook_from(events@, 0) is None,
        },
{
    let mut i: usize = 0;
    while i < events.len()
        invariant
            i <= events@.len(),
            hook_from(events@, 0) == hook_from(events@, i as int),
        decreases events@.len() - i,
    {
        if text::same(events[i].as_str(), "tab_title") {
            return Some(i);
        }
        i += 1;
    }
    None
}

/// The direction of a split that a script asks for: `down` or `below` stacks,
/// anything else puts side by side.
pub open spec fn script_dir(dir: Option<Seq<char>>) -> Dir {
    if dir == Some("down"@) || dir == Some("below"@) {
        Dir::Col
    } else {
        Dir::Row
    }
}

pub fn split_dir(dir: Option<&str>) -> (r: Dir)
    ensures
        r == script_dir(
            match dir {
                Some(d) => Some(d@),
                None => None,
            },
        ),
{
    match dir {
        Some(d) => if text::same(d, "down") || text::same(d, "below") {
            Dir::Col
        } else {
            Dir::Row
        },
        None => Dir::Row,
    }
}

/// A profile, as a value.
pub struct ProfileView {
    pub name: Seq<char>,
    pub command: Seq<String>,
    pub cwd: Option<String>,
}

pub open spec fn profile_view(p: Profile) -> ProfileView {
    ProfileView { name: p.name@, command: p.command@, cwd: p.cwd }
}

pub open spec fn profile_views(v: Seq<Profile>) -> Seq<ProfileView> {
    v.map_values(|p: Profile| profile_view(p))
}

/// Index of the first profile of a name.
pub open spec fn view_named(v: Seq<ProfileView>, name: Seq<char>, i: int) -> Option<int>
    decreases v.len() - i,
{
    if i < 0 || i >= v.len() {
        None
    } else if v[i].name == name {
        Some(i)
    } else {
        view_named(v, name, i + 1)
    }
}

/// The profiles with `p` in the place of the first of its name, or at the end.
pub open spec fn with_profile(v: Seq<ProfileView>, p: ProfileView) -> Seq<ProfileView> {
    match view_named(v, p.name, 0) {
        Some(i) => v.update(i, p),
        None => v.push(p),
    }
}

/// The profiles after the first `n` of the script's were added.
pub open spec fn with_profiles(v: Seq<ProfileView>, added: Seq<ProfileView>, n: int) -> Seq<
    ProfileView,
>
    decreases n,
{
    if n <= 0 {
        v
    } else {
        with_profile(with_profiles(v, added, n - 1), added[n - 1])
    }
}

proof fn lemma_view_named(profiles: Seq<Profile>, name: Seq<char>, i: int)
    ensures
        view_named(profile_views(profiles), name, i) == crate::config::profile_from(
            profiles,
            name,
            i,
        ),
    decreases profiles.len() - i,
{
    if 0 <= i < profiles.len() {
        lemma_view_named(profiles, name, i + 1);
    }
}

/// Profiles of the script replace those of the same name, else they are added.
pub fn merge_profiles(profiles: &mut Vec<Profile>, added: &Vec<Profile>)
    ensures
        profile_views(final(profiles)@) == with_profiles(
            profile_views(old(profiles)@),
            profile_views(added@),
            added@.len() as int,
        ),
{
    let ghost start = profile_views(profiles@);
    let ghost new = profile_views(added@);
    let mut i: usize = 0;
    while i < added.len()
        invariant
            i <= added@.len(),
            new == profile_views(added@),
            profile_views(profiles@) == with_profiles(start, new, i as int),
        decreases added@.len() - i,
    {
        let p = added[i].copy();
        let ghost before = profiles@;
        assert(new[i as int] == profile_view(p));
        proof {
            lemma_view_named(profiles@, p.name@, 0);
        }
        match find_profile(profiles, p.name.as_str()) {
            Some(k) => {
                profiles.set(k, p);
                assert(profile_views(profiles@) =~= profile_views(before).update(
                    k as int,
                    new[i as int],
                ));
            },
            None => {
                profiles.push(p);
                assert(profile_views(profiles@) =~= profile_views(before).push(new[i as int]));
            },
        }
        i += 1;
    }
}

/// Adding a profile makes it the first of its name, and keeps the others.
pub proof fn law_profile_wins(v: Seq<ProfileView>, p: ProfileView)
    ensures
        view_named(with_profile(v, p), p.name, 0) matches Some(i) && with_profile(v, p)[i] == p,
        with_profile(v, p).len() == v.len() || with_profile(v, p).len() == v.len() + 1,
{
    lemma_named_range(v, p.name, 0);
    match view_named(v, p.name, 0) {
        Some(i) => {
            lemma_named_is(v.update(i, p), p.name, 0, i);
        },
        None => {
            lemma_named_is(v.push(p), p.name, 0, v.len() as int);
        },
    }
}

proof fn lemma_named_range(v: Seq<ProfileView>, name: Seq<char>, from: int)
    requires
        0 <= from,
    ensures
        match view_named(v, name, from) {
            Some(i) => from <= i < v.len() && v[i].name == name && forall|j: int|
                from <= j < i ==> (#[trigger] v[j]).name != name,
            None => forall|j: int| from <= j < v.len() ==> (#[trigger] v[j]).name != name,
        },
    decreases v.len() - from,
{
    if from < v.len() && v[from].name != name {
        lemma_named_range(v, name, from + 1);
    }
}

proof fn lemma_named_is(v: Seq<ProfileView>, name: Seq<char>, from: int, i: int)
    requires
        0 <= from <= i < v.len(),
        v[i].name == name,
        forall|j: int| from <= j < i ==> (#[trigger] v[j]).name != name,
    ensures
        view_named(v, name, from) == Some(i),
    decreases i - from,
{
    if from < i {
        lemma_named_is(v, name, from + 1, i);
    }
}

/// What the script set of the settings: any of them but the profiles, which it
/// adds one by one.
pub struct Overrides {
    pub font_family: Option<String>,
    pub font_size: Option<i32>,
    pub dim_inactive_panes: Option<u16>,
    pub scrollback_lines: Option<usize>,
    pub browser_debug_port: Option<u16>,
    pub default_profile: Option<String>,
    pub quake_hotkey: Option<String>,
    pub restore_session: Option<bool>,
    pub theme: Option<String>,
    pub alt_passthrough: Option<Vec<String>>,
}

/// What a run of the script left behind.
pub struct ScriptRun {
    pub set: Overrides,
    pub profiles: Vec<Profile>,
    /// The descriptions of its key bindings.
    pub binds: Vec<String>,
    /// The events that it hooks.
    pub hooks: Vec<String>,
}

/// The bindings and the hook that are in force, each with its number in the run.
pub struct Bound {
    pub binds: Vec<(KeySpec, usize)>,
    pub title_hook: Option<usize>,
}

pub open spec fn or<T>(set: Option<T>, was: T) -> T {
    match set {
        Some(v) => v,
        None => was,
    }
}

/// The settings with what the script set; everything else is left as it was.
pub open spec fn overridden(c: Config, o: Overrides, r: Config) -> bool {
    &&& r.font_family == or(o.font_family, c.font_family)
    &&& r.font_size == or(o.font_size, c.font_size)
    &&& r.dim_inactive_panes == or(o.dim_inactive_panes, c.dim_inactive_panes)
    &&& r.scrollback_lines == or(o.scrollback_lines, c.scrollback_lines)
    &&& r.browser_debug_port == or(o.browser_debug_port, c.browser_debug_port)
    &&& r.default_profile == or(o.default_profile, c.default_profile)
    &&& r.quake_hotkey == or(o.quake_hotkey, c.quake_hotkey)
    &&& r.restore_session == or(o.restore_session, c.restore_session)
    &&& r.theme == (if o.theme is Some {
        o.theme
    } else {
        c.theme
    })
    &&& r.alt_passthrough == or(o.alt_passthrough, c.alt_passthrough)
}

fn apply(cfg: &mut Config, set: Overrides)
    ensures
        overridden(*old(cfg), set, *final(cfg)),
        final(cfg).profiles == old(cfg).profiles,
{
    if let Some(v) = set.font_family {
        cfg.font_family = v;
    }
    if let Some(v) = set.font_size {
        cfg.font_size = v;
    }
    if let Some(v) = set.dim_inactive_panes {
        cfg.dim_inactive_panes = v;
    }
    if let Some(v) = set.scrollback_lines {
        cfg.scrollback_lines = v;
    }
    if let Some(v) = set.browser_debug_port {
        cfg.browser_debug_port = v;
    }
    if let Some(v) = set.default_profile {
        cfg.default_profile = v;
    }
    if let Some(v) = set.quake_hotkey {
        cfg.quake_hotkey = v;
    }
    if let Some(v) = set.restore_session {
        cfg.restore_session = v;
    }
    if let Some(v) = set.theme {
        cfg.theme = Some(v);
    }
    if let Some(v) = set.alt_passthrough {
        cfg.alt_passthrough = v;
    }
}

/// Take over what a run of the script left behind. Where the script failed,
/// nothing changes.
pub fn init_from_source(cfg: &mut Config, run: Option<ScriptRun>) -> (r: Option<Bound>)
    ensures
        match (run, r) {
            (Some(run), Some(b)) => {
                &&& overridden(*old(cfg), run.set, *final(cfg))
                &&& profile_views(final(cfg).profiles@) == with_profiles(
                    profile_views(old(cfg).profiles@),
                    profile_views(run.profiles@),
                    run.profiles@.len() as int,
                )
                &&& b.binds@ == bindings_of(run.binds@, run.binds@.len() as int)
                &&& match b.title_hook {
                    Some(i) => hook_from(run.hooks@, 0) == Some(i as int),
                    None => hook_from(run.hooks@, 0) is None,
                }
            },
            (None, None) => *final(cfg) == *old(cfg),
            _ => false,
        },
{
    match run {
        None => None,
        Some(run) => {
            apply(cfg, run.set);
            merge_profiles(&mut cfg.profiles, &run.profiles);
            Some(Bound { binds: bindings(&run.binds), title_hook: title_hook(&run.hooks) })
        },
    }
}

/// The title that the hook gave, or else the title itself.
pub fn format_title(title: String, hooked: Option<String>) -> (r: String)
    ensures
        r == or(hooked, title),
{
    match hooked {
        Some(t) => t,
        None => title,
    }
}

/// The modifiers go by their names: a chord of one of them and a key has just
/// that one, and the key.
pub proof fn law_modifier_names(m: Seq<char>, key: Seq<char>)
    requires
        forall|i: int| 0 <= i < key.len() ==> #[trigger] key[i] != '+',
        keyspec_of(key) is Some,
        m == "ctrl"@ || m == "control"@ || m == "shift"@ || m == "alt"@,
    ensures
        keyspec_of(m + seq!['+'] + key) matches Some(k) && k.vk == (keyspec_of(key)->0).vk && k.ctrl
            == (m == "ctrl"@ || m == "control"@) && k.shift == (m == "shift"@) && k.alt == (m
            == "alt"@),
{
    reveal_strlit("ctrl");
    reveal_strlit("control");
    reveal_strlit("shift");
    reveal_strlit("alt");
    let parts = seq![m, key];
    assert(parts_ok(parts)) by {
        assert forall|i: int, k: int|
            0 <= i < parts.len() && 0 <= k < parts[i].len() implies #[trigger] parts[i][k] != '+' by {
            if i == 1 {
                assert(parts[1][k] == key[k]);
            }
        }
    }
    assert(parts.drop_first() =~= seq![key]);
    reveal_with_fuel(joined, 2);
    assert(joined(parts) =~= m + seq!['+'] + key);
    law_keyspec_parts(parts);
    text::lemma_trimmed_already(m);
    assert(text::lowered(m) =~= m);
    assert(word(m) == m);
    assert("ctrl"@[0] == 'c' && "control"@[0] == 'c' && "shift"@[0] == 's' && "alt"@[0] == 'a');
    assert(names_ctrl(parts[0]) == (m == "ctrl"@ || m == "control"@));
    assert(names_shift(parts[0]) == (m == "shift"@));
    assert(names_alt(parts[0]) == (m == "alt"@));
}

/// Letters go by the codes of their capitals, digits by their own.
pub proof fn law_letter_keys(c: char)
    ensures
        0x61 <= c as u32 <= 0x7a ==> key_code(seq![c]) == Some((c as u32 - 32) as u16),
        0x30 <= c as u32 <= 0x39 ==> key_code(seq![c]) == Some(c as u16),
{
    if 0x61 <= c as u32 <= 0x7a || 0x30 <= c as u32 <= 0x39 {
        lemma_short_names(seq![c]);
    }
}

/// No name of a key is a letter or a digit alone, or begins with f.
proof fn lemma_short_names(w: Seq<char>)
    requires
        w.len() > 0,
        w.len() == 1 && ('a' <= w[0] <= 'z' || '0' <= w[0] <= '9') || w[0] == 'f',
    ensures
        named_key(w) is None,
{
    reveal_strlit("enter");
    reveal_strlit("return");
    reveal_strlit("tab");
    reveal_strlit("space");
    reveal_strlit("escape");
    reveal_strlit("esc");
    reveal_strlit("up");
    reveal_strlit("down");
    reveal_strlit("left");
    reveal_strlit("right");
    reveal_strlit("home");
    reveal_strlit("end");
    reveal_strlit("pgup");
    reveal_strlit("pageup");
    reveal_strlit("pgdn");
    reveal_strlit("pagedown");
    reveal_strlit("insert");
    reveal_strlit("delete");
    reveal_strlit("backspace");
    reveal_strlit("`");
    reveal_strlit("backtick");
    reveal_strlit("grave");
    reveal_strlit("-");
    reveal_strlit("minus");
    reveal_strlit("=");
    reveal_strlit("plus");
    reveal_strlit("equals");
}

/// The function keys go by their number, from 1 to 24.
pub proof fn law_function_keys(n: nat)
    ensures
        1 <= n <= 24 ==> key_code(seq!['f'] + text::decimal(n)) == Some((0x6f + n) as u16),
        n == 0 || n > 24 ==> key_code(seq!['f'] + text::decimal(n)) is None,
{
    let w = seq!['f'] + text::decimal(n);
    lemma_short_names(w);
    text::law_decimal_reads_back(n);
    assert(w.skip(1) =~= text::decimal(n));
    lemma_decimal_some(n);
}

proof fn lemma_decimal_some(n: nat)
    ensures
        text::decimal(n).len() > 0,
{
}

/// The key that a binding is for runs the first one bound to it; a chord with
/// other modifiers does not.
pub proof fn law_first_binding_wins(binds: Seq<KeySpec>, vk: u16, mods: Mods)
    ensures
        match binding_from(binds, vk, mods, 0) {
            Some(i) => 0 <= i < binds.len() && bound_to(binds[i], vk, mods) && forall|j: int|
                0 <= j < i ==> !bound_to(#[trigger] binds[j], vk, mods),
            None => forall|j: int| 0 <= j < binds.len() ==> !bound_to(#[trigger] binds[j], vk, mods),
        },
{
    lemma_first_binding(binds, vk, mods, 0);
}

/// Whether a chord has this key and just these modifiers.
pub open spec fn bound_to(k: KeySpec, vk: u16, mods: Mods) -> bool {
    k == (KeySpec { ctrl: mods.ctrl, shift: mods.shift, alt: mods.alt, vk })
}

proof fn lemma_first_binding(binds: Seq<KeySpec>, vk: u16, mods: Mods, i: int)
    requires
        0 <= i,
    ensures
        match binding_from(binds, vk, mods, i) {
            Some(k) => i <= k < binds.len() && bound_to(binds[k], vk, mods) && forall|j: int|
                i <= j < k ==> !bound_to(#[trigger] binds[j], vk, mods),
            None => forall|j: int| i <= j < binds.len() ==> !bound_to(#[trigger] binds[j], vk, mods),
        },
    decreases binds.len() - i,
{
    if i < binds.len() && !chord_is(binds[i], vk, mods) {
        lemma_first_binding(binds, vk, mods, i + 1);
    }
}

/// Every description that names a key is bound, to the key it names; none of the
/// others is, and they stay in order.
pub proof fn law_descriptions_are_bound(specs: Seq<String>, n: int, i: int)
    requires
        0 <= i < n <= specs.len() <= usize::MAX,
    ensures
        keyspec_of(specs[i]@) matches Some(k) ==> bindings_of(specs, n).contains((k, i as usize)),
        keyspec_of(specs[i]@) is None ==> forall|j: int|
            0 <= j < bindings_of(specs, n).len() ==> (#[trigger] bindings_of(specs, n)[j]).1 != i,
        forall|a: int, b: int|
            0 <= a < b < bindings_of(specs, n).len() ==> (#[trigger] bindings_of(specs, n)[a]).1 < (
            #[trigger] bindings_of(specs, n)[b]).1,
    decreases n,
{
    lemma_bindings_rise(specs, n);
    lemma_bindings_rise(specs, n - 1);
    let before = bindings_of(specs, n - 1);
    let all = bindings_of(specs, n);
    if i < n - 1 {
        law_descriptions_are_bound(specs, n - 1, i);
        if let Some(k) = keyspec_of(specs[i]@) {
            let x = (k, i as usize);
            let j = choose|j: int| 0 <= j < before.len() && before[j] == x;
            assert(all[j] == x);
        }
    } else if let Some(k) = keyspec_of(specs[i]@) {
        assert(all.last() == (k, i as usize));
    }
}

proof fn lemma_bindings_rise(specs: Seq<String>, n: int)
    requires
        0 <= n <= specs.len() <= usize::MAX,
    ensures
        forall|j: int|
            0 <= j < bindings_of(specs, n).len() ==> (#[trigger] bindings_of(specs, n)[j]).1 < n,
        forall|a: int, b: int|
            0 <= a < b < bindings_of(specs, n).len() ==> (#[trigger] bindings_of(specs, n)[a]).1 < (
            #[trigger] bindings_of(specs, n)[b]).1,
    decreases n,
{
    if n > 0 {
        lemma_bindings_rise(specs, n - 1);
        let before = bindings_of(specs, n - 1);
        let all = bindings_of(specs, n);
        assert forall|j: int| 0 <= j < all.len() implies (#[trigger] all[j]).1 < n by {
            if j < before.len() {
                assert(all[j] == before[j]);
            }
        }
        assert forall|a: int, b: int| 0 <= a < b < all.len() implies (#[trigger] all[a]).1 < (
        #[trigger] all[b]).1 by {
            assert(all[a] == before[a]);
            if b < before.len() {
                assert(all[b] == before[b]);
            }
        }
    }
}

/// A script splits downwards where it says down or below, and to the right
/// otherwise.
pub proof fn law_script_splits(dir: Option<Seq<char>>)
    ensures
        dir == Some("down"@) || dir == Some("below"@) ==> script_dir(dir) == Dir::Col,
        dir is None || dir == Some("right"@) ==> script_dir(dir) == Dir::Row,
{
    reveal_strlit("down");
    reveal_strlit("below");
    reveal_strlit("right");
    assert("down"@[0] == 'd' && "below"@[0] == 'b' && "right"@[0] == 'r');
}

/// What a script sets is set, each setting by itself; the rest stays.
pub proof fn law_script_settings(c: Config, o: Overrides, r: Config)
    requires
        overridden(c, o, r),
    ensures
        o.font_family matches Some(v) ==> r.font_family == v,
        o.font_family is None ==> r.font_family == c.font_family,
        o.font_size matches Some(v) ==> r.font_size == v,
        o.font_size is None ==> r.font_size == c.font_size,
        o.dim_inactive_panes matches Some(v) ==> r.dim_inactive_panes == v,
        o.dim_inactive_panes is None ==> r.dim_inactive_panes == c.dim_inactive_panes,
        o.scrollback_lines matches Some(v) ==> r.scrollback_lines == v,
        o.scrollback_lines is None ==> r.scrollback_lines == c.scrollback_lines,
        o.browser_debug_port matches Some(v) ==> r.browser_debug_port == v,
        o.browser_debug_port is None ==> r.browser_debug_port == c.browser_debug_port,
        o.default_profile matches Some(v) ==> r.default_profile == v,
        o.default_profile is None ==> r.default_profile == c.default_profile,
        o.quake_hotkey matches Some(v) ==> r.quake_hotkey == v,
        o.quake_hotkey is None ==> r.quake_hotkey == c.quake_hotkey,
        o.restore_session matches Some(v) ==> r.restore_session == v,
        o.restore_session is None ==> r.restore_session == c.restore_session,
        o.theme is Some ==> r.theme == o.theme,
        o.theme is None ==> r.theme == c.theme,
        o.alt_passthrough matches Some(v) ==> r.alt_passthrough == v,
        o.alt_passthrough is None ==> r.alt_passthrough == c.alt_passthrough,
{
}

/// The first hook for the title of tabs is the one that is asked.
pub proof fn law_title_hook(events: Seq<String>, i: int)
    requires
        0 <= i < events.len(),
        events[i]@ == "tab_title"@,
        forall|j: int| 0 <= j < i ==> (#[trigger] events[j])@ != "tab_title"@,
    ensures
        hook_from(events, 0) == Some(i),
{
    lemma_title_hook(events, 0, i);
}

proof fn lemma_title_hook(events: Seq<String>, from: int, i: int)
    requires
        0 <= from <= i < events.len(),
        events[i]@ == "tab_title"@,
        forall|j: int| 0 <= j < i ==> (#[trigger] events[j])@ != "tab_title"@,
    ensures
        hook_from(events, from) == Some(i),
    decreases i - from,
{
    if from < i {
        assert(events[from]@ != "tab_title"@);
        lemma_title_hook(events, from + 1, i);
    }
}

/// The named keys have the codes of the system.
pub proof fn law_named_keys()
    ensures
        key_code("enter"@) == Some(0x0du16),
        key_code("tab"@) == Some(0x09u16),
        key_code("space"@) == Some(0x20u16),
        key_code("escape"@) == Some(0x1bu16),
        key_code("left"@) == Some(0x25u16),
        key_code("up"@) == Some(0x26u16),
        key_code("right"@) == Some(0x27u16),
        key_code("down"@) == Some(0x28u16),
        key_code("pageup"@) == Some(0x21u16),
        key_code("pagedown"@) == Some(0x22u16),
        key_code("end"@) == Some(0x23u16),
        key_code("home"@) == Some(0x24u16),
        key_code("insert"@) == Some(0x2du16),
        key_code("delete"@) == Some(0x2eu16),
        key_code("backspace"@) == Some(0x08u16),
        key_code("`"@) == Some(0xc0u16),
        key_code("-"@) == Some(0xbdu16),
        key_code("="@) == Some(0xbbu16),
{
    reveal_strlit("enter");
    reveal_strlit("return");
    reveal_strlit("tab");
    reveal_strlit("space");
    reveal_strlit("escape");
    reveal_strlit("esc");
    reveal_strlit("up");
    reveal_strlit("down");
    reveal_strlit("left");
    reveal_strlit("right");
    reveal_strlit("home");
    reveal_strlit("end");
    reveal_strlit("pgup");
    reveal_strlit("pageup");
    reveal_strlit("pgdn");
    reveal_strlit("pagedown");
    reveal_strlit("insert");
    reveal_strlit("delete");
    reveal_strlit("backspace");
    reveal_strlit("`");
    reveal_strlit("backtick");
    reveal_strlit("grave");
    reveal_strlit("-");
    reveal_strlit("minus");
    reveal_strlit("=");
    reveal_strlit("plus");
    reveal_strlit("equals");
}

} // verus!
