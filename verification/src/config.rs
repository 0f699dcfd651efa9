//! The settings that the logic reads.
use vstd::prelude::*;
use crate::text;

verus! {

/// A shell that can be started in a pane.
pub struct Profile {
    pub name: String,
    pub command: Vec<String>,
    pub cwd: Option<String>,
}

impl Profile {
    /// The same profile once more.
    pub fn copy(&self) -> (r: Profile)
        ensures
            r.name == self.name,
            r.command@ == self.command@,
            r.cwd == self.cwd,
    {
        Profile { name: self.name.clone(), command: copy_words(&self.command), cwd: self.cwd.clone() }
    }
}

/// The same words once more.
pub fn copy_words(words: &Vec<String>) -> (r: Vec<String>)
    ensures
        r@ == words@,
{
    let mut r: Vec<String> = Vec::new();
    let mut i: usize = 0;
    while i < words.len()
        invariant
            i <= words@.len(),
            r@ == words@.take(i as int),
        decreases words@.len() - i,
    {
        r.push(words[i].clone());
        assert(words@.take(i + 1) =~= words@.take(i as int).push(words@[i as int]));
        i += 1;
    }
    assert(words@.take(i as int) =~= words@);
    r
}

/// The settings.
pub struct Config {
    pub font_family: String,
    /// In thousandths of a point.
    pub font_size: i32,
    /// How dark panes without the focus are, in thousandths.
    pub dim_inactive_panes: u16,
    pub scrollback_lines: usize,
    /// The port where browser panes can be debugged; none where it is 0.
    pub browser_debug_port: u16,
    pub default_profile: String,
    pub profiles: Vec<Profile>,
    /// The key that toggles the drop-down window.
    pub quake_hotkey: String,
    pub restore_session: bool,
    pub theme: Option<String>,
    /// The Alt chords that are left to the shell, without their `Alt+`.
    pub alt_passthrough: Vec<String>,
}

/// Index of the first profile called `name`.
pub open spec fn profile_named(profiles: Seq<Profile>, name: Seq<char>) -> Option<int> {
    profile_from(profiles, name, 0)
}

pub open spec fn profile_from(profiles: Seq<Profile>, name: Seq<char>, i: int) -> Option<int>
    decreases profiles.len() - i,
{
    if i < 0 || i >= profiles.len() {
        None
    } else if profiles[i].name@ == name {
        Some(i)
    } else {
        profile_from(profiles, name, i + 1)
    }
}

pub fn find_profile(profiles: &Vec<Profile>, name: &str) -> (r: Option<usize>)
    ensures
        match r {
            Some(i) => profile_named(profiles@, name@) == Some(i as int) && i < profiles@.len(),
            None => profile_named(profiles@, name@) is None,
        },
{
    let mut i: usize = 0;
    while i < profiles.len()
        invariant
            i <= profiles@.len(),
            profile_named(profiles@, name@) == profile_from(profiles@, name@, i as int),
        decreases profiles@.len() - i,
    {
        if text::same(profiles[i].name.as_str(), name) {
            return Some(i);
        }
        i += 1;
    }
    None
}

/// Index of the profile that is started where none is asked for: the one the
/// settings name, or else the first.
pub open spec fn default_index(profiles: Seq<Profile>, name: Seq<char>) -> Option<int> {
    match profile_named(profiles, name) {
        Some(i) => Some(i),
        None => if profiles.len() > 0 {
            Some(0)
        } else {
            None
        },
    }
}

impl Config {
    pub fn default_profile(&self) -> (r: Option<usize>)
        ensures
            match r {
                Some(i) => default_index(self.profiles@, self.default_profile@) == Some(i as int)
                    && i < self.profiles@.len(),
                None => default_index(self.profiles@, self.default_profile@) is None,
            },
    {
        match find_profile(&self.profiles, self.default_profile.as_str()) {
            Some(i) => Some(i),
            None => if self.profiles.len() > 0 {
                Some(0)
            } else {
                None
            },
        }
    }
}

/// The line of a profile in the profile menu: its name, and its shortcut where
/// it has one.
pub open spec fn menu_label(name: Seq<char>, i: int) -> Seq<char> {
    if i < 9 {
        name + "\tCtrl+Shift+"@ + text::decimal((i + 1) as nat)
    } else {
        name
    }
}

pub fn profile_label(p: &Profile, i: usize) -> (r: String)
    ensures
        r@ == menu_label(p.name@, i as int),
{
    let mut r = p.name.clone();
    if i < 9 {
        text::push_text(&mut r, "\tCtrl+Shift+");
        text::push_decimal(&mut r, (i + 1) as u64);
    }
    r
}

/// Index of the first theme called `name`.
pub open spec fn theme_from(themes: Seq<String>, name: Seq<char>, i: int) -> Option<int>
    decreases themes.len() - i,
{
    if i < 0 || i >= themes.len() {
        None
    } else if themes[i]@ == name {
        Some(i)
    } else {
        theme_from(themes, name, i + 1)
    }
}

/// The theme after the current one, in turn; the first where the current one is
/// not among them.
pub open spec fn theme_after(themes: Seq<String>, current: Option<Seq<char>>) -> int {
    match current {
        Some(c) => match theme_from(themes, c, 0) {
            Some(i) => if i + 1 < themes.len() {
                i + 1
            } else {
                0
            },
            None => 0,
        },
        None => 0,
    }
}

pub fn next_theme(themes: &Vec<String>, current: &Option<String>) -> (r: Option<usize>)
    ensures
        match r {
            Some(i) => i < themes@.len() && i == theme_after(
                themes@,
                match *current {
                    Some(c) => Some(c@),
                    None => None,
                },
            ),
            None => themes@.len() == 0,
        },
{
    if themes.len() == 0 {
        return None;
    }
    if let Some(c) = current {
        let mut i: usize = 0;
        while i < themes.len()
            invariant
                i <= themes@.len(),
                *current == Some(*c),
                theme_from(themes@, c@, 0) == theme_from(themes@, c@, i as int),
            decreases themes@.len() - i,
        {
            if text::same(themes[i].as_str(), c.as_str()) {
                return Some(if i + 1 < themes.len() {
                    i + 1
                } else {
                    0
                });
            }
            i += 1;
        }
    }
    Some(0)
}

/// What is announced of a theme among several: its name, its number and theirs.
pub open spec fn theme_turn(name: Seq<char>, i: int, n: int) -> Seq<char> {
    "\u{1f3a8} "@ + name + "  ("@ + text::decimal((i + 1) as nat) + "/"@ + text::decimal(n as nat)
        + ")"@
}

/// Announce the theme that is next in turn; `loaded` says that its file could
/// be read.
pub fn theme_cycled(name: &str, i: usize, n: usize, loaded: bool) -> (r: String)
    requires
        i < n,
    ensures
        r@ == if loaded {
            theme_turn(name@, i as int, n as int)
        } else {
            "couldn't parse theme '"@ + name@ + "'"@
        },
{
    let mut r = text::owned(
        if loaded {
            "\u{1f3a8} "
        } else {
            "couldn't parse theme '"
        },
    );
    text::push_text(&mut r, name);
    if loaded {
        text::push_text(&mut r, "  (");
        text::push_decimal(&mut r, (i + 1) as u64);
        text::push_text(&mut r, "/");
        text::push_decimal(&mut r, n as u64);
        text::push_text(&mut r, ")");
    } else {
        text::push_text(&mut r, "'");
    }
    r
}

/// Announce a theme that was picked.
pub fn theme_picked(name: &str, loaded: bool) -> (r: String)
    ensures
        r@ == if loaded {
            "\u{1f3a8} "@ + name@
        } else {
            "couldn't load theme '"@ + name@ + "'"@
        },
{
    let mut r = text::owned(
        if loaded {
            "\u{1f3a8} "
        } else {
            "couldn't load theme '"
        },
    );
    text::push_text(&mut r, name);
    if !loaded {
        text::push_text(&mut r, "'");
    }
    r
}

/// Announce that there are no themes.
pub fn theme_missing(dir: &str) -> (r: String)
    ensures
        r@ == "no themes in "@ + dir@,
{
    let mut r = text::owned("no themes in ");
    text::push_text(&mut r, dir);
    r
}

proof fn lemma_theme_from(themes: Seq<String>, i: int, k: int)
    requires
        0 <= k <= i < themes.len(),
        forall|a: int, b: int|
            0 <= a < b < themes.len() ==> (#[trigger] themes[a])@ != (#[trigger] themes[b])@,
    ensures
        theme_from(themes, themes[i]@, k) == Some(i),
    decreases i - k,
{
    if k < i {
        assert(themes[k]@ != themes[i]@);
        lemma_theme_from(themes, i, k + 1);
    }
}

/// Where no two themes have one name, each turn goes on to the next theme, and
/// from the last to the first.
pub proof fn law_theme_turns(themes: Seq<String>, i: int)
    requires
        0 <= i < themes.len(),
        forall|a: int, b: int|
            0 <= a < b < themes.len() ==> (#[trigger] themes[a])@ != (#[trigger] themes[b])@,
    ensures
        theme_after(themes, Some(themes[i]@)) == if i + 1 < themes.len() {
            i + 1
        } else {
            0
        },
{
    lemma_theme_from(themes, i, 0);
}

/// The profile that is started by default is the first with the name the
/// settings give; where none has it, the first of all.
pub proof fn law_default_profile(profiles: Seq<Profile>, name: Seq<char>)
    ensures
        profiles.len() == 0 <==> default_index(profiles, name) is None,
        default_index(profiles, name) matches Some(i) ==> 0 <= i < profiles.len() && (
        profiles[i].name@ == name && (forall|j: int|
            0 <= j < i ==> (#[trigger] profiles[j]).name@ != name) || i == 0 && forall|j: int|
            0 <= j < profiles.len() ==> (#[trigger] profiles[j]).name@ != name),
{
    lemma_profile_first(profiles, name, 0);
}

proof fn lemma_profile_first(profiles: Seq<Profile>, name: Seq<char>, i: int)
    requires
        0 <= i,
    ensures
        match profile_from(profiles, name, i) {
            Some(k) => i <= k < profiles.len() && profiles[k].name@ == name && forall|j: int|
                i <= j < k ==> (#[trigger] profiles[j]).name@ != name,
            None => forall|j: int| i <= j < profiles.len() ==> (#[trigger] profiles[j]).name@ != name,
        },
    decreases profiles.len() - i,
{
    if i < profiles.len() && profiles[i].name@ != name {
        lemma_profile_first(profiles, name, i + 1);
    }
}

/// The menu shows the shortcut of each of the first nine profiles by its number,
/// counted from one.
pub proof fn law_menu_shows_shortcut(name: Seq<char>, i: int)
    requires
        0 <= i,
    ensures
        i < 9 ==> menu_label(name, i) == name + "\tCtrl+Shift+"@ + seq![(0x31 + i) as char],
        i >= 9 ==> menu_label(name, i) == name,
{
    assert(i < 9 ==> text::decimal((i + 1) as nat) =~= seq![(0x31 + i) as char]);
}

/// What is announced of a theme counts it from one: the last of n is n of n.
pub proof fn law_theme_is_counted(name: Seq<char>, i: int, n: int)
    requires
        0 <= i < n <= 9,
    ensures
        theme_turn(name, i, n) == "\u{1f3a8} "@ + name + "  ("@ + seq![(0x31 + i) as char] + "/"@
            + seq![(0x30 + n) as char] + ")"@,
{
    assert(text::decimal((i + 1) as nat) =~= seq![(0x31 + i) as char]);
    assert(text::decimal(n as nat) =~= seq![(0x30 + n) as char]);
}

/// A theme that is not there any more gives way to the first.
pub proof fn law_lost_theme(themes: Seq<String>, current: Option<Seq<char>>)
    requires
        current matches Some(c) ==> forall|i: int|
            0 <= i < themes.len() ==> (#[trigger] themes[i])@ != c,
    ensures
        theme_after(themes, current) == 0,
{
    if let Some(c) = current {
        lemma_no_theme(themes, c, 0);
    }
}

proof fn lemma_no_theme(themes: Seq<String>, name: Seq<char>, i: int)
    requires
        0 <= i,
        forall|j: int| 0 <= j < themes.len() ==> (#[trigger] themes[j])@ != name,
    ensures
        theme_from(themes, name, i) is None,
    decreases themes.len() - i,
{
    if i < themes.len() {
        assert(themes[i]@ != name);
        lemma_no_theme(themes, name, i + 1);
    }
}

} // verus!
