//! Files dropped onto panes: what the modifier keys ask for, and how paths
//! are quoted for the shell they land in.
use vstd::prelude::*;
use crate::term_pane;
use crate::term_pane::ShellFlavor;
use crate::text;

verus! {

/// What the user asked for with modifier keys.
#[derive(Clone, Copy, PartialEq, Eq, Debug, Structural)]
pub enum DropOp {
    PastePath,
    Copy,
    Move,
}

pub const MK_SHIFT: u32 = 0x4;

pub const MK_CONTROL: u32 = 0x8;

pub const EFFECT_NONE: u32 = 0;

pub const EFFECT_COPY: u32 = 1;

pub const EFFECT_MOVE: u32 = 2;

pub const EFFECT_LINK: u32 = 4;

/// Shift moves, Ctrl copies, anything else pastes the path.
pub open spec fn op_for(keys: u32) -> DropOp {
    if keys & MK_SHIFT != 0 {
        DropOp::Move
    } else if keys & MK_CONTROL != 0 {
        DropOp::Copy
    } else {
        DropOp::PastePath
    }
}

/// The cursor effect of an operation.
pub open spec fn effect_of(op: DropOp) -> u32 {
    match op {
        DropOp::PastePath => EFFECT_LINK,
        DropOp::Copy => EFFECT_COPY,
        DropOp::Move => EFFECT_MOVE,
    }
}

impl DropOp {
    pub fn from_keys(keys: u32) -> (r: DropOp)
        ensures
            r == op_for(keys),
    {
        if keys & MK_SHIFT != 0 {
            DropOp::Move
        } else if keys & MK_CONTROL != 0 {
            DropOp::Copy
        } else {
            DropOp::PastePath
        }
    }

    pub fn effect(self) -> (r: u32)
        ensures
            r == effect_of(self),
    {
        match self {
            DropOp::PastePath => EFFECT_LINK,
            DropOp::Copy => EFFECT_COPY,
            DropOp::Move => EFFECT_MOVE,
        }
    }
}

/// Text with each apostrophe closed, escaped and opened again.
pub open spec fn apostrophes(s: Seq<char>) -> Seq<char>
    decreases s.len(),
{
    if s.len() == 0 {
        Seq::empty()
    } else if s.last() == '\'' {
        apostrophes(s.drop_last()) + "'\\''"@
    } else {
        apostrophes(s.drop_last()).push(s.last())
    }
}

/// Text as one word of a POSIX shell.
pub open spec fn single_quoted(s: Seq<char>) -> Seq<char> {
    seq!['\''] + apostrophes(s) + seq!['\'']
}

/// Where WSL has a path of a Windows drive.
pub open spec fn mounted(p: Seq<char>) -> Seq<char> {
    if p.len() >= 2 && term_pane::is_letter(p[0]) && p[1] == ':' {
        "/mnt/"@ + seq![text::ascii_lower(p[0])] + p.skip(2)
    } else {
        p
    }
}

/// A Windows path as one word of the target shell.
pub open spec fn quoted(path: Seq<char>, flavor: ShellFlavor) -> Seq<char> {
    match flavor {
        ShellFlavor::Windows => seq!['"'] + path + seq!['"'],
        ShellFlavor::Posix => single_quoted(text::replaced(path, '\\', '/')),
        ShellFlavor::Wsl => single_quoted(mounted(text::replaced(path, '\\', '/'))),
    }
}

fn push_single_quoted(out: &mut String, s: &[char])
    ensures
        final(out)@ == old(out)@ + single_quoted(s@),
{
    out.push('\'');
    let mut i: usize = 0;
    while i < s.len()
        invariant
            i <= s@.len(),
            out@ == old(out)@ + seq!['\''] + apostrophes(s@.take(i as int)),
        decreases s@.len() - i,
    {
        assert(s@.take(i + 1).drop_last() =~= s@.take(i as int));
        if s[i] == '\'' {
            text::push_text(out, "'\\''");
        } else {
            out.push(s[i]);
        }
        i += 1;
        assert(out@ =~= old(out)@ + seq!['\''] + apostrophes(s@.take(i as int)));
    }
    assert(s@.take(i as int) =~= s@);
    out.push('\'');
    assert(out@ =~= old(out)@ + single_quoted(s@));
}

fn mount(p: &[char]) -> (r: Vec<char>)
    ensures
        r@ == mounted(p@),
{
    let n: usize = p.len();
    if n >= 2 && (('a' <= p[0] && p[0] <= 'z') || ('A' <= p[0] && p[0] <= 'Z')) && p[1] == ':' {
        let mut r = text::chars_of("/mnt/");
        r.push(text::to_lower(p[0]));
        let mut i: usize = 2;
        while i < n
            invariant
                2 <= i <= n == p@.len(),
                r@ == "/mnt/"@ + seq![text::ascii_lower(p@[0])] + p@.subrange(2, i as int),
            decreases n - i,
        {
            r.push(p[i]);
            i += 1;
            assert(r@ =~= "/mnt/"@ + seq![text::ascii_lower(p@[0])] + p@.subrange(2, i as int));
        }
        assert(p@.subrange(2, n as int) =~= p@.skip(2));
        r
    } else {
        vstd::slice::slice_to_vec(p)
    }
}

/// Quote a Windows path for the target shell.
pub fn quote_path(path: &str, flavor: ShellFlavor) -> (r: String)
    ensures
        r@ == quoted(path@, flavor),
{
    let mut out = String::new();
    match flavor {
        ShellFlavor::Windows => {
            out.push('"');
            text::push_text(&mut out, path);
            out.push('"');
        },
        ShellFlavor::Posix => {
            let p = text::replace_char(text::chars_of(path).as_slice(), '\\', '/');
            push_single_quoted(&mut out, p.as_slice());
        },
        ShellFlavor::Wsl => {
            let p = text::replace_char(text::chars_of(path).as_slice(), '\\', '/');
            push_single_quoted(&mut out, mount(p.as_slice()).as_slice());
        },
    }
    assert(out@ =~= quoted(path@, flavor));
    out
}

/// The first `n` paths, quoted, each with a space behind it.
pub open spec fn quoted_all(paths: Seq<String>, flavor: ShellFlavor, n: int) -> Seq<char>
    decreases n,
{
    if n <= 0 || n > paths.len() {
        Seq::empty()
    } else {
        quoted_all(paths, flavor, n - 1) + quoted(paths[n - 1]@, flavor) + seq![' ']
    }
}

fn drop_text(paths: &Vec<String>, flavor: ShellFlavor) -> (r: String)
    ensures
        r@ == quoted_all(paths@, flavor, paths@.len() as int),
{
    let mut r = String::new();
    let mut i: usize = 0;
    while i < paths.len()
        invariant
            i <= paths@.len(),
            r@ == quoted_all(paths@, flavor, i as int),
        decreases paths@.len() - i,
    {
        let q = quote_path(paths[i].as_str(), flavor);
        text::push_text(&mut r, q.as_str());
        r.push(' ');
        i += 1;
        assert(r@ =~= quoted_all(paths@, flavor, i as int));
    }
    r
}

/// What files are dropped on.
pub enum DropOn {
    Nothing,
    Browser,
    /// A shell, and whether its directory is known.
    Shell { flavor: ShellFlavor, known: bool },
}

/// What a drop would do at a place: a browser opens the file; a shell whose
/// directory is not known gets the path instead of a copy.
pub open spec fn effect_at(on: DropOn, op: DropOp) -> u32 {
    match on {
        DropOn::Nothing => EFFECT_NONE,
        DropOn::Browser => EFFECT_COPY,
        DropOn::Shell { known, .. } => if known {
            effect_of(op)
        } else {
            EFFECT_LINK
        },
    }
}

/// Drop feedback.
pub fn drop_effect(on: &DropOn, op: DropOp) -> (r: u32)
    ensures
        r == effect_at(*on, op),
{
    match on {
        DropOn::Nothing => EFFECT_NONE,
        DropOn::Browser => EFFECT_COPY,
        DropOn::Shell { flavor: _, known } => if *known {
            op.effect()
        } else {
            EFFECT_LINK
        },
    }
}

/// What a completed drop does.
pub enum Dropped {
    Nothing,
    /// Go to an address.
    Navigate(String),
    /// Type text into the shell.
    Type(String),
    /// Copy, or move, the files to a directory.
    Transfer { dest: String, cut: bool },
}

/// The drop, as a value.
pub enum DropResult {
    Nothing,
    Navigate(Seq<char>),
    Type(Seq<char>),
    Transfer { dest: Seq<char>, cut: bool },
}

impl View for Dropped {
    type V = DropResult;

    open spec fn view(&self) -> DropResult {
        match self {
            Dropped::Nothing => DropResult::Nothing,
            Dropped::Navigate(u) => DropResult::Navigate(u@),
            Dropped::Type(t) => DropResult::Type(t@),
            Dropped::Transfer { dest, cut } => DropResult::Transfer { dest: dest@, cut: *cut },
        }
    }
}

/// A browser goes to the first file. A shell gets the paths typed, or the files
/// copied or moved to its directory; where that is not known, the paths again.
pub open spec fn drop_result(
    on: DropOn,
    paths: Seq<String>,
    op: DropOp,
    cwd: Option<Seq<char>>,
) -> DropResult {
    match on {
        DropOn::Nothing => DropResult::Nothing,
        DropOn::Browser => DropResult::Navigate(
            "file:///"@ + text::replaced(paths[0]@, '\\', '/'),
        ),
        DropOn::Shell { flavor, .. } => match cwd {
            Some(dest) if op != DropOp::PastePath => DropResult::Transfer {
                dest,
                cut: op == DropOp::Move,
            },
            _ => DropResult::Type(quoted_all(paths, flavor, paths.len() as int)),
        },
    }
}

/// Execute a drop of files, as far as it can be decided here.
pub fn dropped(on: &DropOn, paths: &Vec<String>, op: DropOp, cwd: Option<String>) -> (r: Dropped)
    requires
        paths@.len() > 0,
    ensures
        r@ == drop_result(*on, paths@, op, term_pane::opt_chars(cwd)),
{
    match on {
        DropOn::Nothing => Dropped::Nothing,
        DropOn::Browser => {
            let p = text::replace_char(text::chars_of(paths[0].as_str()).as_slice(), '\\', '/');
            let mut url = text::owned("file:///");
            text::push_chars(&mut url, p.as_slice());
            Dropped::Navigate(url)
        },
        DropOn::Shell { flavor, known: _ } => match (cwd, op) {
            (Some(dest), DropOp::Copy) => Dropped::Transfer { dest, cut: false },
            (Some(dest), DropOp::Move) => Dropped::Transfer { dest, cut: true },
            _ => Dropped::Type(drop_text(paths, *flavor)),
        },
    }
}

/// The feedback says what the drop then does: nothing, a copy, a move, or a
/// path that is typed.
pub proof fn law_feedback_is_true(
    on: DropOn,
    paths: Seq<String>,
    op: DropOp,
    cwd: Option<Seq<char>>,
)
    requires
        on matches DropOn::Shell { known, .. } ==> known == (cwd is Some),
    ensures
        effect_at(on, op) == (match drop_result(on, paths, op, cwd) {
            DropResult::Nothing => EFFECT_NONE,
            DropResult::Navigate(_) => EFFECT_COPY,
            DropResult::Type(_) => EFFECT_LINK,
            DropResult::Transfer { cut, .. } => if cut {
                EFFECT_MOVE
            } else {
                EFFECT_COPY
            },
        }),
{
}

/// What a POSIX shell makes of text as one word: quotes are taken off, and a
/// backslash outside of them stands for the character behind it. None where it
/// is not one word, or its quotes do not end.
pub open spec fn word_read(s: Seq<char>, in_quotes: bool) -> Option<Seq<char>>
    decreases s.len(),
{
    if s.len() == 0 {
        if in_quotes {
            None
        } else {
            Some(Seq::empty())
        }
    } else if s[0] == '\'' {
        word_read(s.drop_first(), !in_quotes)
    } else if in_quotes {
        behind(s[0], word_read(s.drop_first(), true))
    } else if s[0] == '\\' && s.len() > 1 {
        behind(s[1], word_read(s.skip(2), false))
    } else {
        None
    }
}

pub open spec fn behind(c: char, rest: Option<Seq<char>>) -> Option<Seq<char>> {
    match rest {
        Some(t) => Some(seq![c] + t),
        None => None,
    }
}

pub open spec fn all_behind(s: Seq<char>, rest: Option<Seq<char>>) -> Option<Seq<char>> {
    match rest {
        Some(t) => Some(s + t),
        None => None,
    }
}

proof fn lemma_char_read(c: char, tail: Seq<char>)
    ensures
        c != '\'' ==> word_read(seq![c] + tail, true) == behind(c, word_read(tail, true)),
        word_read("'\\''"@ + tail, true) == behind('\'', word_read(tail, true)),
{
    reveal_strlit("'\\''");
    assert((seq![c] + tail).drop_first() =~= tail);
    let s = "'\\''"@ + tail;
    let s1 = s.drop_first();
    assert(s1[0] == '\\' && s1[1] == '\'');
    let s2 = s1.skip(2);
    assert(s2[0] == '\'');
    assert(s2.drop_first() =~= tail);
    assert(word_read(s2, false) == word_read(tail, true));
    assert(word_read(s1, false) == behind('\'', word_read(s2, false)));
}

proof fn lemma_quoted_read(s: Seq<char>, tail: Seq<char>)
    ensures
        word_read(apostrophes(s) + tail, true) == all_behind(s, word_read(tail, true)),
    decreases s.len(),
{
    let rest = word_read(tail, true);
    if s.len() == 0 {
        assert(apostrophes(s) + tail =~= tail);
        if let Some(t) = rest {
            assert(s + t =~= t);
        }
    } else {
        let init = s.drop_last();
        let c = s.last();
        lemma_char_read(c, tail);
        if c == '\'' {
            assert(apostrophes(s) + tail =~= apostrophes(init) + ("'\\''"@ + tail));
            lemma_quoted_read(init, "'\\''"@ + tail);
        } else {
            assert(apostrophes(s) + tail =~= apostrophes(init) + (seq![c] + tail));
            lemma_quoted_read(init, seq![c] + tail);
        }
        if let Some(t) = rest {
            assert(init + (seq![c] + t) =~= s + t);
        }
    }
}

/// A path that is dropped on a POSIX shell reaches it as one word that spells
/// the path, whatever characters it has.
pub proof fn law_dropped_path_is_read_back(path: Seq<char>)
    ensures
        word_read(quoted(path, ShellFlavor::Posix), false) == Some(
            text::replaced(path, '\\', '/'),
        ),
        word_read(quoted(path, ShellFlavor::Wsl), false) == Some(
            mounted(text::replaced(path, '\\', '/')),
        ),
{
    lemma_single_quoted(text::replaced(path, '\\', '/'));
    lemma_single_quoted(mounted(text::replaced(path, '\\', '/')));
}

proof fn lemma_single_quoted(s: Seq<char>)
    ensures
        word_read(single_quoted(s), false) == Some(s),
{
    let end = seq!['\''];
    let q = single_quoted(s);
    assert(q.drop_first() =~= apostrophes(s) + end);
    lemma_quoted_read(s, end);
    assert(end.drop_first() =~= Seq::<char>::empty());
    assert(word_read(end.drop_first(), false) == Some(Seq::<char>::empty()));
    assert(word_read(end, true) == Some(Seq::<char>::empty()));
    assert(s + Seq::<char>::empty() =~= s);
}

/// What the keys held while dropping ask for: Shift moves, whatever else is held;
/// Ctrl copies; without them the path is typed. The cursor shows it.
pub proof fn law_keys_of_drop(keys: u32)
    ensures
        keys & 0x4 != 0 ==> op_for(keys) == DropOp::Move && effect_of(op_for(keys)) == 2,
        keys & 0x4 == 0 && keys & 0x8 != 0 ==> op_for(keys) == DropOp::Copy && effect_of(
            op_for(keys),
        ) == 1,
        keys & 0x4 == 0 && keys & 0x8 == 0 ==> op_for(keys) == DropOp::PastePath && effect_of(
            op_for(keys),
        ) == 4,
{
}

/// A browser opens the first file dropped on it. A shell with a known directory
/// gets the files copied or moved there when asked to; else it gets the paths
/// typed. Nothing comes of a drop elsewhere.
pub proof fn law_drop_goes(
    flavor: ShellFlavor,
    known: bool,
    paths: Seq<String>,
    op: DropOp,
    cwd: Option<Seq<char>>,
)
    requires
        paths.len() > 0,
    ensures
        drop_result(DropOn::Nothing, paths, op, cwd) == DropResult::Nothing,
        drop_result(DropOn::Browser, paths, op, cwd) matches DropResult::Navigate(u)
            && text::stands_at(u, "file:///"@, 0) && u.len() == 8 + paths[0]@.len() && forall|i: int|
            0 <= i < paths[0]@.len() ==> #[trigger] u[8 + i] == (if paths[0]@[i] == '\\' {
                '/'
            } else {
                paths[0]@[i]
            }),
        ({
            let on = DropOn::Shell { flavor, known };
            let r = drop_result(on, paths, op, cwd);
            &&& op == DropOp::Copy && cwd is Some ==> r == (DropResult::Transfer {
                dest: cwd->0,
                cut: false,
            })
            &&& op == DropOp::Move && cwd is Some ==> r == (DropResult::Transfer {
                dest: cwd->0,
                cut: true,
            })
            &&& op == DropOp::PastePath || cwd is None ==> r is Type
        }),
{
    reveal_strlit("file:///");
    let u = "file:///"@ + text::replaced(paths[0]@, '\\', '/');
    assert(u.subrange(0, 8) =~= "file:///"@);
}

/// The paths are typed one behind the other, each as the shell takes it and with
/// a space behind it.
pub proof fn law_paths_are_typed_in_turn(paths: Seq<String>, flavor: ShellFlavor, more: String)
    ensures
        ({
            let all = paths.push(more);
            quoted_all(all, flavor, all.len() as int) == quoted_all(
                paths,
                flavor,
                paths.len() as int,
            ) + quoted(more@, flavor) + seq![' ']
        }),
        quoted_all(Seq::empty(), flavor, 0) == Seq::<char>::empty(),
{
    let all = paths.push(more);
    lemma_quoted_prefix(paths, more, flavor, paths.len() as int);
    assert(all[paths.len() as int] == more);
}

proof fn lemma_quoted_prefix(paths: Seq<String>, more: String, flavor: ShellFlavor, n: int)
    requires
        0 <= n <= paths.len(),
    ensures
        quoted_all(paths.push(more), flavor, n) == quoted_all(paths, flavor, n),
    decreases n,
{
    if n > 0 {
        lemma_quoted_prefix(paths, more, flavor, n - 1);
        assert(paths.push(more)[n - 1] == paths[n - 1]);
    }
}

/// A shell of Windows gets a path in double quotes, as it is. WSL has a drive
/// under /mnt, by its small letter, and slashes for backslashes.
pub proof fn law_path_for_shell(path: Seq<char>, d: char, low: char, rest: Seq<char>)
    requires
        'a' <= low <= 'z',
        d == low || d as u32 == low as u32 - 32,
        path == seq![d, ':', '\\'] + rest,
    ensures
        quoted(path, ShellFlavor::Windows) == seq!['"'] + path + seq!['"'],
        word_read(quoted(path, ShellFlavor::Wsl), false) == Some(
            "/mnt/"@ + seq![low, '/'] + text::replaced(rest, '\\', '/'),
        ),
        word_read(quoted(path, ShellFlavor::Posix), false) == Some(
            seq![d, ':', '/'] + text::replaced(rest, '\\', '/'),
        ),
{
    law_dropped_path_is_read_back(path);
    let p = text::replaced(path, '\\', '/');
    assert(p =~= seq![d, ':', '/'] + text::replaced(rest, '\\', '/'));
    assert(text::ascii_lower(d) == low);
    assert(mounted(p) =~= "/mnt/"@ + seq![low, '/'] + text::replaced(rest, '\\', '/'));
}

} // verus!
