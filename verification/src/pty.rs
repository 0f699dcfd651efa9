//! What a shell is started with, and how its directory is read.
use vstd::prelude::*;
use vstd::slice::*;
use crate::config::copy_words;
use crate::text;

verus! {

/// How to start a shell.
pub struct Launch {
    pub program: String,
    pub args: Vec<String>,
    /// Where it starts; None leaves it to the system.
    pub cwd: Option<String>,
    pub env: Vec<(String, String)>,
}

/// A variable's name and value.
pub open spec fn pair(p: (String, String)) -> (Seq<char>, Seq<char>) {
    (p.0@, p.1@)
}

/// Plan the start of `command`, in `cwd` or else in the user's home, with the
/// variables that terminals set and `extra` on top. None for no command.
pub fn launch(
    command: &Vec<String>,
    cwd: Option<String>,
    home: Option<String>,
    extra: Vec<(String, String)>,
) -> (r: Option<Launch>)
    ensures
        command@.len() == 0 <==> r is None,
        r matches Some(l) ==> {
            &&& l.program == command@[0]
            &&& l.args@ == command@.skip(1)
            &&& l.cwd == (if cwd is Some {
                cwd
            } else {
                home
            })
            &&& l.env@.len() == 2 + extra@.len()
            &&& pair(l.env@[0]) == ("TERM"@, "xterm-256color"@)
            &&& pair(l.env@[1]) == ("COLORTERM"@, "truecolor"@)
            &&& l.env@.skip(2) == extra@
        },
{
    if command.len() == 0 {
        return None;
    }
    let mut args = copy_words(command);
    let program = args.remove(0);
    assert(args@ =~= command@.skip(1));
    let mut env: Vec<(String, String)> = Vec::new();
    env.push((text::owned("TERM"), text::owned("xterm-256color")));
    env.push((text::owned("COLORTERM"), text::owned("truecolor")));
    let mut extra = extra;
    let ghost first = env@;
    let ghost more = extra@;
    env.append(&mut extra);
    assert(env@ =~= first + more);
    assert(env@.skip(2) =~= more);
    let dir = match cwd {
        Some(d) => Some(d),
        None => home,
    };
    Some(Launch { program, args, cwd: dir, env })
}

/// A path without the backslashes at its end.
pub open spec fn no_backslashes(s: Seq<char>) -> Seq<char>
    decreases s.len(),
{
    if s.len() > 0 && s.last() == '\\' {
        no_backslashes(s.drop_last())
    } else {
        s
    }
}

/// The directory of a process, as it is used: the record of the system ends
/// in a backslash, which only a drive's root keeps.
pub open spec fn tidy(s: Seq<char>) -> Seq<char> {
    if vstd::utf8::encode_utf8(s).len() > 3 {
        no_backslashes(s)
    } else {
        s
    }
}

pub fn tidy_cwd(s: &str) -> (r: String)
    ensures
        r@ == tidy(s@),
{
    let all = text::chars_of(s);
    if s.as_bytes().len() <= 3 {
        return text::string_of(all.as_slice());
    }
    let n: usize = all.len();
    let mut j: usize = n;
    assert(s@.take(n as int) =~= s@);
    while j > 0 && all[j - 1] == '\\'
        invariant
            j <= n == all@.len(),
            all@ == s@,
            no_backslashes(s@) == no_backslashes(s@.take(j as int)),
        decreases j,
    {
        assert(s@.take(j as int).drop_last() =~= s@.take(j - 1));
        j -= 1;
    }
    let part = slice_subrange(all.as_slice(), 0, j);
    assert(part@ =~= s@.take(j as int));
    text::string_of(part)
}

/// Whether a recorded path of `length` bytes is one to read: not empty and no
/// longer than 4096 characters.
pub fn path_length_ok(length: u16) -> (r: bool)
    ensures
        r == (1 <= length / 2 <= 4096),
{
    let chars: u16 = length / 2;
    chars != 0 && chars <= 4096
}

/// The directory of a process has no backslash at its end, unless it is the root
/// of a drive, which keeps it.
pub proof fn law_tidy_directory(s: Seq<char>, n: nat, d: char)
    requires
        s.len() > 0,
        s.last() != '\\',
        vstd::utf8::encode_utf8(s + tail(n)).len() > 3,
    ensures
        tidy(s + tail(n)) == s,
        vstd::utf8::encode_utf8(seq![d, ':', '\\']).len() <= 3 ==> tidy(seq![d, ':', '\\']) == seq![
            d,
            ':',
            '\\',
        ],
{
    lemma_no_tail(s, n);
}

/// So many backslashes.
pub open spec fn tail(n: nat) -> Seq<char> {
    Seq::new(n, |i: int| '\\')
}

proof fn lemma_no_tail(s: Seq<char>, n: nat)
    requires
        s.len() > 0,
        s.last() != '\\',
    ensures
        no_backslashes(s + tail(n)) == s,
    decreases n,
{
    if n > 0 {
        lemma_no_tail(s, (n - 1) as nat);
        assert((s + tail(n)).last() == '\\');
        assert((s + tail(n)).drop_last() =~= s + tail((n - 1) as nat));
    } else {
        assert(s + tail(n) =~= s);
    }
}

} // verus!
