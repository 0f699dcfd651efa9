//! A terminal pane: what its output stream reports about the shell (working
//! directory, prompts, pictures), and how the pane answers the emulator.
use vstd::prelude::*;
use vstd::slice::*;
use crate::images;
use crate::text;

verus! {

/// What kind of shell lives in the pane: drives path quoting for drag and
/// drop, and whether the working directory of its process is meaningful.
#[derive(Clone, Copy, PartialEq, Eq, Debug, Structural)]
pub enum ShellFlavor {
    /// pwsh / powershell / cmd: "C:\path" quoting.
    Windows,
    /// git-bash and friends: 'C:/path' quoting.
    Posix,
    /// WSL: '/mnt/c/path' quoting; the directory lives inside Linux.
    Wsl,
}

/// The name of a command's program, in lower case.
pub open spec fn program_name(command: Seq<String>) -> Seq<char> {
    if command.len() == 0 {
        Seq::empty()
    } else {
        text::lowered(text::base_name(command[0]@))
    }
}

pub open spec fn flavor_of(command: Seq<String>) -> ShellFlavor {
    let exe = program_name(command);
    if text::stands_at(exe, "wsl"@, 0) {
        ShellFlavor::Wsl
    } else if text::holds(exe, "bash"@) || exe == "sh.exe"@ || text::holds(exe, "zsh"@)
        || text::holds(exe, "fish"@) {
        ShellFlavor::Posix
    } else {
        ShellFlavor::Windows
    }
}

impl ShellFlavor {
    pub fn of(command: &[String]) -> (r: ShellFlavor)
        ensures
            r == flavor_of(command@),
    {
        let exe: Vec<char> = if command.len() == 0 {
            Vec::new()
        } else {
            let path = text::chars_of(command[0].as_str());
            text::to_lower_all(text::base_of(path.as_slice()))
        };
        assert(exe@ =~= program_name(command@));
        let name = exe.as_slice();
        if text::begins(name, "wsl") {
            ShellFlavor::Wsl
        } else if text::has_text(name, "bash") || text::same_chars(
            name,
            text::chars_of("sh.exe").as_slice(),
        ) || text::has_text(name, "zsh") || text::has_text(name, "fish") {
            ShellFlavor::Posix
        } else {
            ShellFlavor::Windows
        }
    }
}

/// The word after the first `-d` or `--distribution` of a command.
pub open spec fn distro_from(command: Seq<String>, i: int) -> Option<Seq<char>>
    decreases command.len() - i,
{
    if i < 0 || i >= command.len() {
        None
    } else if command[i]@ == "-d"@ || command[i]@ == "--distribution"@ {
        if i + 1 < command.len() {
            Some(command[i + 1]@)
        } else {
            None
        }
    } else {
        distro_from(command, i + 1)
    }
}

/// The distro that a `wsl.exe -d <name>` command targets.
pub fn wsl_distro_of(command: &[String]) -> (r: Option<String>)
    ensures
        match r {
            Some(s) => distro_from(command@, 0) == Some(s@),
            None => distro_from(command@, 0) is None,
        },
{
    let mut i: usize = 0;
    while i < command.len()
        invariant
            i <= command@.len(),
            distro_from(command@, 0) == distro_from(command@, i as int),
        decreases command@.len() - i,
    {
        let a = command[i].as_str();
        if text::same(a, "-d") || text::same(a, "--distribution") {
            return if i + 1 < command.len() {
                Some(command[i + 1].clone())
            } else {
                None
            };
        }
        i += 1;
    }
    None
}

/// What `String::from_utf8_lossy` makes of bytes.
pub uninterp spec fn lossy_text(bytes: Seq<u8>) -> Seq<char>;

/// `String::from_utf8_lossy`: well-formed UTF-8 is read as it is; elsewhere
/// the text has replacement characters for what is not.
#[verifier::external_body]
pub(crate) fn read_lossy(bytes: &[u8]) -> (r: String)
    ensures
        r@ == lossy_text(bytes@),
        vstd::utf8::valid_utf8(bytes@) ==> r@ == vstd::utf8::decode_utf8(bytes@),
{
    String::from_utf8_lossy(bytes).into_owned()
}

/// Whether `ESC ] 7 ;` stands at index `i`.
pub open spec fn osc7_opens(s: Seq<u8>, i: int) -> bool {
    s[i] == 0x1b && s[i + 1] == 0x5d && s[i + 2] == 0x37 && s[i + 3] == 0x3b
}

/// The payload of the last complete OSC 7 sequence from index `i` on. One that
/// runs into an escape that does not end it is none, and the next one may start
/// with that escape.
pub open spec fn osc7_last(s: Seq<u8>, i: int) -> Option<Seq<u8>>
    decreases s.len() - i,
{
    if i < 0 || i + 4 >= s.len() {
        None
    } else if osc7_opens(s, i) {
        match images::terminator_from(s, i + 4) {
            Some((end, skip)) => {
                proof {
                    images::lemma_terminator_from(s, i + 4);
                }
                if s[end] == 0x07 || skip == 2 {
                    match osc7_last(s, end + skip) {
                        Some(later) => Some(later),
                        None => Some(s.subrange(i + 4, end)),
                    }
                } else {
                    osc7_last(s, end)
                }
            },
            None => None,
        }
    } else {
        osc7_last(s, i + 1)
    }
}

/// The last complete OSC 7 payload of a chunk, as bytes.
fn find_osc7(bytes: &[u8]) -> (r: Option<(usize, usize)>)
    ensures
        match r {
            Some((a, b)) => a <= b <= bytes@.len() && osc7_last(bytes@, 0) == Some(
                bytes@.subrange(a as int, b as int),
            ),
            None => osc7_last(bytes@, 0) is None,
        },
{
    let n: usize = bytes.len();
    let mut found: Option<(usize, usize)> = None;
    let mut i: usize = 0;
    while i < n && n - i > 4
        invariant
            i <= n == bytes@.len(),
            match found {
                Some((a, b)) => a <= b <= n && osc7_last(bytes@, 0) == (match osc7_last(
                    bytes@,
                    i as int,
                ) {
                    Some(later) => Some(later),
                    None => Some(bytes@.subrange(a as int, b as int)),
                }),
                None => osc7_last(bytes@, 0) == osc7_last(bytes@, i as int),
            },
        decreases n - i,
    {
        if bytes[i] == 0x1b && bytes[i + 1] == 0x5d && bytes[i + 2] == 0x37 && bytes[i + 3]
            == 0x3b {
            let start: usize = i + 4;
            let mut j: usize = start;
            while j < n && bytes[j] != 0x07 && bytes[j] != 0x1b
                invariant
                    start <= j <= n == bytes@.len(),
                    images::terminator_from(bytes@, start as int) == images::terminator_from(
                        bytes@,
                        j as int,
                    ),
                decreases n - j,
            {
                j += 1;
            }
            if j == n {
                return found;
            }
            if bytes[j] == 0x07 {
                found = Some((start, j));
                i = j + 1;
            } else if n - j > 1 && bytes[j + 1] == 0x5c {
                found = Some((start, j));
                i = j + 2;
            } else {
                i = j;
            }
        } else {
            i += 1;
        }
    }
    found
}

/// The last OSC 7 report in a chunk: `ESC ] 7 ; <url> (BEL | ESC \)`.
pub fn scan_osc7(bytes: &[u8]) -> (r: Option<String>)
    ensures
        match osc7_last(bytes@, 0) {
            Some(p) => r is Some && r->0@ == lossy_text(p) && (vstd::utf8::valid_utf8(p)
                ==> r->0@ == vstd::utf8::decode_utf8(p)),
            None => r is None,
        },
{
    match find_osc7(bytes) {
        Some((a, b)) => Some(read_lossy(slice_subrange(bytes, a, b))),
        None => None,
    }
}

/// The value of a hexadecimal digit.
pub open spec fn hex_value(b: u8) -> Option<int> {
    if 0x30 <= b <= 0x39 {
        Some(b - 0x30)
    } else if 0x41 <= b <= 0x46 {
        Some(b - 0x41 + 10)
    } else if 0x61 <= b <= 0x66 {
        Some(b - 0x61 + 10)
    } else {
        None
    }
}

/// The byte that two characters after `%` stand for: two hexadecimal digits,
/// the first of which may be a plus sign.
pub open spec fn hex_pair(a: u8, b: u8) -> Option<int> {
    match hex_value(b) {
        Some(low) => match hex_value(a) {
            Some(high) => Some(high * 16 + low),
            None => if a == 0x2b {
                Some(low)
            } else {
                None
            },
        },
        None => None,
    }
}

/// Bytes with each `%XX` replaced by the byte it stands for, from index `i`
/// on.
pub open spec fn percent_bytes(s: Seq<u8>, i: int) -> Seq<u8>
    decreases s.len() - i,
{
    if i < 0 || i >= s.len() {
        Seq::empty()
    } else if s[i] == 0x25 && i + 2 < s.len() && hex_pair(s[i + 1], s[i + 2]) is Some {
        seq![hex_pair(s[i + 1], s[i + 2])->0 as u8] + percent_bytes(s, i + 3)
    } else {
        seq![s[i]] + percent_bytes(s, i + 1)
    }
}

fn hex_digit(b: u8) -> (r: Option<u8>)
    ensures
        match r {
            Some(v) => hex_value(b) == Some(v as int) && v < 16,
            None => hex_value(b) is None,
        },
{
    if 0x30 <= b && b <= 0x39 {
        Some(b - 0x30)
    } else if 0x41 <= b && b <= 0x46 {
        Some(b - 0x41 + 10)
    } else if 0x61 <= b && b <= 0x66 {
        Some(b - 0x61 + 10)
    } else {
        None
    }
}

fn hex_byte(a: u8, b: u8) -> (r: Option<u8>)
    ensures
        match r {
            Some(v) => hex_pair(a, b) == Some(v as int),
            None => hex_pair(a, b) is None,
        },
{
    match hex_digit(b) {
        Some(low) => match hex_digit(a) {
            Some(high) => Some(high * 16 + low),
            None => if a == 0x2b {
                Some(low)
            } else {
                None
            },
        },
        None => None,
    }
}

/// The bytes of text with its percent escapes resolved.
fn unescape(b: &[u8]) -> (out: Vec<u8>)
    ensures
        out@ == percent_bytes(b@, 0),
{
    let n: usize = b.len();
    let mut out: Vec<u8> = Vec::new();
    let mut i: usize = 0;
    assert(out@ + percent_bytes(b@, 0) =~= percent_bytes(b@, 0));
    while i < n
        invariant
            i <= n == b@.len(),
            out@ + percent_bytes(b@, i as int) == percent_bytes(b@, 0),
        decreases n - i,
    {
        let ghost before = out@;
        let escaped = if b[i] == 0x25 && n - i > 2 {
            hex_byte(b[i + 1], b[i + 2])
        } else {
            None
        };
        match escaped {
            Some(v) => {
                out.push(v);
                assert(out@ + percent_bytes(b@, i + 3) =~= before + percent_bytes(b@, i as int));
                i += 3;
            },
            None => {
                out.push(b[i]);
                assert(out@ + percent_bytes(b@, i + 1) =~= before + percent_bytes(b@, i as int));
                i += 1;
            },
        }
    }
    assert(out@ =~= out@ + percent_bytes(b@, i as int));
    out
}

/// Text with its percent escapes resolved.
pub fn percent_decode(s: &str) -> (r: String)
    ensures
        r@ == lossy_text(percent_bytes(vstd::utf8::encode_utf8(s@), 0)),
        vstd::utf8::valid_utf8(percent_bytes(vstd::utf8::encode_utf8(s@), 0)) ==> r@
            == vstd::utf8::decode_utf8(percent_bytes(vstd::utf8::encode_utf8(s@), 0)),
{
    let bytes = unescape(s.as_bytes());
    read_lossy(&bytes)
}

pub open spec fn is_letter(c: char) -> bool {
    'a' <= c <= 'z' || 'A' <= c <= 'Z'
}

/// A letter of ASCII in upper case.
pub open spec fn ascii_upper(c: char) -> char {
    if 'a' <= c <= 'z' {
        (c as u32 - 32) as char
    } else {
        c
    }
}

/// Text without `p` in front, where it has it.
pub open spec fn without_front(s: Seq<char>, p: Seq<char>) -> Seq<char> {
    if text::stands_at(s, p, 0) {
        s.skip(p.len() as int)
    } else {
        s
    }
}

/// The Windows path for the decoded path of a file URL: `/C:/x` is native,
/// `/c/x` and `/cygdrive/c/x` name a drive, and any other path is reachable
/// only as a share of the WSL distro it lives in.
pub open spec fn windows_path(
    path: Seq<char>,
    flavor: ShellFlavor,
    distro: Option<Seq<char>>,
) -> Option<Seq<char>> {
    let native = without_front(path, "/"@);
    let drive = without_front(path, "/cygdrive"@);
    if native.len() >= 2 && native[0] <= '\u{7f}' && native[1] == ':' {
        Some(text::replaced(native, '/', '\\'))
    } else if drive.len() >= 2 && drive[0] == '/' && is_letter(drive[1]) && (drive.len() == 2
        || drive[2] == '/') {
        Some(seq![ascii_upper(drive[1]), ':'] + text::replaced(drive.skip(2), '/', '\\'))
    } else if flavor == ShellFlavor::Wsl && distro is Some {
        Some("\\\\wsl$\\"@ + distro->0 + text::replaced(path, '/', '\\'))
    } else {
        None
    }
}

/// `windows_path` of a decoded path.
pub fn decoded_to_windows_path(path: &str, flavor: ShellFlavor, wsl_distro: Option<&str>) -> (r:
    Option<String>)
    ensures
        ({
            let distro = match wsl_distro {
                Some(d) => Some(d@),
                None => None,
            };
            match r {
                Some(s) => windows_path(path@, flavor, distro) == Some(s@),
                None => windows_path(path@, flavor, distro) is None,
            }
        }),
{
    proof {
        reveal_strlit("/");
        reveal_strlit("/cygdrive");
    }
    let all = text::chars_of(path);
    let p = all.as_slice();
    let n: usize = p.len();
    let native = if text::begins(p, "/") {
        slice_subrange(p, 1, n)
    } else {
        p
    };
    assert(native@ =~= without_front(path@, "/"@));
    if native.len() >= 2 && native[0] <= '\u{7f}' && native[1] == ':' {
        let swapped = text::replace_char(native, '/', '\\');
        return Some(text::string_of(swapped.as_slice()));
    }
    let drive = if text::begins(p, "/cygdrive") {
        slice_subrange(p, 9, n)
    } else {
        p
    };
    assert(drive@ =~= without_front(path@, "/cygdrive"@));
    let m: usize = drive.len();
    if m >= 2 && drive[0] == '/' && (('a' <= drive[1] && drive[1] <= 'z') || ('A' <= drive[1]
        && drive[1] <= 'Z')) && (m == 2 || drive[2] == '/') {
        let mut s = String::new();
        let c = drive[1];
        let letter = if 'a' <= c && c <= 'z' {
            ((c as u8) - 32) as char
        } else {
            c
        };
        s.push(letter);
        s.push(':');
        let tail = text::replace_char(slice_subrange(drive, 2, m), '/', '\\');
        text::push_chars(&mut s, tail.as_slice());
        proof {
            assert(drive@.subrange(2, m as int) =~= drive@.skip(2));
            assert(s@ =~= seq![ascii_upper(c), ':'] + text::replaced(drive@.skip(2), '/', '\\'));
        }
        return Some(s);
    }
    match (flavor, wsl_distro) {
        (ShellFlavor::Wsl, Some(d)) => {
            let mut s = String::new();
            text::push_text(&mut s, "\\\\wsl$\\");
            text::push_text(&mut s, d);
            let tail = text::replace_char(p, '/', '\\');
            text::push_chars(&mut s, tail.as_slice());
            assert(s@ =~= "\\\\wsl$\\"@ + d@ + text::replaced(path@, '/', '\\'));
            Some(s)
        },
        _ => None,
    }
}

/// The encoded path of a `file://host/path` URL, its slash in front.
pub open spec fn url_path(url: Seq<char>) -> Option<Seq<char>> {
    if !text::stands_at(url, "file://"@, 0) {
        None
    } else {
        let rest = url.skip(7);
        let slash = text::char_pos(rest, '/');
        if slash < rest.len() {
            Some(rest.skip(slash))
        } else {
            None
        }
    }
}

/// Translate an OSC 7 file URL into a path that Windows file APIs accept.
pub fn osc7_to_windows_path(url: &str, flavor: ShellFlavor, wsl_distro: Option<&str>) -> (r: Option<
    String,
>)
    ensures
        ({
            let distro = match wsl_distro {
                Some(d) => Some(d@),
                None => None,
            };
            match url_path(url@) {
                None => r is None,
                Some(p) => {
                    let bytes = percent_bytes(vstd::utf8::encode_utf8(p), 0);
                    &&& match r {
                        Some(s) => windows_path(lossy_text(bytes), flavor, distro) == Some(s@),
                        None => windows_path(lossy_text(bytes), flavor, distro) is None,
                    }
                    &&& vstd::utf8::valid_utf8(bytes) ==> lossy_text(bytes)
                        == vstd::utf8::decode_utf8(bytes)
                },
            }
        }),
{
    proof {
        reveal_strlit("file://");
    }
    let all = text::chars_of(url);
    let n: usize = all.len();
    if !text::begins(all.as_slice(), "file://") {
        return None;
    }
    let rest = slice_subrange(all.as_slice(), 7, n);
    assert(rest@ =~= url@.skip(7));
    let slash: usize = text::pos_of(rest, '/');
    if slash >= rest.len() {
        return None;
    }
    let path = slice_subrange(rest, slash, n - 7);
    assert(path@ =~= rest@.skip(slash as int));
    let plain = percent_decode(text::string_of(path).as_str());
    decoded_to_windows_path(plain.as_str(), flavor, wsl_distro)
}

/// Number of line feeds in a run of bytes.
pub open spec fn newlines(s: Seq<u8>) -> nat
    decreases s.len(),
{
    if s.len() == 0 {
        0
    } else {
        newlines(s.drop_last()) + if s.last() == 0x0a {
            1nat
        } else {
            0nat
        }
    }
}

/// The mark a shell prints where a prompt starts: `ESC ] 133 ; A`.
pub open spec fn mark_tag() -> Seq<u8> {
    seq![0x1b, 0x5d, 0x31, 0x33, 0x33, 0x3b, 0x41]
}

/// The line-clock values at the prompt marks that start in the first `n`
/// bytes, where the clock stands at `clock` before them.
pub open spec fn new_marks(s: Seq<u8>, clock: int, n: int) -> Seq<u64>
    decreases n,
{
    if n <= 0 {
        Seq::empty()
    } else if text::stands_at(s, mark_tag(), n - 1) {
        new_marks(s, clock, n - 1).push((clock + newlines(s.take(n - 1))) as u64)
    } else {
        new_marks(s, clock, n - 1)
    }
}

/// Most prompt marks that a pane remembers.
pub const MAX_MARKS: usize = 500;

/// Most images that a pane remembers.
pub const MAX_IMAGES: usize = 16;

/// The last `n` of a sequence.
pub open spec fn newest<T>(s: Seq<T>, n: int) -> Seq<T> {
    if s.len() > n {
        s.skip(s.len() - n)
    } else {
        s
    }
}

proof fn lemma_newlines_step(s: Seq<u8>, i: int)
    requires
        0 <= i < s.len(),
    ensures
        newlines(s.take(i + 1)) == newlines(s.take(i)) + if s[i] == 0x0a {
            1nat
        } else {
            0nat
        },
        newlines(s.take(i + 1)) <= newlines(s),
    decreases s.len() - i,
{
    assert(s.take(i + 1).drop_last() =~= s.take(i));
    if i + 1 == s.len() {
        assert(s.take(i + 1) =~= s);
    } else {
        lemma_newlines_step(s, i + 1);
    }
}

/// Bytes that neither feed a line nor start a sequence change nothing.
proof fn lemma_quiet_bytes(s: Seq<u8>, clock: int, a: int, b: int)
    requires
        0 <= a <= b <= s.len(),
        forall|j: int| a <= j < b ==> s[j] != 0x0a && s[j] != 0x1b,
    ensures
        newlines(s.take(b)) == newlines(s.take(a)),
        new_marks(s, clock, b) == new_marks(s, clock, a),
    decreases b - a,
{
    if a < b {
        lemma_quiet_bytes(s, clock, a, b - 1);
        lemma_newlines_step(s, b - 1);
        if text::stands_at(s, mark_tag(), b - 1) {
            assert(s.subrange(b - 1, b + 6)[0] == mark_tag()[0]);
        }
    }
}

/// The line clock and prompt marks of a run of output.
fn scan_lines_and_marks(bytes: &[u8], clock: u64) -> (r: (u64, Vec<u64>))
    requires
        clock + newlines(bytes@) <= u64::MAX,
    ensures
        r.0 == clock + newlines(bytes@),
        r.1@ == new_marks(bytes@, clock as int, bytes@.len() as int),
{
    let tag = [0x1bu8, 0x5d, 0x31, 0x33, 0x33, 0x3b, 0x41];
    assert(tag@ =~= mark_tag());
    let n: usize = bytes.len();
    let mut lines: u64 = clock;
    let mut marks: Vec<u64> = Vec::new();
    let mut i: usize = 0;
    assert(bytes@.take(0) =~= Seq::empty());
    while i < n
        invariant
            i <= n == bytes@.len(),
            tag@ == mark_tag(),
            clock + newlines(bytes@) <= u64::MAX,
            lines == clock + newlines(bytes@.take(i as int)),
            marks@ == new_marks(bytes@, clock as int, i as int),
        decreases n - i,
    {
        proof {
            lemma_newlines_step(bytes@, i as int);
        }
        if bytes[i] == 0x0a {
            proof {
                if text::stands_at(bytes@, mark_tag(), i as int) {
                    assert(bytes@.subrange(i as int, i + 7)[0] == mark_tag()[0]);
                }
            }
            lines = lines + 1;
            i += 1;
        } else if bytes[i] == 0x1b && images::bytes_at(bytes, &tag, i) {
            marks.push(lines);
            proof {
                assert forall|j: int| i + 1 <= j < i + 7 implies bytes@[j] != 0x0a && bytes@[j]
                    != 0x1b by {
                    assert(bytes@.subrange(i as int, i + 7)[j - i] == mark_tag()[j - i]);
                }
                lemma_quiet_bytes(bytes@, clock as int, i + 1, i + 7);
            }
            i += 7;
        } else {
            proof {
                if text::stands_at(bytes@, mark_tag(), i as int) {
                    assert(bytes@.subrange(i as int, i + 7)[0] == mark_tag()[0]);
                }
            }
            i += 1;
        }
    }
    assert(bytes@.take(n as int) =~= bytes@);
    (lines, marks)
}

/// A placed image, as a value.
pub struct Picture {
    pub id: u64,
    pub anchor: int,
    pub png: Seq<u8>,
    pub width: int,
    pub height: int,
    pub rows: int,
}

pub open spec fn picture(i: images::InlineImage) -> Picture {
    Picture {
        id: i.id,
        anchor: i.anchor as int,
        png: i.png@,
        width: i.width as int,
        height: i.height as int,
        rows: i.rows as int,
    }
}

pub open spec fn pictures(v: Seq<images::InlineImage>) -> Seq<Picture> {
    v.map_values(|i: images::InlineImage| picture(i))
}

/// Rows of the grid that an image takes: enough for its height, at least one,
/// and two less than the screen has where that is more.
pub open spec fn image_rows(height: int, cell_h: int, screen_rows: int) -> int {
    let cell = if cell_h < 8 {
        8
    } else {
        cell_h
    };
    let most = if screen_rows - 2 < 1 {
        1
    } else {
        screen_rows - 2
    };
    let need = (height + cell - 1) / cell;
    if need < 1 {
        1
    } else if need > most {
        most
    } else {
        need
    }
}

fn rows_for(height: u32, cell_h: u16, screen_rows: u16) -> (r: u16)
    requires
        height <= images::MAX_SIDE,
    ensures
        r == image_rows(height as int, cell_h as int, screen_rows as int),
        r >= 1,
{
    let cell: u32 = if cell_h < 8 {
        8
    } else {
        cell_h as u32
    };
    let most: u32 = if screen_rows < 3 {
        1
    } else {
        screen_rows as u32 - 2
    };
    let need: u32 = (height + cell - 1) / cell;
    if need < 1 {
        1
    } else if need > most {
        most as u16
    } else {
        need as u16
    }
}

/// `n` times CR LF.
pub open spec fn line_breaks(n: int) -> Seq<u8>
    decreases n,
{
    if n <= 0 {
        Seq::empty()
    } else {
        line_breaks(n - 1).push(0x0d).push(0x0a)
    }
}

/// What a pane has seen of its output.
pub struct Output {
    pub clock: int,
    pub marks: Seq<u64>,
    pub images: Seq<Picture>,
    /// The bytes that the emulator gets.
    pub sent: Seq<u8>,
}

/// Plain bytes move the clock, may hold prompt marks, and go to the emulator.
pub open spec fn out_plain(o: Output, b: Seq<u8>) -> Output {
    Output {
        clock: o.clock + newlines(b),
        marks: newest(o.marks + new_marks(b, o.clock, b.len() as int), MAX_MARKS as int),
        images: o.images,
        sent: o.sent + b,
    }
}

/// An image is anchored at the clock and pushes the text below it down.
pub open spec fn out_image(
    o: Output,
    png: Seq<u8>,
    width: int,
    height: int,
    id: u64,
    cell_h: int,
    screen_rows: int,
) -> Output {
    let rows = image_rows(height, cell_h, screen_rows);
    Output {
        clock: o.clock + rows,
        marks: o.marks,
        images: newest(
            o.images.push(Picture { id, anchor: o.clock, png, width, height, rows }),
            MAX_IMAGES as int,
        ),
        sent: o.sent + line_breaks(rows),
    }
}

/// What one piece of output does. `decoded` is the size that the decoders of
/// the system found for image data without a PNG header.
pub open spec fn out_piece(
    o: Output,
    piece: images::Piece,
    decoded: Option<(u32, u32)>,
    id: u64,
    cell_h: int,
    screen_rows: int,
) -> Output {
    match piece {
        images::Piece::Plain(b) => out_plain(o, b),
        images::Piece::Image { png, width, height } => out_image(
            o,
            png,
            width,
            height,
            id,
            cell_h,
            screen_rows,
        ),
        images::Piece::Unsized(data) => {
            let size = images::image_size(
                data,
                match decoded {
                    Some((w, h)) => Some((w as int, h as int)),
                    None => None,
                },
            );
            match size {
                Some((w, h)) => if images::size_ok(w, h) {
                    out_image(o, data, w, h, id, cell_h, screen_rows)
                } else {
                    o
                },
                None => o,
            }
        },
    }
}

/// What the first `n` pieces do, one after the other.
pub open spec fn out_pieces(
    o: Output,
    pieces: Seq<images::Piece>,
    decoded: Seq<Option<(u32, u32)>>,
    ids: Seq<u64>,
    cell_h: int,
    screen_rows: int,
    n: int,
) -> Output
    decreases n,
{
    if n <= 0 {
        o
    } else {
        out_piece(
            out_pieces(o, pieces, decoded, ids, cell_h, screen_rows, n - 1),
            pieces[n - 1],
            decoded[n - 1],
            ids[n - 1],
            cell_h,
            screen_rows,
        )
    }
}

/// The line breaks that an image sends move the clock by its rows, and hold
/// no prompt mark.
pub proof fn law_line_breaks(n: int, clock: int)
    requires
        0 <= n,
    ensures
        newlines(line_breaks(n)) == n,
        new_marks(line_breaks(n), clock, line_breaks(n).len() as int) == Seq::<u64>::empty(),
    decreases n,
{
    lemma_breaks_bytes(n);
    let s = line_breaks(n);
    lemma_no_marks(s, clock, s.len() as int);
    if n > 0 {
        law_line_breaks(n - 1, clock);
        let a = line_breaks(n - 1);
        reveal_with_fuel(newlines, 3);
        assert(s.drop_last() =~= a.push(0x0d));
        assert(a.push(0x0d).drop_last() =~= a);
        assert(a.push(0x0d).last() == 0x0d);
    }
}

proof fn lemma_breaks_bytes(n: int)
    ensures
        forall|i: int| 0 <= i < line_breaks(n).len() ==> #[trigger] line_breaks(n)[i] != 0x1b,
    decreases n,
{
    if n > 0 {
        lemma_breaks_bytes(n - 1);
        let a = line_breaks(n - 1);
        assert forall|i: int| 0 <= i < line_breaks(n).len() implies #[trigger] line_breaks(n)[i]
            != 0x1b by {
            if i < a.len() {
                assert(line_breaks(n)[i] == a[i]);
            }
        }
    }
}

proof fn lemma_no_marks(s: Seq<u8>, clock: int, n: int)
    requires
        0 <= n <= s.len(),
        forall|i: int| 0 <= i < s.len() ==> s[i] != 0x1b,
    ensures
        new_marks(s, clock, n) == Seq::<u64>::empty(),
    decreases n,
{
    if n > 0 {
        lemma_no_marks(s, clock, n - 1);
        if text::stands_at(s, mark_tag(), n - 1) {
            assert(s.subrange(n - 1, n + 6)[0] == mark_tag()[0]);
        }
    }
}

/// Whether the newest of more items are the newest of what was kept and what
/// came: trimming early loses nothing.
pub proof fn law_newest_of_newest<T>(a: Seq<T>, b: Seq<T>, n: int)
    requires
        0 <= n,
    ensures
        newest(newest(a, n) + b, n) == newest(a + b, n),
{
    assert(newest(newest(a, n) + b, n) =~= newest(a + b, n));
}

/// An event of the emulator.
pub enum TermEvent {
    /// Something on the screen changed.
    Wakeup,
    Title(String),
    ResetTitle,
    /// The emulator answers the application.
    PtyWrite(String),
    /// The application asks for the size of the text area.
    TextAreaSizeRequest,
    /// The application asks for a color.
    ColorRequest(usize),
    /// The application sets the clipboard.
    ClipboardStore(String),
    /// The application asks for the clipboard.
    ClipboardLoad,
    Exit,
    Bell,
}

/// What follows from an event of the emulator.
pub enum EventEffect {
    Nothing,
    /// Ask the window to repaint.
    PostDirty,
    /// Tell the window that the title changed.
    PostEvent,
    /// Tell the window that the shell is gone.
    PostExited,
    Write(String),
    AnswerSize,
    AnswerColor(crate::palette::Rgb),
    SetClipboard(String),
    /// Answer with an empty clipboard: what runs in the terminal may write
    /// the clipboard, never read it.
    AnswerEmptyClipboard,
}

/// The plain state of a terminal pane.
pub struct TermPane {
    /// Shown as the title until the shell sets one.
    pub profile_name: String,
    pub flavor: ShellFlavor,
    pub wsl_distro: Option<String>,
    pub title: String,
    /// A repaint has been asked for and not yet been made.
    pub dirty: bool,
    /// Directory that the shell reported, as a Windows path.
    pub osc7_cwd: Option<String>,
    /// Line feeds ever put out: the line clock of the pane.
    pub lines_seen: u64,
    /// Clock values at prompt starts, newest last.
    pub marks: std::collections::VecDeque<u64>,
    pub images: Vec<images::InlineImage>,
    pub scan: images::ImgScan,
    pub cols: u16,
    pub rows: u16,
    pub cell_w: u16,
    pub cell_h: u16,
}

pub open spec fn opt_chars(s: Option<String>) -> Option<Seq<char>> {
    match s {
        Some(t) => Some(t@),
        None => None,
    }
}

/// The directory a chunk of output reports, given what was known before.
pub open spec fn reported_cwd(
    bytes: Seq<u8>,
    flavor: ShellFlavor,
    distro: Option<Seq<char>>,
    before: Option<Seq<char>>,
) -> Option<Seq<char>> {
    match osc7_last(bytes, 0) {
        None => before,
        Some(payload) => match url_path(lossy_text(payload)) {
            None => before,
            Some(p) => match windows_path(
                lossy_text(percent_bytes(vstd::utf8::encode_utf8(p), 0)),
                flavor,
                distro,
            ) {
                None => before,
                Some(path) => Some(path),
            },
        },
    }
}

impl TermPane {
    pub open spec fn wf(self) -> bool {
        &&& self.marks@.len() <= MAX_MARKS
        &&& self.images@.len() <= MAX_IMAGES
    }

    /// What the pane has seen, with nothing sent yet.
    pub open spec fn output(self) -> Output {
        Output {
            clock: self.lines_seen as int,
            marks: self.marks@,
            images: pictures(self.images@),
            sent: Seq::empty(),
        }
    }

    /// All that output does not touch.
    pub open spec fn same_shell(self, other: TermPane) -> bool {
        &&& self.profile_name == other.profile_name
        &&& self.flavor == other.flavor
        &&& self.wsl_distro == other.wsl_distro
        &&& self.title == other.title
        &&& self.dirty == other.dirty
        &&& self.cols == other.cols
        &&& self.rows == other.rows
        &&& self.cell_w == other.cell_w
        &&& self.cell_h == other.cell_h
    }

    /// A pane for a shell that is about to start.
    pub fn new(profile_name: String, command: &[String], cols: u16, rows: u16) -> (r: TermPane)
        ensures
            r.wf(),
            r.profile_name == profile_name,
            r.flavor == flavor_of(command@),
            opt_chars(r.wsl_distro) == distro_from(command@, 0),
            r.title@ == Seq::<char>::empty(),
            !r.dirty,
            r.osc7_cwd is None,
            r.lines_seen == 0,
            r.marks@ == Seq::<u64>::empty(),
            r.images@ == Seq::<images::InlineImage>::empty(),
            r.scan@ == images::idle(None),
            r.cols == cols,
            r.rows == rows,
            r.cell_w == 1,
            r.cell_h == 1,
    {
        TermPane {
            profile_name,
            flavor: ShellFlavor::of(command),
            wsl_distro: wsl_distro_of(command),
            title: String::new(),
            dirty: false,
            osc7_cwd: None,
            lines_seen: 0,
            marks: std::collections::VecDeque::new(),
            images: Vec::new(),
            scan: images::ImgScan::default(),
            cols,
            rows,
            cell_w: 1,
            cell_h: 1,
        }
    }

    /// Take a chunk of output: note the directory it reports, and split it
    /// into plain bytes and images.
    pub fn split_output(&mut self, bytes: &[u8]) -> (segs: Vec<images::Seg>)
        ensures
            (images::pieces(segs@), final(self).scan@) == images::fed(old(self).scan@, bytes@),
            opt_chars(final(self).osc7_cwd) == reported_cwd(
                bytes@,
                old(self).flavor,
                opt_chars(old(self).wsl_distro),
                opt_chars(old(self).osc7_cwd),
            ),
            final(self).same_shell(*old(self)),
            final(self).output() == old(self).output(),
            old(self).wf() ==> final(self).wf(),
            forall|i: int| 0 <= i < segs@.len() ==> images_sized(#[trigger] segs@[i]),
    {
        proof {
            images::law_images_sized(self.scan@, bytes@);
        }
        if let Some(url) = scan_osc7(bytes) {
            let distro = match &self.wsl_distro {
                Some(d) => Some(d.as_str()),
                None => None,
            };
            if let Some(path) = osc7_to_windows_path(url.as_str(), self.flavor, distro) {
                self.osc7_cwd = Some(path);
            }
        }
        let segs = self.scan.feed(bytes);
        assert forall|i: int| 0 <= i < segs@.len() implies images_sized(#[trigger] segs@[i]) by {
            assert(images::pieces(segs@)[i] == segs@[i]@);
        }
        segs
    }

    fn absorb_plain(&mut self, b: &[u8])
        requires
            old(self).wf(),
            old(self).lines_seen + newlines(b@) <= u64::MAX,
        ensures
            final(self).wf(),
            final(self).same_shell(*old(self)),
            final(self).osc7_cwd == old(self).osc7_cwd,
            final(self).scan == old(self).scan,
            ({
                let want = out_plain(old(self).output(), b@);
                &&& final(self).lines_seen == want.clock
                &&& final(self).marks@ == want.marks
                &&& final(self).images == old(self).images
            }),
    {
        let (lines, marks) = scan_lines_and_marks(b, self.lines_seen);
        self.lines_seen = lines;
        let ghost all = self.marks@ + marks@;
        let mut i: usize = 0;
        while i < marks.len()
            invariant
                i <= marks@.len(),
                all == old(self).marks@ + marks@,
                self.marks@ == newest(old(self).marks@ + marks@.take(i as int), MAX_MARKS as int),
                self.same_shell(*old(self)),
                self.osc7_cwd == old(self).osc7_cwd,
                self.scan == old(self).scan,
                self.images == old(self).images,
                self.lines_seen == lines,
                old(self).wf(),
            decreases marks@.len() - i,
        {
            let ghost before = old(self).marks@ + marks@.take(i as int);
            self.marks.push_back(marks[i]);
            if self.marks.len() > MAX_MARKS {
                self.marks.pop_front();
            }
            proof {
                let after = old(self).marks@ + marks@.take(i + 1);
                assert(after =~= before.push(marks@[i as int]));
                assert(self.marks@ =~= newest(after, MAX_MARKS as int));
            }
            i += 1;
        }
        assert(marks@.take(i as int) =~= marks@);
    }

    fn absorb_image(&mut self, img: images::ParsedImage, id: u64) -> (nl: Vec<u8>)
        requires
            old(self).wf(),
            img.height <= images::MAX_SIDE,
            old(self).lines_seen + image_rows(
                img.height as int,
                old(self).cell_h as int,
                old(self).rows as int,
            ) <= u64::MAX,
        ensures
            final(self).wf(),
            final(self).same_shell(*old(self)),
            final(self).osc7_cwd == old(self).osc7_cwd,
            final(self).scan == old(self).scan,
            ({
                let want = out_image(
                    old(self).output(),
                    img.png@,
                    img.width as int,
                    img.height as int,
                    id,
                    old(self).cell_h as int,
                    old(self).rows as int,
                );
                &&& final(self).lines_seen == want.clock
                &&& final(self).marks@ == want.marks
                &&& pictures(final(self).images@) == want.images
                &&& nl@ == line_breaks(
                    image_rows(
                        img.height as int,
                        old(self).cell_h as int,
                        old(self).rows as int,
                    ),
                )
            }),
    {
        let rows: u16 = rows_for(img.height, self.cell_h, self.rows);
        let ghost before = pictures(self.images@);
        self.images.push(
            images::InlineImage {
                id,
                anchor: self.lines_seen,
                png: std::sync::Arc::new(img.png),
                width: img.width,
                height: img.height,
                rows,
            },
        );
        proof {
            let last = self.images@.last();
            assert(pictures(self.images@) =~= before.push(picture(last)));
        }
        if self.images.len() > MAX_IMAGES {
            let ghost all = self.images@;
            self.images.remove(0);
            assert(pictures(self.images@) =~= pictures(all).skip(1));
        }
        self.lines_seen = self.lines_seen + rows as u64;
        let mut nl: Vec<u8> = Vec::new();
        let mut i: u16 = 0;
        while i < rows
            invariant
                i <= rows,
                nl@ == line_breaks(i as int),
            decreases rows - i,
        {
            nl.push(0x0d);
            nl.push(0x0a);
            i += 1;
        }
        nl
    }

    /// Take the segments of a chunk in, and return the bytes for the
    /// emulator: plain output, and line breaks that make room for images.
    /// `decoded` has the size that the decoders of the system found for each
    /// segment that needs one, `ids` a fresh id for each segment.
    pub fn absorb(
        &mut self,
        segs: Vec<images::Seg>,
        decoded: &Vec<Option<(u32, u32)>>,
        ids: &Vec<u64>,
    ) -> (sent: Vec<u8>)
        requires
            old(self).wf(),
            decoded@.len() == segs@.len(),
            ids@.len() == segs@.len(),
            forall|i: int| 0 <= i < segs@.len() ==> images_sized(#[trigger] segs@[i]),
            out_pieces(
                old(self).output(),
                images::pieces(segs@),
                decoded@,
                ids@,
                old(self).cell_h as int,
                old(self).rows as int,
                segs@.len() as int,
            ).clock <= u64::MAX,
        ensures
            final(self).wf(),
            final(self).same_shell(*old(self)),
            final(self).osc7_cwd == old(self).osc7_cwd,
            final(self).scan == old(self).scan,
            ({
                let want = out_pieces(
                    old(self).output(),
                    images::pieces(segs@),
                    decoded@,
                    ids@,
                    old(self).cell_h as int,
                    old(self).rows as int,
                    segs@.len() as int,
                );
                &&& final(self).lines_seen == want.clock
                &&& final(self).marks@ == want.marks
                &&& pictures(final(self).images@) == want.images
                &&& sent@ == want.sent
            }),
    {
        let ghost pieces = images::pieces(segs@);
        let ghost all = segs@;
        let mut segs = segs;
        let n: usize = segs.len();
        let mut sent: Vec<u8> = Vec::new();
        let mut i: usize = 0;
        let ghost cell_h = self.cell_h as int;
        let ghost rows = self.rows as int;
        let ghost start = self.output();
        while i < n
            invariant
                i <= n,
                n == all.len() == decoded@.len() == ids@.len(),
                segs@ == all.skip(i as int),
                pieces == images::pieces(all),
                start == old(self).output(),
                self.wf(),
                self.same_shell(*old(self)),
                self.osc7_cwd == old(self).osc7_cwd,
                self.scan == old(self).scan,
                cell_h == self.cell_h,
                rows == self.rows,
                forall|k: int| 0 <= k < all.len() ==> images_sized(#[trigger] all[k]),
                out_pieces(start, pieces, decoded@, ids@, cell_h, rows, n as int).clock <= u64::MAX,
                ({
                    let so_far = out_pieces(
                        start,
                        pieces,
                        decoded@,
                        ids@,
                        cell_h,
                        rows,
                        i as int,
                    );
                    &&& self.lines_seen == so_far.clock
                    &&& self.marks@ == so_far.marks
                    &&& pictures(self.images@) == so_far.images
                    &&& sent@ == so_far.sent
                }),
            decreases n - i,
        {
            let ghost so_far = out_pieces(start, pieces, decoded@, ids@, cell_h, rows, i as int);
            proof {
                lemma_clock_grows(start, pieces, decoded@, ids@, cell_h, rows, i + 1, n as int);
                assert(pieces[i as int] == all[i as int]@);
                assert(images_sized(all[i as int]));
            }
            let seg = segs.remove(0);
            assert(segs@ =~= all.skip(i + 1));
            match seg {
                images::Seg::Plain(b) => {
                    self.absorb_plain(&b);
                    images::append_bytes(&mut sent, &b);
                },
                images::Seg::Image(img) => {
                    let nl = self.absorb_image(img, ids[i]);
                    images::append_bytes(&mut sent, &nl);
                },
                images::Seg::Unsized(data) => {
                    if let Some(img) = images::image_from_bytes(data, decoded[i]) {
                        let nl = self.absorb_image(img, ids[i]);
                        images::append_bytes(&mut sent, &nl);
                    }
                },
            }
            i += 1;
        }
        sent
    }

    /// The pane's title: what the shell set, else the name of the profile.
    pub fn title(&self) -> (r: String)
        ensures
            r@ == (if self.title@.len() == 0 {
                self.profile_name@
            } else {
                self.title@
            }),
    {
        if self.title.as_str().is_empty() {
            self.profile_name.clone()
        } else {
            self.title.clone()
        }
    }

    /// Whether the directory of the shell's process has to be asked for.
    pub fn wants_process_cwd(&self) -> (r: bool)
        ensures
            r == (self.osc7_cwd is None && self.flavor == ShellFlavor::Windows),
    {
        self.osc7_cwd.is_none() && self.flavor == ShellFlavor::Windows
    }

    /// The shell's working directory: what it reported, else, for a shell
    /// whose process keeps it up to date, the directory of the process.
    pub open spec fn cwd_of(self, process: Option<String>) -> Option<String> {
        match self.osc7_cwd {
            Some(c) => Some(c),
            None => if self.flavor == ShellFlavor::Windows {
                process
            } else {
                None
            },
        }
    }

    pub fn cwd(&self, process: Option<String>) -> (r: Option<String>)
        ensures
            r == self.cwd_of(process),
    {
        match &self.osc7_cwd {
            Some(c) => Some(c.clone()),
            None => match self.flavor {
                ShellFlavor::Windows => process,
                _ => None,
            },
        }
    }

    pub fn resize(&mut self, cols: u16, rows: u16, cell_w: u16, cell_h: u16)
        ensures
            *final(self) == (TermPane { cols, rows, cell_w, cell_h, ..*old(self) }),
    {
        self.cols = cols;
        self.rows = rows;
        self.cell_w = cell_w;
        self.cell_h = cell_h;
    }

    /// React to an event of the emulator.
    pub fn on_event(&mut self, event: TermEvent, scheme: &crate::palette::Scheme) -> (r: EventEffect)
        ensures
            match event {
                TermEvent::Wakeup => {
                    &&& *final(self) == (TermPane { dirty: true, ..*old(self) })
                    &&& r == (if old(self).dirty {
                        EventEffect::Nothing
                    } else {
                        EventEffect::PostDirty
                    })
                },
                TermEvent::Title(t) => {
                    &&& *final(self) == (TermPane { title: t, ..*old(self) })
                    &&& r == EventEffect::PostEvent
                },
                TermEvent::ResetTitle => {
                    &&& *final(self) == (TermPane { title: final(self).title, ..*old(self) })
                    &&& final(self).title@ == Seq::<char>::empty()
                    &&& r == EventEffect::PostEvent
                },
                TermEvent::PtyWrite(s) => *final(self) == *old(self) && r == EventEffect::Write(s),
                TermEvent::TextAreaSizeRequest => *final(self) == *old(self) && r
                    == EventEffect::AnswerSize,
                TermEvent::ColorRequest(i) => *final(self) == *old(self) && r
                    == EventEffect::AnswerColor(crate::palette::asked_color(i, *scheme)),
                TermEvent::ClipboardStore(s) => *final(self) == *old(self) && r
                    == EventEffect::SetClipboard(s),
                TermEvent::ClipboardLoad => *final(self) == *old(self) && r
                    == EventEffect::AnswerEmptyClipboard,
                TermEvent::Exit => *final(self) == *old(self) && r == EventEffect::PostExited,
                TermEvent::Bell => *final(self) == *old(self) && r == EventEffect::Nothing,
            },
    {
        match event {
            TermEvent::Wakeup => {
                if self.dirty {
                    EventEffect::Nothing
                } else {
                    self.dirty = true;
                    EventEffect::PostDirty
                }
            },
            TermEvent::Title(t) => {
                self.title = t;
                EventEffect::PostEvent
            },
            TermEvent::ResetTitle => {
                self.title = String::new();
                EventEffect::PostEvent
            },
            TermEvent::PtyWrite(s) => EventEffect::Write(s),
            TermEvent::TextAreaSizeRequest => EventEffect::AnswerSize,
            TermEvent::ColorRequest(i) => EventEffect::AnswerColor(
                crate::palette::color_request(i, scheme),
            ),
            TermEvent::ClipboardStore(s) => EventEffect::SetClipboard(s),
            TermEvent::ClipboardLoad => EventEffect::AnswerEmptyClipboard,
            TermEvent::Exit => EventEffect::PostExited,
            TermEvent::Bell => EventEffect::Nothing,
        }
    }
}

/// An image that was let through has a reasonable size.
pub open spec fn images_sized(seg: images::Seg) -> bool {
    match seg {
        images::Seg::Image(i) => images::size_ok(i.width as int, i.height as int),
        _ => true,
    }
}

proof fn lemma_clock_grows(
    o: Output,
    pieces: Seq<images::Piece>,
    decoded: Seq<Option<(u32, u32)>>,
    ids: Seq<u64>,
    cell_h: int,
    rows: int,
    i: int,
    n: int,
)
    requires
        0 <= i <= n,
    ensures
        out_pieces(o, pieces, decoded, ids, cell_h, rows, i).clock <= out_pieces(
            o,
            pieces,
            decoded,
            ids,
            cell_h,
            rows,
            n,
        ).clock,
    decreases n - i,
{
    if i < n {
        lemma_clock_grows(o, pieces, decoded, ids, cell_h, rows, i, n - 1);
    }
}

/// Whether a `WSLENV` list has an entry for the variable `base`, with flags
/// after a slash or without.
pub open spec fn has_entry(env: Seq<char>, base: Seq<char>) -> bool {
    exists|i: int, j: int| #[trigger]
        text::is_part(env, ':', i, j) && text::until(env.subrange(i, j), '/') == base
}

/// A `WSLENV` list with one more entry at its end.
pub open spec fn joined(env: Seq<char>, entry: Seq<char>) -> Seq<char> {
    if env.len() == 0 {
        entry
    } else {
        env.push(':') + entry
    }
}

/// A `WSLENV` list that has an entry for `base`: `entry` is added where there
/// is none.
pub open spec fn with_entry(env: Seq<char>, entry: Seq<char>, base: Seq<char>) -> Seq<char> {
    if has_entry(env, base) {
        env
    } else {
        joined(env, entry)
    }
}

fn lists(env: &[char], base: &[char]) -> (r: bool)
    ensures
        r == has_entry(env@, base@),
{
    let n: usize = env.len();
    let ghost s = env@;
    let mut start: usize = 0;
    let mut k: usize = 0;
    loop
        invariant
            s == env@,
            n == s.len(),
            start <= k <= n,
            start == 0 || s[start - 1] == ':',
            forall|m: int| start <= m < k ==> s[m] != ':',
            forall|i: int, j: int|
                j < k && #[trigger] text::is_part(s, ':', i, j) ==> text::until(
                    s.subrange(i, j),
                    '/',
                ) != base@,
        decreases n - k,
    {
        if k == n || env[k] == ':' {
            assert(text::is_part(s, ':', start as int, k as int));
            let part = slice_subrange(env, start, k);
            let end: usize = text::pos_of(part, '/');
            let name = slice_subrange(part, 0, end);
            assert(name@ =~= text::until(part@, '/'));
            if text::same_chars(name, base) {
                return true;
            }
            assert forall|i: int, j: int| j <= k && #[trigger] text::is_part(s, ':', i, j) implies text::until(
                s.subrange(i, j),
                '/',
            ) != base@ by {
                if j == k {
                    text::lemma_part_end(s, ':', start as int, k as int, i);
                }
            }
            if k == n {
                return false;
            }
            start = k + 1;
        } else {
            assert forall|i: int, j: int| j <= k && #[trigger] text::is_part(s, ':', i, j) implies text::until(
                s.subrange(i, j),
                '/',
            ) != base@ by {}
        }
        k += 1;
    }
}

fn join_entry(env: String, entry: &str) -> (r: String)
    ensures
        r@ == joined(env@, entry@),
{
    let ghost before = env@;
    let mut env = env;
    if !env.as_str().is_empty() {
        env.push(':');
    }
    text::push_text(&mut env, entry);
    assert(env@ =~= joined(before, entry@));
    env
}

fn add_entry(env: String, entry: &str, base: &str) -> (r: String)
    ensures
        r@ == with_entry(env@, entry@, base@),
{
    if lists(text::chars_of(env.as_str()).as_slice(), text::chars_of(base).as_slice()) {
        env
    } else {
        join_entry(env, entry)
    }
}

/// The `WSLENV` list that hands a pane's variables on to WSL shells.
pub open spec fn ctl_wslenv(wslenv: Seq<char>, cdp: u16) -> Seq<char> {
    let named = with_entry(
        with_entry(wslenv, "BADUHAN_PANE"@, "BADUHAN_PANE"@),
        "BADUHAN_EXE/p"@,
        "BADUHAN_EXE"@,
    );
    if cdp == 0 {
        named
    } else {
        joined(named, "BADUHAN_CDP"@)
    }
}

/// Variables for the control commands in a pane: the pane's identity, the
/// program, `WSLENV` so that WSL shells inherit both (`/p` translates the
/// path), and the address of the browser's debugging port where there is one.
pub fn ctl_env(pane_id: u64, exe: String, wslenv: String, cdp: u16) -> (env: Vec<(String, String)>)
    ensures
        env@.len() == (if cdp == 0 {
            3int
        } else {
            4int
        }),
        env@[0].0@ == "BADUHAN_PANE"@,
        env@[0].1@ == text::decimal(pane_id as nat),
        env@[1].0@ == "BADUHAN_EXE"@,
        env@[1].1@ == exe@,
        env@[2].0@ == "WSLENV"@,
        env@[2].1@ == ctl_wslenv(wslenv@, cdp),
        cdp != 0 ==> env@[3].0@ == "BADUHAN_CDP"@ && env@[3].1@ == "http://127.0.0.1:"@
            + text::decimal(cdp as nat),
{
    let named = add_entry(
        add_entry(wslenv, "BADUHAN_PANE", "BADUHAN_PANE"),
        "BADUHAN_EXE/p",
        "BADUHAN_EXE",
    );
    let list = if cdp == 0 {
        named
    } else {
        join_entry(named, "BADUHAN_CDP")
    };
    let mut env: Vec<(String, String)> = Vec::new();
    env.push((text::owned("BADUHAN_PANE"), text::decimal_of(pane_id)));
    env.push((text::owned("BADUHAN_EXE"), exe));
    env.push((text::owned("WSLENV"), list));
    if cdp != 0 {
        let mut url = text::owned("http://127.0.0.1:");
        text::push_decimal(&mut url, cdp as u64);
        env.push((text::owned("BADUHAN_CDP"), url));
    }
    env
}

/// A report of a directory: `ESC ] 7 ;`, an address, and its end.
pub open spec fn dir_report(url: Seq<u8>, bel: bool) -> Seq<u8> {
    seq![0x1bu8, 0x5d, 0x37, 0x3b] + url + (if bel {
        seq![0x07u8]
    } else {
        seq![0x1bu8, 0x5c]
    })
}

/// The last report of a directory counts, whatever came before it and whichever
/// way it ends; output without an escape behind it does not matter.
pub proof fn law_last_report_counts(a: Seq<u8>, url: Seq<u8>, bel: bool, b: Seq<u8>)
    requires
        url.len() > 0,
        forall|i: int| 0 <= i < url.len() ==> #[trigger] url[i] != 0x07 && url[i] != 0x1b,
        forall|i: int| 0 <= i < b.len() ==> #[trigger] b[i] != 0x1b,
    ensures
        osc7_last(a + dir_report(url, bel) + b, 0) == Some(url),
{
    lemma_report_found(a, url, bel, b, 0);
}

proof fn lemma_report_found(a: Seq<u8>, url: Seq<u8>, bel: bool, b: Seq<u8>, i: int)
    requires
        url.len() > 0,
        forall|j: int| 0 <= j < url.len() ==> #[trigger] url[j] != 0x07 && url[j] != 0x1b,
        forall|j: int| 0 <= j < b.len() ==> #[trigger] b[j] != 0x1b,
        0 <= i <= a.len(),
    ensures
        osc7_last(a + dir_report(url, bel) + b, i) == Some(url),
    decreases a.len() - i,
{
    let r = dir_report(url, bel);
    let s = a + r + b;
    let n = a.len() as int;
    let tail = if bel {
        seq![0x07u8]
    } else {
        seq![0x1bu8, 0x5c]
    };
    assert(s[n] == 0x1b && s[n + 1] == 0x5d && s[n + 2] == 0x37 && s[n + 3] == 0x3b);
    if i == n {
        let end = n + 4 + url.len();
        assert(s[end] == tail[0]);
        if !bel {
            assert(s[end + 1] == 0x5c);
        }
        assert forall|j: int| n + 4 <= j < end implies s[j] != 0x07 && s[j] != 0x1b by {
            assert(s[j] == url[j - n - 4]);
        }
        images::lemma_terminator_from(s, n + 4);
        let (e, skip) = images::terminator_from(s, n + 4)->0;
        assert(e == end);
        assert(s.subrange(n + 4, end) =~= url);
        lemma_no_report(s, end + skip);
    } else if osc7_opens(s, i) {
        images::lemma_terminator_from(s, i + 4);
        assert(i + 4 <= n || i + 3 >= n) by {}
        if i + 4 > n {
            assert(s[n] == 0x1b);
            assert(false);
        }
        let (e, skip) = images::terminator_from(s, i + 4)->0;
        assert(e <= n);
        if s[e] == 0x07 || skip == 2 {
            assert(e + skip <= n);
            lemma_report_found(a, url, bel, b, e + skip);
        } else {
            lemma_report_found(a, url, bel, b, e);
        }
    } else {
        lemma_report_found(a, url, bel, b, i + 1);
    }
}

proof fn lemma_no_report(s: Seq<u8>, i: int)
    requires
        0 <= i <= s.len(),
        forall|j: int| i <= j < s.len() ==> s[j] != 0x1b,
    ensures
        osc7_last(s, i) is None,
    decreases s.len() - i,
{
    if i + 4 < s.len() {
        lemma_no_report(s, i + 1);
    }
}

/// A directory is reported by address: the path behind the host counts, with its
/// escapes read.
pub proof fn law_url_path(host: Seq<char>, path: Seq<char>)
    requires
        !host.contains('/'),
    ensures
        url_path("file://"@ + host + seq!['/'] + path) == Some(seq!['/'] + path),
        url_path("file://"@ + host) is None,
{
    reveal_strlit("file://");
    let url = "file://"@ + host + seq!['/'] + path;
    let bare = "file://"@ + host;
    assert(url.subrange(0, 7) =~= "file://"@);
    assert(bare.subrange(0, 7) =~= "file://"@);
    let n = host.len() as int;
    let rest = url.skip(7);
    assert(rest =~= host + seq!['/'] + path);
    assert(bare.skip(7) =~= host);
    assert forall|j: int| 0 <= j < n implies host[j] != '/' by {
        if host[j] == '/' {
            assert(host.contains('/'));
        }
    }
    text::lemma_char_pos(rest, '/', n);
    text::lemma_char_pos(host, '/', n);
    assert(rest.skip(n) =~= seq!['/'] + path);
}

/// Two hexadecimal digits behind a percent sign are read as the byte they write,
/// and every byte that is no percent sign stays.
pub proof fn law_percent(a: Seq<u8>, h: u8, l: u8, b: Seq<u8>)
    requires
        forall|i: int| 0 <= i < a.len() ==> #[trigger] a[i] != 0x25,
        hex_value(h) is Some,
        hex_value(l) is Some,
    ensures
        percent_bytes(a, 0) == a,
        percent_bytes(a + seq![0x25u8, h, l] + b, 0) == a + seq![
            (16 * hex_value(h)->0 + hex_value(l)->0) as u8,
        ] + percent_bytes(b, 0),
{
    let s = a + seq![0x25u8, h, l] + b;
    lemma_percent_plain(a, 0);
    assert(a.skip(0) =~= a);
    lemma_percent_skip(s, a.len() as int, 0);
    let n = a.len() as int;
    assert(s[n] == 0x25 && s[n + 1] == h && s[n + 2] == l);
    assert(s.skip(n + 3) =~= b);
    lemma_percent_shift(s, b, n + 3, n + 3);
    assert(s.subrange(0, n) =~= a);
    let v = (16 * hex_value(h)->0 + hex_value(l)->0) as u8;
    assert(percent_bytes(s, 0) =~= a + seq![v] + percent_bytes(b, 0));
}

proof fn lemma_percent_plain(s: Seq<u8>, i: int)
    requires
        0 <= i <= s.len(),
        forall|j: int| 0 <= j < s.len() ==> #[trigger] s[j] != 0x25,
    ensures
        percent_bytes(s, i) == s.skip(i),
    decreases s.len() - i,
{
    if i < s.len() {
        lemma_percent_plain(s, i + 1);
        assert(seq![s[i]] + s.skip(i + 1) =~= s.skip(i));
    } else {
        assert(s.skip(i) =~= Seq::empty());
    }
}

proof fn lemma_percent_skip(s: Seq<u8>, n: int, i: int)
    requires
        0 <= i <= n <= s.len(),
        forall|j: int| 0 <= j < n ==> #[trigger] s[j] != 0x25,
    ensures
        percent_bytes(s, i) == s.subrange(i, n) + percent_bytes(s, n),
    decreases n - i,
{
    if i < n {
        lemma_percent_skip(s, n, i + 1);
        assert(seq![s[i]] + (s.subrange(i + 1, n) + percent_bytes(s, n)) =~= s.subrange(i, n)
            + percent_bytes(s, n));
    } else {
        assert(s.subrange(i, n) + percent_bytes(s, n) =~= percent_bytes(s, n));
    }
}

proof fn lemma_percent_shift(s: Seq<u8>, b: Seq<u8>, n: int, i: int)
    requires
        0 <= n <= i <= s.len(),
        s.skip(n) == b,
    ensures
        percent_bytes(s, i) == percent_bytes(b, i - n),
    decreases s.len() - i,
{
    if i < s.len() {
        assert(b[i - n] == s[i]);
        if i + 2 < s.len() {
            assert(b[i - n + 1] == s[i + 1] && b[i - n + 2] == s[i + 2]);
        }
        lemma_percent_shift(s, b, n, i + 1);
        if i + 3 <= s.len() {
            lemma_percent_shift(s, b, n, i + 3);
        }
    }
}

/// The digits 0 to 9 and the letters A to F in either case write 0 to 15.
pub proof fn law_hex_digits(v: u8)
    ensures
        v < 10 ==> hex_value((0x30 + v) as u8) == Some(v as int),
        v < 6 ==> hex_value((0x41 + v) as u8) == Some(v + 10) && hex_value((0x61 + v) as u8) == Some(
            v + 10,
        ),
{
}

/// Which Windows path a reported one is: `/C:/x` and `/c/x` and `/cygdrive/c/x`
/// all name the drive, with backslashes; any other path is a share of the WSL
/// distribution it is in, and none elsewhere.
pub proof fn law_windows_paths(
    d: char,
    c: char,
    rest: Seq<char>,
    path: Seq<char>,
    flavor: ShellFlavor,
    distro: Option<Seq<char>>,
)
    requires
        'A' <= d <= 'Z',
        c == d || c as u32 == d as u32 + 32,
        rest.len() == 0 || rest[0] == '/',
        path.len() >= 3,
        path[0] == '/',
        path[2] != '/' && path[2] != ':',
        !text::stands_at(path, "/cygdrive"@, 0),
    ensures
        windows_path(seq!['/', d, ':'] + rest, flavor, distro) == Some(
            seq![d, ':'] + text::replaced(rest, '/', '\\'),
        ),
        windows_path(seq!['/', c] + rest, flavor, distro) == Some(
            seq![d, ':'] + text::replaced(rest, '/', '\\'),
        ),
        windows_path("/cygdrive"@ + seq!['/', c] + rest, flavor, distro) == Some(
            seq![d, ':'] + text::replaced(rest, '/', '\\'),
        ),
        flavor == ShellFlavor::Wsl ==> (distro matches Some(n) ==> windows_path(path, flavor, distro)
            == Some("\\\\wsl$\\"@ + n + text::replaced(path, '/', '\\'))),
        flavor != ShellFlavor::Wsl ==> windows_path(path, flavor, distro) is None,
{
    reveal_strlit("/");
    reveal_strlit("/cygdrive");
    let a = seq!['/', d, ':'] + rest;
    assert(a.subrange(0, 1) =~= "/"@);
    assert(a.skip(1) =~= seq![d, ':'] + rest);
    assert(text::replaced(a.skip(1), '/', '\\') =~= seq![d, ':'] + text::replaced(rest, '/', '\\'));
    lemma_drive_path(c, rest, flavor, distro);
    assert(ascii_upper(c) == d);
    assert(path.subrange(0, 1) =~= "/"@);
    assert(path.skip(1)[1] == path[2]);
}

proof fn lemma_drive_path(
    d: char,
    rest: Seq<char>,
    flavor: ShellFlavor,
    distro: Option<Seq<char>>,
)
    requires
        is_letter(d),
        rest.len() == 0 || rest[0] == '/',
    ensures
        windows_path(seq!['/', d] + rest, flavor, distro) == Some(
            seq![ascii_upper(d), ':'] + text::replaced(rest, '/', '\\'),
        ),
        windows_path("/cygdrive"@ + seq!['/', d] + rest, flavor, distro) == Some(
            seq![ascii_upper(d), ':'] + text::replaced(rest, '/', '\\'),
        ),
{
    reveal_strlit("/");
    reveal_strlit("/cygdrive");
    let b = seq!['/', d] + rest;
    assert(b.subrange(0, 1) =~= "/"@);
    assert(b.skip(1) =~= seq![d] + rest);
    if text::stands_at(b, "/cygdrive"@, 0) {
        assert(b.subrange(0, 9)[2] == b[2]);
        assert("/cygdrive"@[2] == 'y');
    }
    assert(b.skip(2) =~= rest);
    let c = "/cygdrive"@ + seq!['/', d] + rest;
    assert(c.subrange(0, 9) =~= "/cygdrive"@);
    assert(c.subrange(0, 1) =~= "/"@);
    assert(c.skip(9) =~= b);
    assert(c.skip(1)[1] == "/cygdrive"@[2]);
}

/// Line feeds are counted piece by piece.
pub proof fn law_newlines(a: Seq<u8>, b: Seq<u8>)
    ensures
        newlines(a + b) == newlines(a) + newlines(b),
        newlines(seq![0x0au8]) == 1,
        forall|c: u8| c != 0x0a ==> #[trigger] newlines(seq![c]) == 0,
    decreases b.len(),
{
    reveal_with_fuel(newlines, 2);
    assert(seq![0x0au8].drop_last() =~= Seq::empty());
    assert forall|c: u8| c != 0x0a implies #[trigger] newlines(seq![c]) == 0 by {
        assert(seq![c].drop_last() =~= Seq::empty());
    }
    if b.len() == 0 {
        assert(a + b =~= a);
    } else {
        law_newlines(a, b.drop_last());
        assert((a + b).drop_last() =~= a + b.drop_last());
    }
}

/// The mark of a prompt stands for the line that it is printed on: the lines
/// before it count, those behind it do not. Output without an escape has no
/// marks.
pub proof fn law_prompt_is_marked(a: Seq<u8>, b: Seq<u8>, clock: int)
    requires
        forall|i: int| 0 <= i < a.len() ==> #[trigger] a[i] != 0x1b,
        forall|i: int| 0 <= i < b.len() ==> #[trigger] b[i] != 0x1b,
        0 <= clock,
        clock + newlines(a) <= u64::MAX,
    ensures
        ({
            let tag = seq![0x1bu8, 0x5d, 0x31, 0x33, 0x33, 0x3b, 0x41];
            let s = a + tag + b;
            new_marks(s, clock, s.len() as int) == seq![(clock + newlines(a)) as u64]
        }),
        new_marks(a, clock, a.len() as int) == Seq::<u64>::empty(),
{
    let tag = seq![0x1bu8, 0x5d, 0x31, 0x33, 0x33, 0x3b, 0x41];
    let s = a + tag + b;
    let n = a.len() as int;
    lemma_no_marks_before(s, clock, n);
    lemma_no_marks_before(a, clock, n);
    assert(s.subrange(n, n + 7) =~= mark_tag());
    assert(s.take(n) =~= a);
    assert(new_marks(s, clock, n + 1) =~= seq![(clock + newlines(a)) as u64]);
    lemma_no_more_marks(s, clock, n + 1, s.len() as int);
}

proof fn lemma_no_marks_before(s: Seq<u8>, clock: int, n: int)
    requires
        0 <= n <= s.len(),
        forall|i: int| 0 <= i < n ==> #[trigger] s[i] != 0x1b,
    ensures
        new_marks(s, clock, n) == Seq::<u64>::empty(),
    decreases n,
{
    if n > 0 {
        lemma_no_marks_before(s, clock, n - 1);
        assert(s[n - 1] != 0x1b);
        if text::stands_at(s, mark_tag(), n - 1) {
            assert(s.subrange(n - 1, n + 6)[0] == s[n - 1]);
        }
    }
}

proof fn lemma_no_more_marks(s: Seq<u8>, clock: int, m: int, n: int)
    requires
        1 <= m <= n <= s.len(),
        forall|i: int| m <= i < n ==> #[trigger] s[i] != 0x1b,
    ensures
        new_marks(s, clock, n) == new_marks(s, clock, m),
    decreases n - m,
{
    if n > m {
        lemma_no_more_marks(s, clock, m, n - 1);
        assert(s[n - 1] != 0x1b);
        if text::stands_at(s, mark_tag(), n - 1) {
            assert(s.subrange(n - 1, n + 6)[0] == s[n - 1]);
        }
    }
}

/// An image takes as many rows as its height needs, one at least, and leaves two
/// rows of the screen free.
pub proof fn law_image_rows(height: int, cell_h: int, screen_rows: int)
    requires
        cell_h >= 8,
        height >= 0,
        screen_rows >= 3,
    ensures
        ({
            let n = image_rows(height, cell_h, screen_rows);
            &&& 1 <= n <= screen_rows - 2
            &&& n < screen_rows - 2 ==> n * cell_h >= height
            &&& n > 1 ==> (n - 1) * cell_h < height
        }),
{
    let q = (height + cell_h - 1) / cell_h;
    assert(q * cell_h >= height && (q - 1) * cell_h < height) by (nonlinear_arith)
        requires
            q == (height + cell_h - 1) / cell_h,
            cell_h > 0,
    ;
    let n = image_rows(height, cell_h, screen_rows);
    assert(n > q ==> n * cell_h >= q * cell_h) by (nonlinear_arith)
        requires
            cell_h > 0,
    ;
    assert(n < q ==> (n - 1) * cell_h <= (q - 1) * cell_h) by (nonlinear_arith)
        requires
            cell_h > 0,
    ;
}

/// What is not an image goes to the emulator byte by byte, and moves the line
/// clock by its line feeds. An image goes there as the line breaks that make
/// room for it, and is kept with the line that it starts on.
pub proof fn law_output_passes(
    o: Output,
    b: Seq<u8>,
    png: Seq<u8>,
    width: int,
    height: int,
    id: u64,
    cell_h: int,
    screen_rows: int,
)
    requires
        o.images.len() <= 16,
        o.marks.len() <= 500,
    ensures
        out_plain(o, b).sent == o.sent + b,
        out_plain(o, b).clock == o.clock + newlines(b),
        out_plain(o, b).images == o.images,
        ({
            let r = out_image(o, png, width, height, id, cell_h, screen_rows);
            let n = image_rows(height, cell_h, screen_rows);
            &&& r.sent == o.sent + line_breaks(n)
            &&& r.clock == o.clock + newlines(line_breaks(n))
            &&& r.marks == o.marks
            &&& r.images.len() > 0 && r.images.len() <= 16
            &&& r.images.last() == (Picture {
                id,
                anchor: o.clock,
                png,
                width,
                height,
                rows: n,
            })
            &&& forall|i: int|
                0 <= i < r.images.len() - 1 ==> #[trigger] r.images[i] == o.images[i + o.images.len()
                    + 1 - r.images.len()]
        }),
{
    let n = image_rows(height, cell_h, screen_rows);
    law_line_breaks(n, 0);
}

/// A directory that a shell reported counts before that of its process, which
/// counts only for a shell of Windows.
pub proof fn law_directory_of_shell(p: TermPane, process: Option<String>)
    ensures
        p.osc7_cwd is Some ==> p.cwd_of(process) == p.osc7_cwd,
        p.osc7_cwd is None && p.flavor == ShellFlavor::Windows ==> p.cwd_of(process) == process,
        p.osc7_cwd is None && p.flavor != ShellFlavor::Windows ==> p.cwd_of(process) is None,
{
}

/// A shell is told apart by its program: what begins with wsl is one of WSL, what
/// has bash, zsh or fish in its name is a POSIX shell, and so is sh.exe, wherever
/// they are; others are shells of Windows.
pub proof fn law_flavors(dir: Seq<char>, more: Seq<char>, command: Seq<String>)
    requires
        command.len() > 0,
        forall|i: int| 0 <= i < more.len() ==> #[trigger] more[i] != '/' && more[i] != '\\',
    ensures
        command[0]@ == dir + seq!['\\'] + ("wsl"@ + more) ==> flavor_of(command)
            == ShellFlavor::Wsl,
        command[0]@ == dir + seq!['\\'] + ("bash"@ + more) ==> flavor_of(command)
            == ShellFlavor::Posix,
        command[0]@ == dir + seq!['\\'] + "pwsh.exe"@ ==> flavor_of(command)
            == ShellFlavor::Windows,
        command[0]@ == dir + seq!['\\'] + "cmd.exe"@ ==> flavor_of(command)
            == ShellFlavor::Windows,
        command[0]@ == dir + seq!['\\'] + "sh.exe"@ ==> flavor_of(command) == ShellFlavor::Posix,
{
    reveal_strlit("wsl");
    reveal_strlit("bash");
    reveal_strlit("zsh");
    reveal_strlit("fish");
    reveal_strlit("sh.exe");
    reveal_strlit("pwsh.exe");
    reveal_strlit("cmd.exe");
    let w = "wsl"@ + more;
    let b = "bash"@ + more;
    text::law_base_name(dir, '\\', w);
    text::law_base_name(dir, '\\', b);
    text::law_base_name(dir, '\\', "pwsh.exe"@);
    text::law_base_name(dir, '\\', "cmd.exe"@);
    text::law_base_name(dir, '\\', "sh.exe"@);
    assert(text::lowered(w).subrange(0, 3) =~= "wsl"@);
    assert(text::lowered(b).subrange(0, 4) =~= "bash"@);
    text::lemma_find_from(text::lowered(b), "bash"@, 0);
    assert(text::stands_at(text::lowered(b), "bash"@, 0));
    assert(text::lowered(b)[0] == 'b');
    let p = text::lowered("pwsh.exe"@);
    let c = text::lowered("cmd.exe"@);
    let h = text::lowered("sh.exe"@);
    assert(p =~= "pwsh.exe"@);
    assert(c =~= "cmd.exe"@);
    assert(h =~= "sh.exe"@);
    assert(p[0] == 'p' && c[0] == 'c' && h[0] == 's');
    lemma_no_shell(p);
    lemma_no_shell(c);
    if text::stands_at(p, "wsl"@, 0) {
        assert(p.subrange(0, 3)[0] == 'p');
    }
    if text::stands_at(c, "wsl"@, 0) {
        assert(c.subrange(0, 3)[0] == 'c');
    }
    if text::stands_at(h, "wsl"@, 0) {
        assert(h.subrange(0, 3)[0] == 's');
    }
    if text::stands_at(text::lowered(b), "wsl"@, 0) {
        assert(text::lowered(b).subrange(0, 3)[0] == 'b');
    }
}

/// A name without the letters of those shells in a row holds none of them.
proof fn lemma_no_shell(s: Seq<char>)
    requires
        s == "pwsh.exe"@ || s == "cmd.exe"@,
    ensures
        !text::holds(s, "bash"@),
        !text::holds(s, "zsh"@),
        !text::holds(s, "fish"@),
{
    reveal_strlit("bash");
    reveal_strlit("zsh");
    reveal_strlit("fish");
    reveal_strlit("pwsh.exe");
    reveal_strlit("cmd.exe");
    text::lemma_find_from(s, "bash"@, 0);
    text::lemma_find_from(s, "zsh"@, 0);
    text::lemma_find_from(s, "fish"@, 0);
    if let Some(i) = text::find(s, "bash"@) {
        assert(text::stands_at(s, "bash"@, i));
        assert(s.subrange(i, i + 4)[0] == s[i]);
    }
    if let Some(i) = text::find(s, "zsh"@) {
        assert(text::stands_at(s, "zsh"@, i));
        assert(s.subrange(i, i + 3)[0] == s[i]);
    }
    if let Some(i) = text::find(s, "fish"@) {
        assert(text::stands_at(s, "fish"@, i));
        assert(s.subrange(i, i + 4)[0] == s[i]);
    }
}

/// The distribution of a WSL shell is the word behind the first `-d`, or
/// `--distribution`.
pub proof fn law_distro(command: Seq<String>, k: int)
    requires
        0 <= k < command.len() - 1,
        command[k]@ == "-d"@ || command[k]@ == "--distribution"@,
        forall|i: int|
            0 <= i < k ==> (#[trigger] command[i])@ != "-d"@ && command[i]@ != "--distribution"@,
    ensures
        distro_from(command, 0) == Some(command[k + 1]@),
{
    lemma_distro(command, k, 0);
}

proof fn lemma_distro(command: Seq<String>, k: int, i: int)
    requires
        0 <= i <= k < command.len() - 1,
        command[k]@ == "-d"@ || command[k]@ == "--distribution"@,
        forall|j: int|
            0 <= j < k ==> (#[trigger] command[j])@ != "-d"@ && command[j]@ != "--distribution"@,
    ensures
        distro_from(command, i) == Some(command[k + 1]@),
    decreases k - i,
{
    if i < k {
        assert(command[i]@ != "-d"@);
        lemma_distro(command, k, i + 1);
    }
}

/// Each piece of output does its part, in its turn: plain bytes reach the emulator,
/// an image of a reasonable size is kept, and one without is passed over.
pub proof fn law_pieces_in_turn(
    o: Output,
    pieces: Seq<images::Piece>,
    decoded: Seq<Option<(u32, u32)>>,
    ids: Seq<u64>,
    cell_h: int,
    screen_rows: int,
    n: int,
)
    requires
        0 < n <= pieces.len(),
    ensures
        ({
            let a = out_pieces(o, pieces, decoded, ids, cell_h, screen_rows, n - 1);
            let b = out_pieces(o, pieces, decoded, ids, cell_h, screen_rows, n);
            &&& pieces[n - 1] matches images::Piece::Plain(s) ==> b.sent == a.sent + s && b.images
                == a.images && b.clock == a.clock + newlines(s)
            &&& pieces[n - 1] matches images::Piece::Image { png, width, height } ==> b.images.len()
                > 0 && b.images.last().png == png && b.images.last().id == ids[n - 1]
                && b.images.last().anchor == a.clock && b.images.last().width == width
                && b.images.last().height == height
            &&& pieces[n - 1] is Unsized && decoded[n - 1] is None ==> (images::png_size(
                pieces[n - 1]->Unsized_0,
            ) is None ==> b == a)
            &&& pieces[n - 1] is Unsized ==> (decoded[n - 1] matches Some((w, h)) ==> (
            images::png_size(pieces[n - 1]->Unsized_0) is None && 1 <= w <= images::MAX_SIDE && 1 <= h
                <= images::MAX_SIDE ==> b.images.len() > 0 && b.images.last().png
                == pieces[n - 1]->Unsized_0 && b.images.last().width == w && b.images.last().height
                == h))
        }),
        out_pieces(o, pieces, decoded, ids, cell_h, screen_rows, 0) == o,
{
}

/// A directory that is reported in full is known from then on, as its path on
/// Windows; output without a report leaves what was known.
pub proof fn law_reported_directory(
    a: Seq<u8>,
    url: Seq<u8>,
    bel: bool,
    b: Seq<u8>,
    flavor: ShellFlavor,
    distro: Option<Seq<char>>,
    before: Option<Seq<char>>,
    host: Seq<char>,
    path: Seq<char>,
)
    requires
        url.len() > 0,
        forall|i: int| 0 <= i < url.len() ==> #[trigger] url[i] != 0x07 && url[i] != 0x1b,
        forall|i: int| 0 <= i < b.len() ==> #[trigger] b[i] != 0x1b,
        !host.contains('/'),
        lossy_text(url) == "file://"@ + host + seq!['/'] + path,
    ensures
        ({
            let decoded = lossy_text(
                percent_bytes(vstd::utf8::encode_utf8(seq!['/'] + path), 0),
            );
            reported_cwd(a + dir_report(url, bel) + b, flavor, distro, before) == (
            match windows_path(decoded, flavor, distro) {
                Some(p) => Some(p),
                None => before,
            })
        }),
        reported_cwd(b, flavor, distro, before) == before,
{
    law_last_report_counts(a, url, bel, b);
    law_url_path(host, path);
    lemma_no_report(b, 0);
}

/// The variables of a pane are handed on to WSL: whatever the list was, it names
/// each of them afterwards, and what it named before stays in front.
pub proof fn law_variables_reach_wsl(env: Seq<char>, cdp: u16)
    ensures
        ({
            let r = ctl_wslenv(env, cdp);
            &&& env.len() <= r.len() && r.take(env.len() as int) == env
            &&& env.len() == 0 && cdp == 0 ==> r == "BADUHAN_PANE"@ + seq![':'] + "BADUHAN_EXE/p"@
            &&& !has_entry(env, "BADUHAN_PANE"@) && env.len() > 0 ==> r.subrange(
                env.len() as int,
                env.len() as int + 13,
            ) == seq![':'] + "BADUHAN_PANE"@
            &&& cdp != 0 ==> r.skip(r.len() - 12) == seq![':'] + "BADUHAN_CDP"@
        }),
{
    reveal_strlit("BADUHAN_PANE");
    reveal_strlit("BADUHAN_EXE/p");
    reveal_strlit("BADUHAN_EXE");
    reveal_strlit("BADUHAN_CDP");
    let pane = "BADUHAN_PANE"@;
    let a = with_entry(env, pane, pane);
    let named = with_entry(a, "BADUHAN_EXE/p"@, "BADUHAN_EXE"@);
    let r = ctl_wslenv(env, cdp);
    if env.len() == 0 {
        lemma_empty_list(env, pane);
        assert(a =~= pane);
        lemma_only_pane();
        assert(named =~= pane + seq![':'] + "BADUHAN_EXE/p"@);
    }
    assert(a.take(env.len() as int) =~= env);
    assert(named.take(a.len() as int) =~= a);
    assert(r.take(named.len() as int) =~= named);
    assert(r.take(env.len() as int) =~= env) by {
        assert(r.take(env.len() as int) =~= named.take(env.len() as int));
        assert(named.take(env.len() as int) =~= a.take(env.len() as int));
    }
    if !has_entry(env, pane) && env.len() > 0 {
        let n = env.len() as int;
        assert(a =~= env + (seq![':'] + pane));
        assert(r.subrange(n, n + 13) =~= named.subrange(n, n + 13));
        assert(named.subrange(n, n + 13) =~= a.subrange(n, n + 13));
        assert(a.subrange(n, n + 13) =~= seq![':'] + pane);
    }
    if cdp != 0 {
        lemma_named_is_some(env);
        assert(r =~= named + (seq![':'] + "BADUHAN_CDP"@));
        assert(r.skip(r.len() - 12) =~= seq![':'] + "BADUHAN_CDP"@);
    }
}

/// An empty list names nothing.
proof fn lemma_empty_list(env: Seq<char>, base: Seq<char>)
    requires
        env.len() == 0,
        base.len() > 0,
    ensures
        !has_entry(env, base),
{
    if has_entry(env, base) {
        let (i, j) = choose|i: int, j: int| #[trigger]
            text::is_part(env, ':', i, j) && text::until(env.subrange(i, j), '/') == base;
        assert(env.subrange(i, j).len() == 0);
    }
}

/// A list of the pane's number alone does not name the program.
proof fn lemma_only_pane()
    ensures
        !has_entry("BADUHAN_PANE"@, "BADUHAN_EXE"@),
{
    reveal_strlit("BADUHAN_PANE");
    reveal_strlit("BADUHAN_EXE");
    let s = "BADUHAN_PANE"@;
    if has_entry(s, "BADUHAN_EXE"@) {
        let (i, j) = choose|i: int, j: int| #[trigger]
            text::is_part(s, ':', i, j) && text::until(s.subrange(i, j), '/') == "BADUHAN_EXE"@;
        assert(i == 0);
        assert(j == s.len());
        let u = text::until(s.subrange(i, j), '/');
        assert(s.subrange(i, j) =~= s);
        text::lemma_char_pos(s, '/', s.len() as int);
        assert(u[8] == 'E');
        assert(s[8] == 'P');
        assert(u[8] == s[8]);
    }
}

proof fn lemma_named_is_some(env: Seq<char>)
    ensures
        with_entry(
            with_entry(env, "BADUHAN_PANE"@, "BADUHAN_PANE"@),
            "BADUHAN_EXE/p"@,
            "BADUHAN_EXE"@,
        ).len() > 0,
{
    reveal_strlit("BADUHAN_PANE");
    if env.len() == 0 {
        lemma_empty_list(env, "BADUHAN_PANE"@);
    }
}

} // verus!
