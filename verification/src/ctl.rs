//! Control commands run inside a pane: `baduhan browse <url>` and friends,
//! the image viewer, and live settings.
use vstd::prelude::*;
use vstd::slice::*;
use crate::images;
use crate::text;

verus! {

/// Tells control messages of this program from others.
pub const CTL_MAGIC: usize = 0xBAD0_0001;

/// A request from a shell to the window that owns its pane.
pub struct CtlReq {
    pub pane: u64,
    pub verb: String,
    pub arg: String,
}

/// What a command line asks for.
pub enum Command {
    /// Explain how the program is used.
    Usage,
    /// Send a request to the window that owns the pane.
    Send { verb: String, arg: String },
    /// Show the image on the standard input.
    ViewStdin,
    /// Show these image files.
    ViewFiles(Vec<String>),
    /// Import a color theme from a file.
    Theme(String),
    /// Set the font family.
    Font(String),
    /// Set the default font size, written in points.
    FontSize(String),
    /// Print the address of the debugging port.
    Cdp,
}

/// A command, as a value.
pub enum Request {
    Usage,
    Send { verb: Seq<char>, arg: Seq<char> },
    ViewStdin,
    ViewFiles(Seq<String>),
    Theme(Seq<char>),
    Font(Seq<char>),
    FontSize(Seq<char>),
    Cdp,
}

impl View for Command {
    type V = Request;

    open spec fn view(&self) -> Request {
        match self {
            Command::Usage => Request::Usage,
            Command::Send { verb, arg } => Request::Send { verb: verb@, arg: arg@ },
            Command::ViewStdin => Request::ViewStdin,
            Command::ViewFiles(f) => Request::ViewFiles(f@),
            Command::Theme(f) => Request::Theme(f@),
            Command::Font(f) => Request::Font(f@),
            Command::FontSize(f) => Request::FontSize(f@),
            Command::Cdp => Request::Cdp,
        }
    }
}

/// Words with a space between each two.
pub open spec fn spaced(words: Seq<String>, n: int) -> Seq<char>
    decreases n,
{
    if n <= 0 {
        Seq::empty()
    } else if n == 1 {
        words[0]@
    } else {
        spaced(words, n - 1).push(' ') + words[n - 1]@
    }
}

/// What the words of a command line ask for.
pub open spec fn requested(args: Seq<String>) -> Request {
    if args.len() == 0 {
        Request::Usage
    } else {
        let verb = args[0]@;
        let rest = args.skip(1);
        if verb == "browse"@ || verb == "open"@ {
            if args.len() > 1 {
                Request::Send { verb: "browse"@, arg: args[1]@ }
            } else {
                Request::Usage
            }
        } else if verb == "reload"@ {
            Request::Send { verb: "reload"@, arg: Seq::empty() }
        } else if verb == "devtools"@ {
            Request::Send { verb: "devtools"@, arg: Seq::empty() }
        } else if verb == "view"@ || verb == "imgcat"@ {
            if rest.len() == 0 || (rest.len() == 1 && rest[0]@ == "-"@) {
                Request::ViewStdin
            } else {
                Request::ViewFiles(rest)
            }
        } else if verb == "theme"@ {
            if args.len() > 1 {
                Request::Theme(args[1]@)
            } else {
                Request::Usage
            }
        } else if verb == "font"@ {
            let family = spaced(rest, rest.len() as int);
            if family.len() == 0 {
                Request::Usage
            } else {
                Request::Font(family)
            }
        } else if verb == "fontsize"@ {
            if args.len() > 1 {
                Request::FontSize(args[1]@)
            } else {
                Request::Usage
            }
        } else if verb == "cdp"@ {
            Request::Cdp
        } else {
            Request::Usage
        }
    }
}

fn join_words(args: &[String], from: usize) -> (r: String)
    requires
        from <= args@.len(),
    ensures
        r@ == spaced(args@.skip(from as int), args@.len() - from),
{
    let ghost words = args@.skip(from as int);
    let mut r = String::new();
    let mut i: usize = from;
    while i < args.len()
        invariant
            from <= i <= args@.len(),
            words == args@.skip(from as int),
            r@ == spaced(words, i - from),
        decreases args@.len() - i,
    {
        let ghost before = r@;
        if i > from {
            r.push(' ');
        }
        text::push_text(&mut r, args[i].as_str());
        assert(r@ =~= spaced(words, i + 1 - from));
        i += 1;
    }
    r
}

fn files_from(args: &[String]) -> (r: Vec<String>)
    requires
        args@.len() > 0,
    ensures
        r@ == args@.skip(1),
{
    let mut r: Vec<String> = Vec::new();
    let mut i: usize = 1;
    while i < args.len()
        invariant
            1 <= i <= args@.len(),
            r@ == args@.subrange(1, i as int),
        decreases args@.len() - i,
    {
        r.push(args[i].clone());
        assert(args@.subrange(1, i + 1) =~= args@.subrange(1, i as int).push(args@[i as int]));
        i += 1;
    }
    assert(args@.subrange(1, i as int) =~= args@.skip(1));
    r
}

fn send(verb: &str, arg: String) -> (r: Command)
    ensures
        r@ == (Request::Send { verb: verb@, arg: arg@ }),
{
    Command::Send { verb: text::owned(verb), arg }
}

/// Read a command line (without the program's name).
pub fn parse(args: &[String]) -> (r: Command)
    ensures
        r@ == requested(args@),
{
    let n: usize = args.len();
    if n == 0 {
        return Command::Usage;
    }
    let verb = args[0].as_str();
    if text::same(verb, "browse") || text::same(verb, "open") {
        return if n > 1 {
            send("browse", args[1].clone())
        } else {
            Command::Usage
        };
    }
    if text::same(verb, "reload") {
        return send("reload", String::new());
    }
    if text::same(verb, "devtools") {
        return send("devtools", String::new());
    }
    if text::same(verb, "view") || text::same(verb, "imgcat") {
        return if n == 1 || (n == 2 && text::same(args[1].as_str(), "-")) {
            Command::ViewStdin
        } else {
            Command::ViewFiles(files_from(args))
        };
    }
    if text::same(verb, "theme") {
        return if n > 1 {
            Command::Theme(args[1].clone())
        } else {
            Command::Usage
        };
    }
    if text::same(verb, "font") {
        let family = join_words(args, 1);
        return if family.as_str().is_empty() {
            Command::Usage
        } else {
            Command::Font(family)
        };
    }
    if text::same(verb, "fontsize") {
        return if n > 1 {
            Command::FontSize(args[1].clone())
        } else {
            Command::Usage
        };
    }
    if text::same(verb, "cdp") {
        return Command::Cdp;
    }
    Command::Usage
}

/// Smallest and largest font size, in thousandths of a point.
pub const MIN_FONT: i32 = 7000;

pub const MAX_FONT: i32 = 32000;

/// A font size within its limits.
pub open spec fn font_within(size: int) -> int {
    if size < MIN_FONT {
        MIN_FONT as int
    } else if size > MAX_FONT {
        MAX_FONT as int
    } else {
        size
    }
}

pub fn clamp_font(size: i32) -> (r: i32)
    ensures
        r == font_within(size as int),
{
    if size < MIN_FONT {
        MIN_FONT
    } else if size > MAX_FONT {
        MAX_FONT
    } else {
        size
    }
}

/// The number of the pane that a shell runs in, from its environment: decimal
/// digits, after a plus sign if there is one.
pub open spec fn pane_number(s: Seq<char>) -> Option<nat> {
    let digits = if s.len() > 0 && s[0] == '+' {
        s.skip(1)
    } else {
        s
    };
    match text::digits_value(digits) {
        Some(n) => if n <= u64::MAX {
            Some(n)
        } else {
            None
        },
        None => None,
    }
}

pub fn parse_pane(s: &str) -> (r: Option<u64>)
    ensures
        match r {
            Some(n) => pane_number(s@) == Some(n as nat),
            None => pane_number(s@) is None,
        },
{
    let all = text::chars_of(s);
    let n: usize = all.len();
    let digits = if n > 0 && all[0] == '+' {
        slice_subrange(all.as_slice(), 1, n)
    } else {
        all.as_slice()
    };
    assert(digits@ =~= if s@.len() > 0 && s@[0] == '+' {
        s@.skip(1)
    } else {
        s@
    });
    text::parse_digits(digits, u64::MAX)
}

/// The request that a command makes from within a pane; None where the
/// environment names no pane.
pub fn request(verb: String, arg: String, pane: Option<&str>) -> (r: Option<CtlReq>)
    ensures
        match r {
            Some(q) => {
                &&& pane is Some
                &&& pane_number(pane->0@) == Some(q.pane as nat)
                &&& q.verb == verb
                &&& q.arg == arg
            },
            None => pane is None || pane_number(pane->0@) is None,
        },
{
    match pane {
        Some(p) => match parse_pane(p) {
            Some(pane) => Some(CtlReq { pane, verb, arg }),
            None => None,
        },
        None => None,
    }
}

/// Whether the text of a theme file is JSON; otherwise it is a property list.
pub fn theme_is_json(theme: &str) -> (r: bool)
    ensures
        r == (text::trim_left(theme@).len() > 0 && text::trim_left(theme@)[0] == '{'),
{
    let s = text::chars_of(theme);
    let n: usize = s.len();
    let mut i: usize = 0;
    assert(s@.skip(0) =~= s@);
    while i < n && text::space(s[i])
        invariant
            i <= n == s@.len(),
            s@ == theme@,
            text::trim_left(s@) == text::trim_left(s@.skip(i as int)),
        decreases n - i,
    {
        assert(s@.skip(i as int).drop_first() =~= s@.skip(i + 1));
        i += 1;
    }
    i < n && s[i] == '{'
}

/// `File=inline=1;size=`
pub open spec fn inline_head() -> Seq<u8> {
    images::file_tag() + images::ascii_bytes("inline=1;size="@)
}

/// The escape sequence that shows an image inline.
pub open spec fn inline_escape(data: Seq<u8>) -> Seq<u8> {
    images::prefix() + inline_head() + text::number(data.len()) + seq![0x3au8]
        + images::ascii_bytes(images::b64_encoded(data)) + seq![0x07u8]
}

fn push_ascii(v: &mut Vec<u8>, t: &str)
    requires
        vstd::utf8::is_ascii_chars(t@),
    ensures
        final(v)@ == old(v)@ + images::ascii_bytes(t@),
{
    proof {
        vstd::utf8::is_ascii_chars_encode_utf8(t@);
        assert(vstd::utf8::encode_utf8(t@) =~= images::ascii_bytes(t@));
    }
    images::append_bytes(v, t.as_bytes());
}

/// The escape sequence that shows an image inline. None for no data.
pub fn emit_inline(bytes: &[u8]) -> (r: Option<Vec<u8>>)
    ensures
        match r {
            Some(v) => bytes@.len() > 0 && v@ == inline_escape(bytes@),
            None => bytes@.len() == 0,
        },
{
    if bytes.len() == 0 {
        return None;
    }
    let pre = [0x1bu8, 0x5d, 0x31, 0x33, 0x33, 0x37, 0x3b];
    let file = [0x46u8, 0x69, 0x6c, 0x65, 0x3d];
    assert(pre@ =~= images::prefix());
    assert(file@ =~= images::file_tag());
    let mut v: Vec<u8> = Vec::new();
    images::append_bytes(&mut v, &pre);
    images::append_bytes(&mut v, &file);
    proof {
        reveal_strlit("inline=1;size=");
    }
    push_ascii(&mut v, "inline=1;size=");
    text::push_number(&mut v, bytes.len() as u64);
    v.push(0x3a);
    let b64 = images::b64_encode(bytes);
    proof {
        images::law_b64_roundtrip(bytes@);
    }
    images::append_bytes(&mut v, b64.as_str().as_bytes());
    v.push(0x07);
    assert(v@ =~= inline_escape(bytes@));
    Some(v)
}

proof fn lemma_number_is_decimal(n: nat)
    ensures
        text::number(n) == images::ascii_bytes(text::decimal(n)),
        vstd::utf8::is_ascii_chars(text::decimal(n)),
        forall|i: int|
            0 <= i < text::decimal(n).len() ==> '0' <= #[trigger] text::decimal(n)[i] <= '9',
    decreases n,
{
    if n >= 10 {
        lemma_number_is_decimal(n / 10);
        let d = text::decimal(n / 10);
        let c = (0x30 + n % 10) as char;
        assert(text::decimal(n) == d.push(c));
        assert forall|i: int| 0 <= i < text::decimal(n).len() implies '0' <= #[trigger] text::decimal(
            n,
        )[i] <= '9' by {
            if i < d.len() {
                assert(text::decimal(n)[i] == d[i]);
            }
        }
        assert(text::number(n) =~= images::ascii_bytes(text::decimal(n)));
    } else {
        assert(text::number(n) =~= images::ascii_bytes(text::decimal(n)));
    }
}

/// The arguments of the escape sequence: plain text that asks to be shown.
proof fn lemma_inline_args(n: nat)
    ensures
        ({
            let chars = "inline=1;size="@ + text::decimal(n);
            let bytes = images::ascii_bytes("inline=1;size="@) + text::number(n);
            &&& vstd::utf8::valid_utf8(bytes)
            &&& vstd::utf8::decode_utf8(bytes) == chars
            &&& images::asks_inline(chars)
            &&& forall|i: int| 0 <= i < bytes.len() ==> 0x30 <= #[trigger] bytes[i] <= 0x7a
            &&& forall|i: int| 0 <= i < bytes.len() ==> #[trigger] bytes[i] != 0x3a
        }),
{
    reveal_strlit("inline=1;size=");
    reveal_strlit("inline=1");
    lemma_number_is_decimal(n);
    let head = "inline=1;size="@;
    let chars = head + text::decimal(n);
    let bytes = images::ascii_bytes(head) + text::number(n);
    assert(vstd::utf8::is_ascii_chars(chars)) by {
        assert forall|i: int| 0 <= i < chars.len() implies '\0' <= #[trigger] chars[i]
            <= '\u{7f}' by {
            if i >= head.len() {
                assert(chars[i] == text::decimal(n)[i - head.len()]);
            }
        }
    }
    vstd::utf8::is_ascii_chars_encode_utf8(chars);
    assert(vstd::utf8::encode_utf8(chars) =~= bytes) by {
        assert forall|i: int| 0 <= i < bytes.len() implies vstd::utf8::encode_utf8(chars)[i]
            == #[trigger] bytes[i] by {
            assert(vstd::utf8::encode_utf8(chars)[i] == chars[i] as u8);
            if i >= head.len() {
                assert(bytes[i] == text::number(n)[i - head.len()]);
            }
        }
    }
    vstd::utf8::encode_utf8_valid_utf8(chars);
    vstd::utf8::encode_utf8_decode_utf8(chars);
    assert(text::is_part(chars, ';', 0, 8));
    let part = chars.subrange(0, 8);
    assert(part =~= "inline=1"@);
    assert(part[0] == 'i' && part.last() == '1');
    assert(text::trimmed(part) == "inline=1"@);
    assert forall|i: int| 0 <= i < bytes.len() implies 0x30 <= #[trigger] bytes[i] <= 0x7a
        && bytes[i] != 0x3a by {
        if i >= head.len() {
            assert(bytes[i] == text::decimal(n)[i - head.len()] as u8);
        }
    }
}

/// What the viewer writes, a pane reads back: the escape sequence for an image
/// gives just that image, whatever transfer in parts is under way.
pub proof fn law_view_roundtrip(data: Seq<u8>, multipart: Option<Seq<u8>>)
    requires
        data.len() > 0,
    ensures
        ({
            let state = images::idle(multipart);
            images::fed(state, inline_escape(data)) == (images::data_pieces(data), state)
        }),
{
    let n = data.len();
    let head = images::ascii_bytes("inline=1;size="@);
    let args = head + text::number(n);
    let chars = "inline=1;size="@ + text::decimal(n);
    let b64 = images::ascii_bytes(images::b64_encoded(data));
    let rest = args + seq![0x3au8] + b64;
    let body = images::file_tag() + rest;
    let all = inline_escape(data);
    lemma_inline_args(n);
    images::lemma_b64_range(data);
    images::law_b64_roundtrip(data);
    assert(all =~= images::escape(body));
    // Nothing in it ends it before the last byte.
    assert forall|i: int| 0 <= i < body.len() implies #[trigger] body[i] != 0x07 && body[i]
        != 0x1b by {
        if i >= 5 {
            let r = i - 5;
            assert(body[i] == rest[r]);
            if r < args.len() {
                assert(rest[r] == args[r]);
            } else if r > args.len() {
                assert(rest[r] == b64[r - args.len() - 1]);
                assert(b64[r - args.len() - 1] == images::b64_encoded(data)[r - args.len()
                    - 1] as u8);
            }
        }
    }
    images::lemma_escape(multipart, body);
    // It is a file with the arguments and the text above.
    assert(body.subrange(0, 5) =~= images::file_tag());
    assert(body.skip(5) =~= rest);
    let colon = args.len() as int;
    assert(rest.subrange(colon, colon + 1) =~= seq![0x3au8]);
    lemma_find_colon(rest, colon);
    assert(rest.take(colon) =~= args);
    assert(rest.skip(colon + 1) =~= b64);
    assert(images::classified(multipart, body) == (images::data_pieces(data), multipart));
}

proof fn lemma_find_colon(s: Seq<u8>, at: int)
    requires
        0 <= at < s.len(),
        s.subrange(at, at + 1) == seq![0x3au8],
        forall|i: int| 0 <= i < at ==> s[i] != 0x3a,
    ensures
        text::find(s, seq![0x3au8]) == Some(at),
{
    let p = seq![0x3au8];
    text::lemma_find_from(s, p, 0);
    assert(text::stands_at(s, p, at));
    match text::find(s, p) {
        Some(i) => {
            assert(s.subrange(i, i + 1)[0] == 0x3a);
            if at < i {
                assert(!text::stands_at(s, p, at));
            }
        },
        None => {
            assert(!text::stands_at(s, p, at));
        },
    }
}

/// The limits of a font size are 7 and 32 points; sizes between them stay.
pub proof fn law_font_limits(size: int)
    ensures
        7000 <= font_within(size) <= 32000,
        7000 <= size <= 32000 ==> font_within(size) == size,
        size < 7000 ==> font_within(size) == 7000,
        size > 32000 ==> font_within(size) == 32000,
{
}

/// A shell's pane is found again by the number that it was given.
pub proof fn law_pane_number_reads_back(n: nat)
    requires
        n <= u64::MAX,
    ensures
        pane_number(text::decimal(n)) == Some(n),
        pane_number(seq!['+'] + text::decimal(n)) == Some(n),
{
    text::law_decimal_reads_back(n);
    text::law_number_reads_back(n);
    let s = text::decimal(n);
    assert(s[0] as int == text::number(n)[0] as int);
    assert((seq!['+'] + s).skip(1) =~= s);
}

/// What each command asks for: browse (or open) with an address, reload and
/// devtools go to the window; view (or imgcat) shows files, or what comes in
/// where there is none or a dash; theme, font and fontsize take their argument,
/// cdp stands alone. A command that lacks its argument, and any other, is
/// explained.
pub proof fn law_commands(args: Seq<String>)
    requires
        args.len() > 0,
    ensures
        ({
            let verb = args[0]@;
            let rest = args.skip(1);
            let r = requested(args);
            &&& verb == "browse"@ || verb == "open"@ ==> r == (if args.len() > 1 {
                Request::Send { verb: "browse"@, arg: args[1]@ }
            } else {
                Request::Usage
            })
            &&& verb == "reload"@ ==> r == (Request::Send { verb: "reload"@, arg: Seq::empty() })
            &&& verb == "devtools"@ ==> r == (Request::Send {
                verb: "devtools"@,
                arg: Seq::empty(),
            })
            &&& verb == "view"@ || verb == "imgcat"@ ==> r == (if args.len() == 1 || (args.len() == 2
                && args[1]@ == "-"@) {
                Request::ViewStdin
            } else {
                Request::ViewFiles(rest)
            })
            &&& verb == "theme"@ ==> r == (if args.len() > 1 {
                Request::Theme(args[1]@)
            } else {
                Request::Usage
            })
            &&& verb == "fontsize"@ ==> r == (if args.len() > 1 {
                Request::FontSize(args[1]@)
            } else {
                Request::Usage
            })
            &&& verb == "font"@ && args.len() == 2 && args[1]@.len() > 0 ==> r == Request::Font(
                args[1]@,
            )
            &&& verb == "font"@ && args.len() == 3 ==> r == Request::Font(
                args[1]@ + seq![' '] + args[2]@,
            )
            &&& verb == "font"@ && args.len() == 1 ==> r == Request::Usage
            &&& verb == "cdp"@ ==> r == Request::Cdp
        }),
{
    reveal_strlit("browse");
    reveal_strlit("open");
    reveal_strlit("reload");
    reveal_strlit("devtools");
    reveal_strlit("view");
    reveal_strlit("imgcat");
    reveal_strlit("theme");
    reveal_strlit("font");
    reveal_strlit("fontsize");
    reveal_strlit("cdp");
    reveal_with_fuel(spaced, 3);
    assert("browse"@.len() == 6 && "open"@.len() == 4 && "reload"@.len() == 6 && "devtools"@.len()
        == 8 && "view"@.len() == 4 && "imgcat"@.len() == 6 && "theme"@.len() == 5 && "font"@.len()
        == 4 && "fontsize"@.len() == 8 && "cdp"@.len() == 3);
    assert("browse"@[0] == 'b' && "reload"@[0] == 'r' && "imgcat"@[0] == 'i' && "open"@[0] == 'o'
        && "view"@[0] == 'v' && "font"@[0] == 'f' && "devtools"@[0] == 'd' && "fontsize"@[0]
        == 'f');
    let rest = args.skip(1);
    if args.len() == 2 {
        assert(rest[0] == args[1]);
    }
    if args.len() == 3 {
        assert(rest[0] == args[1] && rest[1] == args[2]);
        assert(args[1]@.push(' ') + args[2]@ =~= args[1]@ + seq![' '] + args[2]@);
    }
}

} // verus!
