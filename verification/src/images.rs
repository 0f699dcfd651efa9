//! Inline images: the OSC 1337 `File=inline=1` protocol.
//!
//! Output of a pane goes through `ImgScan`, which splits image sequences (they
//! routinely span chunks) from plain bytes. For each image the pane reserves
//! grid rows and remembers it against its line clock, so that it scrolls with
//! the text.
use vstd::prelude::*;
use vstd::slice::*;
use crate::text;

verus! {

/// The start of every inline-image sequence: `ESC ] 1337 ;`.
pub open spec fn prefix() -> Seq<u8> {
    seq![0x1b, 0x5d, 0x31, 0x33, 0x33, 0x37, 0x3b]
}

/// `File=`
pub open spec fn file_tag() -> Seq<u8> {
    seq![0x46, 0x69, 0x6c, 0x65, 0x3d]
}

/// `MultipartFile=`
pub open spec fn multipart_tag() -> Seq<u8> {
    seq![0x4d, 0x75, 0x6c, 0x74, 0x69, 0x70, 0x61, 0x72, 0x74, 0x46, 0x69, 0x6c, 0x65, 0x3d]
}

/// `FilePart=`
pub open spec fn part_tag() -> Seq<u8> {
    seq![0x46, 0x69, 0x6c, 0x65, 0x50, 0x61, 0x72, 0x74, 0x3d]
}

/// `FileEnd`
pub open spec fn end_tag() -> Seq<u8> {
    seq![0x46, 0x69, 0x6c, 0x65, 0x45, 0x6e, 0x64]
}

/// Whether two runs of bytes are the same.
fn same_bytes(a: &[u8], b: &[u8]) -> (r: bool)
    ensures
        r == (a@ == b@),
{
    if a.len() != b.len() {
        return false;
    }
    let mut i: usize = 0;
    while i < a.len()
        invariant
            i <= a@.len() == b@.len(),
            forall|j: int| 0 <= j < i ==> a@[j] == b@[j],
        decreases a@.len() - i,
    {
        if a[i] != b[i] {
            assert(a@[i as int] != b@[i as int]);
            return false;
        }
        i += 1;
    }
    assert(a@ =~= b@);
    true
}

/// Whether `p` stands in `s` at index `i`.
pub fn bytes_at(s: &[u8], p: &[u8], i: usize) -> (r: bool)
    ensures
        r == text::stands_at(s@, p@, i as int),
{
    if i > s.len() || p.len() > s.len() - i {
        return false;
    }
    same_bytes(slice_subrange(s, i, i + p.len()), p)
}

/// Index of the first occurrence of `needle` in `haystack`, for a needle that
/// is not empty.
pub fn find_subslice(haystack: &[u8], needle: &[u8]) -> (r: Option<usize>)
    requires
        needle@.len() > 0,
    ensures
        match r {
            Some(i) => text::find(haystack@, needle@) == Some(i as int),
            None => text::find(haystack@, needle@) is None,
        },
        r is Some ==> r->0 + needle@.len() <= haystack@.len(),
{
    let mut i: usize = 0;
    while i < haystack.len() && needle.len() <= haystack.len() - i
        invariant
            i <= haystack@.len(),
            needle@.len() > 0,
            text::find(haystack@, needle@) == text::find_from(haystack@, needle@, i as int),
        decreases haystack@.len() - i,
    {
        if bytes_at(haystack, needle, i) {
            return Some(i);
        }
        i += 1;
    }
    None
}

/// The end of a payload: BEL, or ESC with or without the backslash that makes
/// it a string terminator. The index of its first byte, and its length.
pub open spec fn terminator(s: Seq<u8>) -> Option<(int, int)> {
    terminator_from(s, 0)
}

pub open spec fn terminator_from(s: Seq<u8>, i: int) -> Option<(int, int)>
    decreases s.len() - i,
{
    if i < 0 || i >= s.len() {
        None
    } else if s[i] == 0x07 {
        Some((i, 1))
    } else if s[i] == 0x1b {
        Some((i, if i + 1 < s.len() && s[i + 1] == 0x5c { 2int } else { 1int }))
    } else {
        terminator_from(s, i + 1)
    }
}

pub proof fn lemma_terminator_from(s: Seq<u8>, i: int)
    requires
        0 <= i,
    ensures
        match terminator_from(s, i) {
            Some((end, skip)) => {
                &&& i <= end < s.len()
                &&& 1 <= skip
                &&& end + skip <= s.len()
                &&& forall|j: int| i <= j < end ==> s[j] != 0x07 && s[j] != 0x1b
                &&& s[end] == 0x07 || s[end] == 0x1b
                &&& skip == (if s[end] == 0x1b && end + 1 < s.len() && s[end + 1] == 0x5c {
                    2int
                } else {
                    1int
                })
            },
            None => forall|j: int| i <= j < s.len() ==> s[j] != 0x07 && s[j] != 0x1b,
        },
    decreases s.len() - i,
{
    if i < s.len() && s[i] != 0x07 && s[i] != 0x1b {
        lemma_terminator_from(s, i + 1);
    }
}

/// BEL or ST (ESC \). Index and length of the terminator.
pub fn find_terminator(bytes: &[u8]) -> (r: Option<(usize, usize)>)
    ensures
        match r {
            Some((i, n)) => terminator(bytes@) == Some((i as int, n as int)),
            None => terminator(bytes@) is None,
        },
        r matches Some((i, n)) ==> i + n <= bytes@.len() && n >= 1,
{
    let mut i: usize = 0;
    while i < bytes.len()
        invariant
            i <= bytes@.len(),
            terminator(bytes@) == terminator_from(bytes@, i as int),
        decreases bytes@.len() - i,
    {
        if bytes[i] == 0x07 {
            return Some((i, 1));
        }
        if bytes[i] == 0x1b {
            return if i + 1 < bytes.len() && bytes[i + 1] == 0x5c {
                Some((i, 2))
            } else {
                Some((i, 1))
            };
        }
        i += 1;
    }
    None
}

/// The number that four bytes write, most significant first.
pub open spec fn be32(s: Seq<u8>, i: int) -> int {
    s[i] * 0x100_0000 + s[i + 1] * 0x1_0000 + s[i + 2] * 0x100 + s[i + 3]
}

fn read_be32(s: &[u8], i: usize) -> (r: u32)
    requires
        i + 4 <= s@.len(),
    ensures
        r == be32(s@, i as int),
{
    s[i] as u32 * 0x100_0000 + s[i + 1] as u32 * 0x1_0000 + s[i + 2] as u32 * 0x100 + s[i
        + 3] as u32
}

/// The eight bytes that open a PNG file.
pub open spec fn png_signature() -> Seq<u8> {
    seq![0x89, 0x50, 0x4e, 0x47, 0x0d, 0x0a, 0x1a, 0x0a]
}

/// Width and height out of a PNG header.
pub open spec fn png_size(s: Seq<u8>) -> Option<(int, int)> {
    if s.len() >= 24 && s.take(8) == png_signature() && s.subrange(12, 16) == seq![
        0x49u8,
        0x48,
        0x44,
        0x52,
    ] {
        Some((be32(s, 16), be32(s, 20)))
    } else {
        None
    }
}

/// Width and height from the IHDR of a PNG.
pub fn png_dimensions(data: &[u8]) -> (r: Option<(u32, u32)>)
    ensures
        match r {
            Some((w, h)) => png_size(data@) == Some((w as int, h as int)),
            None => png_size(data@) is None,
        },
{
    if data.len() < 24 {
        return None;
    }
    let sig = [0x89u8, 0x50, 0x4e, 0x47, 0x0d, 0x0a, 0x1a, 0x0a];
    let ihdr = [0x49u8, 0x48, 0x44, 0x52];
    assert(sig@ =~= png_signature());
    assert(ihdr@ =~= seq![0x49u8, 0x48, 0x44, 0x52]);
    assert(data@.subrange(0, 8) =~= data@.take(8));
    if !same_bytes(slice_subrange(data, 0, 8), &sig) || !same_bytes(
        slice_subrange(data, 12, 16),
        &ihdr,
    ) {
        return None;
    }
    Some((read_be32(data, 16), read_be32(data, 20)))
}

/// The character that stands for a group of six bits.
pub open spec fn b64_char(v: int) -> char {
    if v < 26 {
        (0x41 + v) as char
    } else if v < 52 {
        (0x61 + v - 26) as char
    } else if v < 62 {
        (0x30 + v - 52) as char
    } else if v == 62 {
        '+'
    } else {
        '/'
    }
}

/// The six bits that a byte of base64 stands for.
pub open spec fn b64_value(b: u8) -> Option<int> {
    if 0x41 <= b <= 0x5a {
        Some(b - 0x41)
    } else if 0x61 <= b <= 0x7a {
        Some(b - 0x61 + 26)
    } else if 0x30 <= b <= 0x39 {
        Some(b - 0x30 + 52)
    } else if b == 0x2b {
        Some(62int)
    } else if b == 0x2f {
        Some(63int)
    } else {
        None
    }
}

/// Padding and line breaks, which carry nothing.
pub open spec fn b64_filler(b: u8) -> bool {
    b == 0x3d || b == 0x0d || b == 0x0a
}

/// Base64 of some bytes, padded to whole groups of four characters.
pub open spec fn b64_encoded(s: Seq<u8>) -> Seq<char>
    decreases s.len(),
{
    if s.len() == 0 {
        Seq::empty()
    } else if s.len() == 1 {
        seq![b64_char(s[0] as int / 4), b64_char(s[0] as int % 4 * 16), '=', '=']
    } else if s.len() == 2 {
        seq![
            b64_char(s[0] as int / 4),
            b64_char(s[0] as int % 4 * 16 + s[1] as int / 16),
            b64_char(s[1] as int % 16 * 4),
            '=',
        ]
    } else {
        seq![
            b64_char(s[0] as int / 4),
            b64_char(s[0] as int % 4 * 16 + s[1] as int / 16),
            b64_char(s[1] as int % 16 * 4 + s[2] as int / 64),
            b64_char(s[2] as int % 64),
        ] + b64_encoded(s.skip(3))
    }
}

/// The groups of six bits that bytes of base64 hold; nothing where one of
/// them is no base64.
pub open spec fn b64_digits(s: Seq<u8>) -> Option<Seq<int>>
    decreases s.len(),
{
    if s.len() == 0 {
        Some(Seq::empty())
    } else {
        match b64_digits(s.drop_last()) {
            None => None,
            Some(d) => if b64_filler(s.last()) {
                Some(d)
            } else {
                match b64_value(s.last()) {
                    Some(v) => Some(d.push(v)),
                    None => None,
                }
            },
        }
    }
}

/// The whole bytes in a run of groups of six bits; left-over bits are dropped.
pub open spec fn b64_joined(d: Seq<int>) -> Seq<u8>
    decreases d.len(),
{
    if d.len() < 2 {
        Seq::empty()
    } else if d.len() == 2 {
        seq![(d[0] * 4 + d[1] / 16) as u8]
    } else if d.len() == 3 {
        seq![(d[0] * 4 + d[1] / 16) as u8, (d[1] % 16 * 16 + d[2] / 4) as u8]
    } else {
        seq![
            (d[0] * 4 + d[1] / 16) as u8,
            (d[1] % 16 * 16 + d[2] / 4) as u8,
            (d[2] % 4 * 64 + d[3]) as u8,
        ] + b64_joined(d.skip(4))
    }
}

/// The bytes that base64 stands for.
pub open spec fn b64_decoded(s: Seq<u8>) -> Option<Seq<u8>> {
    match b64_digits(s) {
        Some(d) => Some(b64_joined(d)),
        None => None,
    }
}

fn b64_digit(v: u8) -> (r: char)
    requires
        v < 64,
    ensures
        r == b64_char(v as int),
{
    if v < 26 {
        (0x41 + v) as char
    } else if v < 52 {
        (0x61 + (v - 26)) as char
    } else if v < 62 {
        (0x30 + (v - 52)) as char
    } else if v == 62 {
        '+'
    } else {
        '/'
    }
}

pub fn b64_encode(data: &[u8]) -> (out: String)
    ensures
        out@ == b64_encoded(data@),
{
    let mut out = String::new();
    let n: usize = data.len();
    let mut i: usize = 0;
    assert(data@.skip(0) =~= data@);
    while i < n
        invariant
            i <= n == data@.len(),
            out@ + b64_encoded(data@.skip(i as int)) == b64_encoded(data@),
        decreases n - i,
    {
        let ghost rest = data@.skip(i as int);
        let ghost before = out@;
        let a = data[i];
        out.push(b64_digit(a / 4));
        if n - i == 1 {
            out.push(b64_digit(a % 4 * 16));
            out.push('=');
            out.push('=');
            assert(out@ =~= before + b64_encoded(rest));
            assert(data@.skip(n as int) =~= Seq::empty());
            assert(out@ + b64_encoded(data@.skip(n as int)) =~= before + b64_encoded(rest));
            i = n;
        } else if n - i == 2 {
            let b = data[i + 1];
            out.push(b64_digit(a % 4 * 16 + b / 16));
            out.push(b64_digit(b % 16 * 4));
            out.push('=');
            assert(out@ =~= before + b64_encoded(rest));
            assert(data@.skip(n as int) =~= Seq::empty());
            assert(out@ + b64_encoded(data@.skip(n as int)) =~= before + b64_encoded(rest));
            i = n;
        } else {
            let b = data[i + 1];
            let c = data[i + 2];
            out.push(b64_digit(a % 4 * 16 + b / 16));
            out.push(b64_digit(b % 16 * 4 + c / 64));
            out.push(b64_digit(c % 64));
            assert(rest.skip(3) =~= data@.skip(i + 3));
            assert(out@ + b64_encoded(data@.skip(i + 3)) =~= before + b64_encoded(rest));
            i += 3;
        }
    }
    assert(out@ =~= out@ + b64_encoded(data@.skip(i as int)));
    out
}

fn b64_val(b: u8) -> (r: Option<u8>)
    ensures
        match r {
            Some(v) => b64_value(b) == Some(v as int) && v < 64,
            None => b64_value(b) is None,
        },
{
    if 0x41 <= b && b <= 0x5a {
        Some(b - 0x41)
    } else if 0x61 <= b && b <= 0x7a {
        Some(b - 0x61 + 26)
    } else if 0x30 <= b && b <= 0x39 {
        Some(b - 0x30 + 52)
    } else if b == 0x2b {
        Some(62)
    } else if b == 0x2f {
        Some(63)
    } else {
        None
    }
}

/// The values of digits, as numbers.
pub open spec fn ints(d: Seq<u8>) -> Seq<int> {
    d.map_values(|v: u8| v as int)
}

proof fn lemma_digits_none(s: Seq<u8>, i: int)
    requires
        0 <= i <= s.len(),
        b64_digits(s.take(i)) is None,
    ensures
        b64_digits(s) is None,
    decreases s.len() - i,
{
    if i == s.len() {
        assert(s.take(i) =~= s);
    } else {
        assert(s.take(i + 1).drop_last() =~= s.take(i));
        lemma_digits_none(s, i + 1);
    }
}

fn b64_collect(data: &[u8]) -> (r: Option<Vec<u8>>)
    ensures
        match r {
            Some(d) => b64_digits(data@) == Some(ints(d@)) && forall|j: int|
                0 <= j < d@.len() ==> d@[j] < 64,
            None => b64_digits(data@) is None,
        },
{
    let mut d: Vec<u8> = Vec::new();
    let mut i: usize = 0;
    assert(data@.take(0) =~= Seq::empty());
    assert(ints(d@) =~= Seq::empty());
    while i < data.len()
        invariant
            i <= data@.len(),
            b64_digits(data@.take(i as int)) == Some(ints(d@)),
            forall|j: int| 0 <= j < d@.len() ==> d@[j] < 64,
        decreases data@.len() - i,
    {
        let b = data[i];
        assert(data@.take(i + 1).drop_last() =~= data@.take(i as int));
        if b == 0x3d || b == 0x0d || b == 0x0a {
        } else {
            match b64_val(b) {
                Some(v) => {
                    assert(ints(d@.push(v)) =~= ints(d@).push(v as int));
                    d.push(v);
                },
                None => {
                    proof {
                        lemma_digits_none(data@, i + 1);
                    }
                    return None;
                },
            }
        }
        i += 1;
    }
    assert(data@.take(i as int) =~= data@);
    Some(d)
}

/// The bytes that base64 stands for; line breaks and padding are skipped, and
/// any other character that is no base64 spoils the whole.
pub fn b64_decode(data: &[u8]) -> (r: Option<Vec<u8>>)
    ensures
        match r {
            Some(v) => b64_decoded(data@) == Some(v@),
            None => b64_decoded(data@) is None,
        },
{
    let d = match b64_collect(data) {
        Some(d) => d,
        None => {
            return None;
        },
    };
    let mut out: Vec<u8> = Vec::new();
    let n: usize = d.len();
    let mut i: usize = 0;
    assert(ints(d@).skip(0) =~= ints(d@));
    assert(out@ + b64_joined(ints(d@)) =~= b64_joined(ints(d@)));
    while i < n
        invariant
            i <= n == d@.len(),
            forall|j: int| 0 <= j < d@.len() ==> d@[j] < 64,
            out@ + b64_joined(ints(d@).skip(i as int)) == b64_joined(ints(d@)),
        decreases n - i,
    {
        let ghost rest = ints(d@).skip(i as int);
        let ghost before = out@;
        let left: usize = n - i;
        if left >= 2 {
            out.push(d[i] * 4 + d[i + 1] / 16);
        }
        if left >= 3 {
            out.push(d[i + 1] % 16 * 16 + d[i + 2] / 4);
        }
        if left >= 4 {
            out.push(d[i + 2] % 4 * 64 + d[i + 3]);
            assert(rest.skip(4) =~= ints(d@).skip(i + 4));
            assert(out@ + b64_joined(rest.skip(4)) =~= before + b64_joined(rest));
            i += 4;
        } else {
            assert(out@ =~= before + b64_joined(rest));
            assert(ints(d@).skip(n as int) =~= Seq::empty());
            assert(out@ + b64_joined(ints(d@).skip(n as int)) =~= before + b64_joined(rest));
            i = n;
        }
    }
    assert(out@ =~= out@ + b64_joined(ints(d@).skip(i as int)));
    Some(out)
}

/// The bytes of ASCII text.
pub open spec fn ascii_bytes(s: Seq<char>) -> Seq<u8> {
    s.map_values(|c: char| c as u8)
}

proof fn lemma_digits_concat(a: Seq<u8>, b: Seq<u8>)
    requires
        b64_digits(a) is Some,
        b64_digits(b) is Some,
    ensures
        b64_digits(a + b) == Some(b64_digits(a)->0 + b64_digits(b)->0),
    decreases b.len(),
{
    if b.len() == 0 {
        assert(a + b =~= a);
        assert(b64_digits(a)->0 + Seq::<int>::empty() =~= b64_digits(a)->0);
    } else {
        let init = b.drop_last();
        assert((a + b).drop_last() =~= a + init);
        assert((a + b).last() == b.last());
        lemma_digits_concat(a, init);
        if b64_filler(b.last()) {
        } else {
            let v = b64_value(b.last())->0;
            assert(b64_digits(a)->0 + b64_digits(init)->0.push(v) =~= (b64_digits(a)->0
                + b64_digits(init)->0).push(v));
        }
    }
}

proof fn lemma_char_value(v: int)
    requires
        0 <= v < 64,
    ensures
        b64_value(b64_char(v) as u8) == Some(v),
        !b64_filler(b64_char(v) as u8),
        b64_char(v) as u32 <= 0x7f,
{
}

proof fn lemma_digits_of_four(a: u8, b: u8, c: u8, d: u8)
    ensures
        b64_digits(seq![a, b, c, d]) == (if b64_value(a) is Some && b64_value(b) is Some
            && !b64_filler(a) && !b64_filler(b) {
            let two = seq![b64_value(a)->0, b64_value(b)->0];
            if c == 0x3d && d == 0x3d {
                Some(two)
            } else if b64_value(c) is Some && !b64_filler(c) && d == 0x3d {
                Some(two.push(b64_value(c)->0))
            } else if b64_value(c) is Some && !b64_filler(c) && b64_value(d) is Some && !b64_filler(
                d,
            ) {
                Some(two.push(b64_value(c)->0).push(b64_value(d)->0))
            } else {
                b64_digits(seq![a, b, c, d])
            }
        } else {
            b64_digits(seq![a, b, c, d])
        }),
{
    let s4 = seq![a, b, c, d];
    let s3 = s4.drop_last();
    let s2 = s3.drop_last();
    let s1 = s2.drop_last();
    assert(s1.drop_last() =~= Seq::<u8>::empty());
    assert(s4.last() == d && s3.last() == c && s2.last() == b && s1.last() == a);
    reveal_with_fuel(b64_digits, 5);
    if b64_value(a) is Some && b64_value(b) is Some {
        assert(Seq::<int>::empty().push(b64_value(a)->0).push(b64_value(b)->0) =~= seq![
            b64_value(a)->0,
            b64_value(b)->0,
        ]);
    }
}

/// Decoding gives back what was encoded.
pub proof fn law_b64_roundtrip(s: Seq<u8>)
    ensures
        b64_decoded(ascii_bytes(b64_encoded(s))) == Some(s),
        vstd::utf8::encode_utf8(b64_encoded(s)) == ascii_bytes(b64_encoded(s)),
    decreases s.len(),
{
    lemma_b64_ascii(s);
    vstd::utf8::is_ascii_chars_encode_utf8(b64_encoded(s));
    assert(vstd::utf8::encode_utf8(b64_encoded(s)) =~= ascii_bytes(b64_encoded(s)));
    let e = ascii_bytes(b64_encoded(s));
    if s.len() == 0 {
        assert(e =~= Seq::empty());
        assert(b64_joined(Seq::empty()) =~= s);
    } else {
        let a = s[0] as int;
        let b = if s.len() > 1 { s[1] as int } else { 0 };
        let c = if s.len() > 2 { s[2] as int } else { 0 };
        let d0 = a / 4;
        let d1 = a % 4 * 16 + b / 16;
        let d2 = b % 16 * 4 + c / 64;
        let d3 = c % 64;
        lemma_char_value(d0);
        lemma_char_value(d1);
        lemma_char_value(d2);
        lemma_char_value(d3);
        let c0 = b64_char(d0) as u8;
        let c1 = b64_char(d1) as u8;
        let c2 = if s.len() > 1 { b64_char(d2) as u8 } else { 0x3d };
        let c3 = if s.len() > 2 { b64_char(d3) as u8 } else { 0x3d };
        lemma_digits_of_four(c0, c1, c2, c3);
        let four = seq![c0, c1, c2, c3];
        if s.len() <= 2 {
            assert(e =~= four);
            assert(b64_joined(b64_digits(four)->0) =~= s);
        } else {
            let rest = s.skip(3);
            law_b64_roundtrip(rest);
            let e1 = ascii_bytes(b64_encoded(rest));
            assert(e =~= four + e1);
            lemma_digits_concat(four, e1);
            let d = b64_digits(e)->0;
            assert(d =~= seq![d0, d1, d2, d3] + b64_digits(e1)->0);
            assert(d.skip(4) =~= b64_digits(e1)->0);
            assert(b64_joined(d) =~= s);
        }
    }
}

proof fn lemma_b64_ascii(s: Seq<u8>)
    ensures
        vstd::utf8::is_ascii_chars(b64_encoded(s)),
    decreases s.len(),
{
    if s.len() > 2 {
        lemma_b64_ascii(s.skip(3));
        lemma_char_value(s[0] as int / 4);
        lemma_char_value(s[0] as int % 4 * 16 + s[1] as int / 16);
        lemma_char_value(s[1] as int % 16 * 4 + s[2] as int / 64);
        lemma_char_value(s[2] as int % 64);
    } else if s.len() > 0 {
        lemma_char_value(s[0] as int / 4);
        lemma_char_value(s[0] as int % 4 * 16);
        if s.len() == 2 {
            lemma_char_value(s[0] as int % 4 * 16 + s[1] as int / 16);
            lemma_char_value(s[1] as int % 16 * 4);
        }
    }
}

/// An image placed in a pane.
pub struct InlineImage {
    pub id: u64,
    /// Line-clock value of the pane at the anchor (top left of the image).
    pub anchor: u64,
    pub png: std::sync::Arc<Vec<u8>>,
    pub width: u32,
    pub height: u32,
    /// Grid rows reserved below the anchor.
    pub rows: u16,
}

/// One parsed image whose place is not assigned yet.
pub struct ParsedImage {
    pub png: Vec<u8>,
    pub width: u32,
    pub height: u32,
}

/// A piece of a pane's output.
pub enum Seg {
    Plain(Vec<u8>),
    Image(ParsedImage),
    /// Image data whose size is not in a PNG header: the decoders of the
    /// system have to tell, and `image_from_bytes` takes their answer.
    Unsized(Vec<u8>),
}

/// The piece that a `Seg` stands for.
pub enum Piece {
    Plain(Seq<u8>),
    Image { png: Seq<u8>, width: int, height: int },
    Unsized(Seq<u8>),
}

impl View for Seg {
    type V = Piece;

    open spec fn view(&self) -> Piece {
        match self {
            Seg::Plain(v) => Piece::Plain(v@),
            Seg::Image(i) => Piece::Image {
                png: i.png@,
                width: i.width as int,
                height: i.height as int,
            },
            Seg::Unsized(v) => Piece::Unsized(v@),
        }
    }
}

pub open spec fn pieces(segs: Seq<Seg>) -> Seq<Piece> {
    segs.map_values(|s: Seg| s@)
}

/// Largest width and height of an image that is shown.
pub const MAX_SIDE: u32 = 16384;

/// Longest payload that is kept while its end has not come.
pub const MAX_PENDING: usize = 67_108_864;

/// Longest text of a transfer in parts.
pub const MAX_MULTIPART: usize = 100_663_296;

pub open spec fn size_ok(w: int, h: int) -> bool {
    1 <= w <= MAX_SIDE && 1 <= h <= MAX_SIDE
}

/// The size of image data: what a PNG header says, else what the decoders of
/// the system said.
pub open spec fn image_size(data: Seq<u8>, decoded: Option<(int, int)>) -> Option<(int, int)> {
    match png_size(data) {
        Some(d) => Some(d),
        None => decoded,
    }
}

/// An image of image data, given the size that the decoders of the system
/// found where there is no PNG header. None for an unknown or unreasonable
/// size.
pub fn image_from_bytes(data: Vec<u8>, decoded: Option<(u32, u32)>) -> (r: Option<ParsedImage>)
    ensures
        ({
            let size = image_size(
                data@,
                match decoded {
                    Some((w, h)) => Some((w as int, h as int)),
                    None => None,
                },
            );
            match r {
                Some(i) => i.png == data && size == Some((i.width as int, i.height as int))
                    && size_ok(i.width as int, i.height as int),
                None => !(size matches Some((w, h)) && size_ok(w, h)),
            }
        }),
{
    let size = match png_dimensions(&data) {
        Some(d) => Some(d),
        None => decoded,
    };
    match size {
        Some((width, height)) => {
            if width == 0 || height == 0 || width > MAX_SIDE || height > MAX_SIDE {
                None
            } else {
                Some(ParsedImage { png: data, width, height })
            }
        },
        None => None,
    }
}

/// What image data contributes to the output: an image where its PNG header
/// tells a reasonable size, data to be sized where it has no such header.
pub open spec fn data_pieces(data: Seq<u8>) -> Seq<Piece> {
    match png_size(data) {
        Some((w, h)) => if size_ok(w, h) {
            seq![Piece::Image { png: data, width: w, height: h }]
        } else {
            Seq::empty()
        },
        None => seq![Piece::Unsized(data)],
    }
}

/// What base64 text contributes to the output.
pub open spec fn text_pieces(b64: Seq<u8>) -> Seq<Piece> {
    match b64_decoded(b64) {
        Some(data) => data_pieces(data),
        None => Seq::empty(),
    }
}

/// Whether the arguments of a transfer ask for the image to be shown.
pub open spec fn asks_inline(s: Seq<char>) -> bool {
    exists|i: int, j: int| #[trigger]
        text::is_part(s, ';', i, j) && text::trimmed(s.subrange(i, j)) == "inline=1"@
}

/// What the payload of a `File=` sequence, `arguments:base64`, contributes to
/// the output.
pub open spec fn file_pieces(payload: Seq<u8>) -> Seq<Piece> {
    match text::find(payload, seq![0x3au8]) {
        Some(colon) => {
            let args = payload.take(colon);
            if vstd::utf8::valid_utf8(args) && asks_inline(vstd::utf8::decode_utf8(args)) {
                text_pieces(payload.skip(colon + 1))
            } else {
                Seq::empty()
            }
        },
        None => Seq::empty(),
    }
}

/// What one complete payload contributes to the output, and the transfer in
/// parts that is then under way.
pub open spec fn classified(multipart: Option<Seq<u8>>, payload: Seq<u8>) -> (
    Seq<Piece>,
    Option<Seq<u8>>,
) {
    if text::stands_at(payload, file_tag(), 0) {
        (file_pieces(payload.skip(5)), multipart)
    } else if text::stands_at(payload, multipart_tag(), 0) {
        (Seq::empty(), Some(Seq::empty()))
    } else if text::stands_at(payload, part_tag(), 0) {
        (
            Seq::empty(),
            match multipart {
                Some(b) => {
                    let all = b + payload.skip(9);
                    if all.len() > MAX_MULTIPART {
                        None
                    } else {
                        Some(all)
                    }
                },
                None => None,
            },
        )
    } else if text::stands_at(payload, end_tag(), 0) {
        (
            match multipart {
                Some(b) => text_pieces(b),
                None => Seq::empty(),
            },
            None,
        )
    } else {
        (Seq::empty(), multipart)
    }
}

/// Append bytes.
pub fn append_bytes(v: &mut Vec<u8>, s: &[u8])
    ensures
        final(v)@ == old(v)@ + s@,
{
    let mut i: usize = 0;
    while i < s.len()
        invariant
            i <= s@.len(),
            v@ == old(v)@ + s@.take(i as int),
        decreases s@.len() - i,
    {
        v.push(s[i]);
        assert(s@.take(i + 1) =~= s@.take(i as int).push(s@[i as int]));
        i += 1;
    }
    assert(s@.take(i as int) =~= s@);
}

/// Whether one of the parts between semicolons is `inline=1`.
fn wants_inline(args: &[char]) -> (r: bool)
    ensures
        r == asks_inline(args@),
{
    let n: usize = args.len();
    let want = text::chars_of("inline=1");
    let ghost s = args@;
    let mut start: usize = 0;
    let mut k: usize = 0;
    loop
        invariant
            s == args@,
            n == s.len(),
            want@ == "inline=1"@,
            start <= k <= n,
            start == 0 || s[start - 1] == ';',
            forall|m: int| start <= m < k ==> s[m] != ';',
            forall|i: int, j: int|
                j < k && #[trigger] text::is_part(s, ';', i, j) ==> text::trimmed(s.subrange(i, j))
                    != "inline=1"@,
        decreases n - k,
    {
        if k == n || args[k] == ';' {
            assert(text::is_part(s, ';', start as int, k as int));
            if text::same_chars(text::trim(slice_subrange(args, start, k)), want.as_slice()) {
                return true;
            }
            assert forall|i: int, j: int| j <= k && #[trigger] text::is_part(s, ';', i, j) implies text::trimmed(
                s.subrange(i, j),
            ) != "inline=1"@ by {
                if j == k {
                    if i < start {
                        assert(s[start - 1] == ';');
                    } else if i > start {
                        assert(s[i - 1] == ';');
                    }
                }
            }
            if k == n {
                return false;
            }
            start = k + 1;
        } else {
            assert forall|i: int, j: int| j <= k && #[trigger] text::is_part(s, ';', i, j) implies text::trimmed(
                s.subrange(i, j),
            ) != "inline=1"@ by {}
        }
        k += 1;
    }
}

/// Image data as a segment, if it is one to show.
fn data_seg(data: Vec<u8>) -> (r: Option<Seg>)
    ensures
        match r {
            Some(s) => data_pieces(data@) == seq![s@],
            None => data_pieces(data@) =~= Seq::empty(),
        },
{
    if png_dimensions(&data).is_none() {
        return Some(Seg::Unsized(data));
    }
    match image_from_bytes(data, None) {
        Some(i) => Some(Seg::Image(i)),
        None => None,
    }
}

fn text_seg(b64: &[u8]) -> (r: Option<Seg>)
    ensures
        match r {
            Some(s) => text_pieces(b64@) == seq![s@],
            None => text_pieces(b64@) =~= Seq::empty(),
        },
{
    match b64_decode(b64) {
        Some(data) => data_seg(data),
        None => None,
    }
}

/// `inline=1;size=N:BASE64` as a segment. A transfer that does not ask to be
/// shown gives nothing.
pub fn parse_file_payload(payload: &[u8]) -> (r: Option<Seg>)
    ensures
        match r {
            Some(s) => file_pieces(payload@) == seq![s@],
            None => file_pieces(payload@) =~= Seq::empty(),
        },
{
    let n: usize = payload.len();
    let colon_sign = [0x3au8];
    assert(colon_sign@ =~= seq![0x3au8]);
    let colon = match find_subslice(payload, &colon_sign) {
        Some(c) => c,
        None => {
            return None;
        },
    };
    assert(payload@.subrange(0, colon as int) =~= payload@.take(colon as int));
    assert(payload@.subrange(colon + 1, payload@.len() as int) =~= payload@.skip(colon + 1));
    match text::utf8_text(slice_subrange(payload, 0, colon)) {
        Some(args) => {
            if !wants_inline(text::chars_of(args).as_slice()) {
                return None;
            }
        },
        None => {
            return None;
        },
    }
    text_seg(slice_subrange(payload, colon + 1, n))
}

/// Splits plain output from inline-image sequences, across chunks.
pub struct ImgScan {
    /// The end of the last chunk where it may be the start of a sequence.
    held: Vec<u8>,
    /// Payload so far of a sequence whose end has not come.
    pending: Option<Vec<u8>>,
    /// Base64 so far of a transfer in parts.
    multipart: Option<Vec<u8>>,
}

/// The state of an `ImgScan`.
pub struct ScanState {
    pub held: Seq<u8>,
    pub pending: Option<Seq<u8>>,
    pub multipart: Option<Seq<u8>>,
}

pub open spec fn opt_view(v: Option<Vec<u8>>) -> Option<Seq<u8>> {
    match v {
        Some(b) => Some(b@),
        None => None,
    }
}

impl View for ImgScan {
    type V = ScanState;

    closed spec fn view(&self) -> ScanState {
        ScanState {
            held: self.held@,
            pending: opt_view(self.pending),
            multipart: opt_view(self.multipart),
        }
    }
}

/// The state between sequences.
pub open spec fn idle(multipart: Option<Seq<u8>>) -> ScanState {
    ScanState { held: Seq::empty(), pending: None, multipart }
}

/// Whether a sequence starts at an index: its prefix stands there, whole or cut
/// off by the end of the bytes.
pub open spec fn begun(s: Seq<u8>, i: int) -> bool {
    &&& 0 <= i < s.len()
    &&& if i + 7 <= s.len() {
        s.subrange(i, i + 7) == prefix()
    } else {
        s.skip(i) == prefix().take(s.len() - i)
    }
}

/// Where the first sequence starts, from index `i` on.
pub open spec fn begun_from(s: Seq<u8>, i: int) -> Option<int>
    decreases s.len() - i,
{
    if i < 0 || i >= s.len() {
        None
    } else if begun(s, i) {
        Some(i)
    } else {
        begun_from(s, i + 1)
    }
}

pub proof fn lemma_begun_from(s: Seq<u8>, i: int)
    requires
        0 <= i,
    ensures
        match begun_from(s, i) {
            Some(k) => i <= k && begun(s, k) && forall|j: int| i <= j < k ==> !#[trigger] begun(s, j),
            None => forall|j: int| i <= j ==> !#[trigger] begun(s, j),
        },
    decreases s.len() - i,
{
    if i < s.len() && !begun(s, i) {
        lemma_begun_from(s, i + 1);
    }
}

proof fn lemma_begun_is(s: Seq<u8>, k: int)
    requires
        begun(s, k),
        forall|j: int| 0 <= j < k ==> !#[trigger] begun(s, j),
    ensures
        begun_from(s, 0) == Some(k),
{
    lemma_begun_from(s, 0);
}

/// The end of a payload, once it is known: an escape at the very end waits for
/// the byte behind it.
pub open spec fn ending(s: Seq<u8>) -> Option<(int, int)> {
    match terminator(s) {
        Some((end, skip)) => if s[end] == 0x1b && end + 1 == s.len() {
            None
        } else {
            Some((end, skip))
        },
        None => None,
    }
}

pub open spec fn plain_pieces(b: Seq<u8>) -> Seq<Piece> {
    if b.len() > 0 {
        seq![Piece::Plain(b)]
    } else {
        Seq::empty()
    }
}

/// The output of bytes that start outside any sequence, and the state they
/// leave. A start of a sequence at their end is held back.
pub open spec fn scanned(multipart: Option<Seq<u8>>, rest: Seq<u8>) -> (Seq<Piece>, ScanState)
    decreases rest.len(), 1int,
{
    match begun_from(rest, 0) {
        None => (plain_pieces(rest), idle(multipart)),
        Some(start) => {
            proof {
                lemma_begun_from(rest, 0);
            }
            let plain = plain_pieces(rest.take(start));
            if start + 7 > rest.len() {
                (plain, ScanState { held: rest.skip(start), ..idle(multipart) })
            } else {
                let (more, state) = payload_fed(multipart, Seq::empty(), rest.skip(start + 7));
                (plain + more, state)
            }
        },
    }
}

/// The output of bytes that go on a payload of which `body` has come, and the
/// state they leave.
pub open spec fn payload_fed(multipart: Option<Seq<u8>>, body: Seq<u8>, rest: Seq<u8>) -> (
    Seq<Piece>,
    ScanState,
)
    decreases rest.len(), 0int,
{
    match ending(rest) {
        Some((end, skip)) => {
            proof {
                lemma_terminator_from(rest, 0);
            }
            let (found, multipart1) = classified(multipart, body + rest.take(end));
            let (more, state) = scanned(multipart1, rest.skip(end + skip));
            (found + more, state)
        },
        None => (
            Seq::empty(),
            ScanState { pending: Some(body + rest), ..idle(multipart) },
        ),
    }
}

/// How many bytes at the end of a payload are not decided yet: an escape.
pub open spec fn open_end(buf: Seq<u8>) -> int {
    if buf.len() > 0 && buf.last() == 0x1b {
        1
    } else {
        0
    }
}

/// What goes on a payload: its undecided end, and then the next chunk.
pub open spec fn carried(buf: Seq<u8>, bytes: Seq<u8>) -> Seq<u8> {
    buf.skip(buf.len() - open_end(buf)) + bytes
}

/// Whether a payload is given up at a chunk, since it is too long.
pub open spec fn overlong(state: ScanState, bytes: Seq<u8>) -> bool {
    &&& state.pending matches Some(buf)
    &&& ending(carried(buf, bytes)) is None
    &&& buf.len() + bytes.len() > MAX_PENDING
}

/// The output of a chunk, and the state after it, where no payload is given up.
pub open spec fn gone_on(state: ScanState, bytes: Seq<u8>) -> (Seq<Piece>, ScanState) {
    match state.pending {
        None => scanned(state.multipart, state.held + bytes),
        Some(buf) => payload_fed(
            state.multipart,
            buf.take(buf.len() - open_end(buf)),
            carried(buf, bytes),
        ),
    }
}

/// The output of a chunk, and the state after it.
pub open spec fn fed(state: ScanState, bytes: Seq<u8>) -> (Seq<Piece>, ScanState) {
    if overlong(state, bytes) {
        (Seq::empty(), idle(state.multipart))
    } else {
        gone_on(state, bytes)
    }
}

/// Where the first sequence starts.
fn find_begun(s: &[u8]) -> (r: Option<usize>)
    ensures
        match r {
            Some(i) => i < s@.len() && begun_from(s@, 0) == Some(i as int),
            None => begun_from(s@, 0) is None,
        },
{
    let pre = [0x1bu8, 0x5d, 0x31, 0x33, 0x33, 0x37, 0x3b];
    assert(pre@ =~= prefix());
    let n: usize = s.len();
    let mut i: usize = 0;
    while i < n
        invariant
            pre@ == prefix(),
            n == s@.len(),
            i <= n,
            begun_from(s@, 0) == begun_from(s@, i as int),
        decreases n - i,
    {
        let hit = if n - i >= 7 {
            same_bytes(slice_subrange(s, i, i + 7), &pre)
        } else {
            assert(s@.subrange(i as int, n as int) =~= s@.skip(i as int));
            assert(pre@.subrange(0, n - i) =~= prefix().take(n - i));
            same_bytes(slice_subrange(s, i, n), slice_subrange(&pre, 0, n - i))
        };
        assert(hit == begun(s@, i as int));
        if hit {
            return Some(i);
        }
        i += 1;
    }
    None
}

/// The end of a payload, once it is known.
fn find_ending(s: &[u8]) -> (r: Option<(usize, usize)>)
    ensures
        match r {
            Some((i, k)) => ending(s@) == Some((i as int, k as int)) && i + k <= s@.len() && k >= 1,
            None => ending(s@) is None,
        },
{
    match find_terminator(s) {
        Some((i, k)) => {
            proof {
                lemma_terminator_from(s@, 0);
            }
            if s[i] == 0x1b && s.len() - i == 1 {
                None
            } else {
                Some((i, k))
            }
        },
        None => None,
    }
}

impl Default for ImgScan {
    fn default() -> (r: ImgScan)
        ensures
            r@ == idle(None),
    {
        let r = ImgScan { held: Vec::new(), pending: None, multipart: None };
        assert(r@.held =~= Seq::empty());
        r
    }
}

impl ImgScan {
    /// Handle one complete payload. Sub-commands that are no images are
    /// consumed silently.
    pub fn classify(&mut self, payload: &[u8]) -> (r: Option<Seg>)
        ensures
            final(self)@.held == old(self)@.held,
            final(self)@.pending == old(self)@.pending,
            ({
                let (found, multipart) = classified(old(self)@.multipart, payload@);
                &&& final(self)@.multipart == multipart
                &&& match r {
                    Some(s) => found == seq![s@],
                    None => found =~= Seq::empty(),
                }
            }),
    {
        let file = [0x46u8, 0x69, 0x6c, 0x65, 0x3d];
        let multi = [
            0x4du8,
            0x75,
            0x6c,
            0x74,
            0x69,
            0x70,
            0x61,
            0x72,
            0x74,
            0x46,
            0x69,
            0x6c,
            0x65,
            0x3d,
        ];
        let part = [0x46u8, 0x69, 0x6c, 0x65, 0x50, 0x61, 0x72, 0x74, 0x3d];
        let done = [0x46u8, 0x69, 0x6c, 0x65, 0x45, 0x6e, 0x64];
        assert(file@ =~= file_tag());
        assert(multi@ =~= multipart_tag());
        assert(part@ =~= part_tag());
        assert(done@ =~= end_tag());
        let n: usize = payload.len();
        if bytes_at(payload, &file, 0) {
            assert(payload@.subrange(5, n as int) =~= payload@.skip(5));
            return parse_file_payload(slice_subrange(payload, 5, n));
        }
        if bytes_at(payload, &multi, 0) {
            self.multipart = Some(Vec::new());
            assert(self@.multipart->0 =~= Seq::empty());
            return None;
        }
        if bytes_at(payload, &part, 0) {
            assert(payload@.subrange(9, n as int) =~= payload@.skip(9));
            if let Some(mut buf) = self.multipart.take() {
                append_bytes(&mut buf, slice_subrange(payload, 9, n));
                if buf.len() <= MAX_MULTIPART {
                    self.multipart = Some(buf);
                }
            }
            return None;
        }
        if bytes_at(payload, &done, 0) {
            return match self.multipart.take() {
                Some(b64) => text_seg(&b64),
                None => None,
            };
        }
        None
    }

    /// Go on with a payload that has come in part. Returns the bytes behind it,
    /// or None where its end has not come.
    fn go_on(&mut self, mut buf: Vec<u8>, bytes: &[u8], out: &mut Vec<Seg>) -> (r: Option<Vec<u8>>)
        requires
            old(self)@.pending is None,
            old(self)@.held.len() == 0,
            old(out)@.len() == 0,
        ensures
            final(self)@.held.len() == 0,
            ({
                let m = old(self)@.multipart;
                let body = buf@.take(buf@.len() - open_end(buf@));
                let rest = carried(buf@, bytes@);
                match (r, ending(rest)) {
                    (Some(left), Some((end, skip))) => {
                        let (found, m1) = classified(m, body + rest.take(end));
                        &&& left@ == rest.skip(end + skip)
                        &&& pieces(final(out)@) == found
                        &&& final(self)@ == idle(m1)
                    },
                    (None, None) => {
                        &&& final(out)@.len() == 0
                        &&& final(self)@ == if buf@.len() + bytes@.len() > MAX_PENDING {
                            idle(m)
                        } else {
                            ScanState { pending: Some(buf@ + bytes@), ..idle(m) }
                        }
                    },
                    _ => false,
                }
            }),
    {
        let ghost whole = buf@;
        let ghost rest = carried(buf@, bytes@);
        let mut work: Vec<u8> = Vec::new();
        let n: usize = buf.len();
        if n > 0 && buf[n - 1] == 0x1b {
            buf.pop();
            work.push(0x1b);
            assert(buf@ =~= whole.take(n - 1));
            assert(work@ =~= whole.skip(n - 1));
        } else {
            assert(buf@ =~= whole.take(n as int));
            assert(work@ =~= whole.skip(n as int));
        }
        append_bytes(&mut work, bytes);
        assert(work@ == rest);
        let ghost body = buf@;
        match find_ending(&work) {
            Some((end, skip)) => {
                let len: usize = work.len();
                assert(work@.subrange(0, end as int) =~= rest.take(end as int));
                append_bytes(&mut buf, slice_subrange(work.as_slice(), 0, end));
                if let Some(seg) = self.classify(&buf) {
                    out.push(seg);
                }
                let ghost (found, m1) = classified(
                    old(self)@.multipart,
                    body + rest.take(end as int),
                );
                assert(pieces(out@) =~= found);
                assert(self@.held =~= Seq::empty());
                let left = slice_to_vec(slice_subrange(work.as_slice(), end + skip, len));
                assert(left@ =~= rest.skip(end + skip));
                Some(left)
            },
            None => {
                append_bytes(&mut buf, &work);
                assert(buf@ =~= whole + bytes@);
                assert(self@.held =~= Seq::empty());
                if buf.len() <= MAX_PENDING {
                    self.pending = Some(buf);
                }
                None
            },
        }
    }

    /// Split a chunk of output into plain bytes and images.
    pub fn feed(&mut self, bytes: &[u8]) -> (out: Vec<Seg>)
        ensures
            (pieces(out@), final(self)@) == fed(old(self)@, bytes@),
    {
        let mut out: Vec<Seg> = Vec::new();
        let ghost want = fed(self@, bytes@);
        assert(pieces(out@) =~= Seq::empty());
        let mut all: Vec<u8> = Vec::new();
        let ghost empty = all@;
        assert(empty =~= Seq::<u8>::empty());
        match self.pending.take() {
            Some(buf) => {
                self.held = Vec::new();
                assert(self@.held =~= Seq::empty());
                match self.go_on(buf, bytes, &mut out) {
                    Some(left) => {
                        all = left;
                    },
                    None => {
                        let ghost b = old(self)@.pending->0;
                        assert(pieces(out@) =~= Seq::empty());
                        assert(b.take(b.len() - open_end(b)) + carried(b, bytes@) =~= b + bytes@);
                        return out;
                    },
                }
            },
            None => {
                append_bytes(&mut all, &self.held);
                append_bytes(&mut all, bytes);
                self.held = Vec::new();
                assert(self@.held =~= Seq::empty());
                assert(all@ =~= old(self)@.held + bytes@);
            },
        }
        let mut rest: &[u8] = all.as_slice();
        assert(self@ == idle(self@.multipart));
        assert(pieces(out@) + scanned(self@.multipart, rest@).0 =~= want.0);
        loop
            invariant_except_break
                self@ == idle(self@.multipart),
                pieces(out@) + scanned(self@.multipart, rest@).0 == want.0,
                scanned(self@.multipart, rest@).1 == want.1,
            ensures
                pieces(out@) == want.0,
                self@ == want.1,
            decreases rest@.len(),
        {
            let ghost before = pieces(out@);
            let ghost here = rest@;
            let len: usize = rest.len();
            let ghost (more, state) = scanned(self@.multipart, rest@);
            proof {
                lemma_begun_from(here, 0);
            }
            match find_begun(rest) {
                None => {
                    if rest.len() > 0 {
                        out.push(Seg::Plain(slice_to_vec(rest)));
                    }
                    assert(pieces(out@) =~= before + more);
                    break;
                },
                Some(start) => {
                    if start > 0 {
                        out.push(Seg::Plain(slice_to_vec(slice_subrange(rest, 0, start))));
                        assert(rest@.subrange(0, start as int) =~= rest@.take(start as int));
                    }
                    let ghost plain = plain_pieces(here.take(start as int));
                    assert(pieces(out@) =~= before + plain);
                    if len - start < 7 {
                        self.held = slice_to_vec(slice_subrange(rest, start, len));
                        assert(self@.held =~= here.skip(start as int));
                        assert(pieces(out@) =~= before + more);
                        break;
                    }
                    let payload = slice_subrange(rest, start + 7, len);
                    assert(payload@ =~= here.skip(start + 7));
                    let ghost inner = payload_fed(self@.multipart, Seq::empty(), payload@);
                    match find_ending(payload) {
                        Some((end, skip)) => {
                            let ghost (found, multipart) = classified(
                                self@.multipart,
                                Seq::<u8>::empty() + payload@.take(end as int),
                            );
                            assert(payload@.subrange(0, end as int) =~= payload@.take(end as int));
                            assert(Seq::<u8>::empty() + payload@.take(end as int)
                                =~= payload@.take(end as int));
                            if let Some(seg) = self.classify(slice_subrange(payload, 0, end)) {
                                out.push(seg);
                            }
                            assert(pieces(out@) =~= before + plain + found);
                            rest = slice_subrange(payload, end + skip, len - start - 7);
                            proof {
                                assert(rest@ =~= payload@.skip(end + skip));
                                let (tail, _) = scanned(multipart, rest@);
                                assert(inner.0 == found + tail);
                                assert(before + plain + found + tail =~= before + (plain + (found
                                    + tail)));
                            }
                        },
                        None => {
                            self.pending = Some(slice_to_vec(payload));
                            assert(Seq::<u8>::empty() + payload@ =~= payload@);
                            assert(plain + Seq::<Piece>::empty() =~= plain);
                            break;
                        },
                    }
                },
            }
        }
        out
    }
}

/// Output that holds no start of a sequence goes through as it is.
pub proof fn law_plain_bytes_survive(state: ScanState, bytes: Seq<u8>)
    requires
        state.pending is None,
        forall|i: int| !#[trigger] begun(state.held + bytes, i),
    ensures
        fed(state, bytes) == (plain_pieces(state.held + bytes), idle(state.multipart)),
{
    lemma_begun_from(state.held + bytes, 0);
}

/// The pieces with plain bytes one by one, so that it does not show how plain
/// output was cut.
pub open spec fn in_bytes(p: Seq<Piece>) -> Seq<Piece>
    decreases p.len(),
{
    if p.len() == 0 {
        Seq::empty()
    } else {
        in_bytes(p.drop_last()) + match p.last() {
            Piece::Plain(b) => b.map_values(|c: u8| Piece::Plain(seq![c])),
            other => seq![other],
        }
    }
}

proof fn lemma_in_bytes_concat(a: Seq<Piece>, b: Seq<Piece>)
    ensures
        in_bytes(a + b) == in_bytes(a) + in_bytes(b),
    decreases b.len(),
{
    if b.len() == 0 {
        assert(a + b =~= a);
        assert(in_bytes(a) + in_bytes(b) =~= in_bytes(a));
    } else {
        assert((a + b).drop_last() =~= a + b.drop_last());
        lemma_in_bytes_concat(a, b.drop_last());
        let last = match b.last() {
            Piece::Plain(c) => c.map_values(|c: u8| Piece::Plain(seq![c])),
            other => seq![other],
        };
        assert((in_bytes(a) + in_bytes(b.drop_last())) + last =~= in_bytes(a) + (in_bytes(
            b.drop_last(),
        ) + last));
    }
}

proof fn lemma_plain_in_bytes(a: Seq<u8>, b: Seq<u8>)
    ensures
        in_bytes(plain_pieces(a + b)) == in_bytes(plain_pieces(a)) + in_bytes(plain_pieces(b)),
{
    let f = |c: u8| Piece::Plain(seq![c]);
    assert forall|s: Seq<u8>| #[trigger] in_bytes(plain_pieces(s)) == s.map_values(f) by {
        let p = plain_pieces(s);
        if s.len() > 0 {
            assert(p.drop_last() =~= Seq::empty());
            assert(in_bytes(p.drop_last()) =~= Seq::empty());
        }
        assert(in_bytes(p) =~= s.map_values(f));
    }
    assert((a + b).map_values(f) =~= a.map_values(f) + b.map_values(f));
}

/// Plain bytes in front, in which nothing starts, only come out in front.
proof fn lemma_front(multipart: Option<Seq<u8>>, p: Seq<u8>, z: Seq<u8>)
    requires
        forall|j: int| 0 <= j < p.len() ==> !#[trigger] begun(p + z, j),
    ensures
        in_bytes(scanned(multipart, p + z).0) == in_bytes(plain_pieces(p)) + in_bytes(
            scanned(multipart, z).0,
        ),
        scanned(multipart, p + z).1 == scanned(multipart, z).1,
{
    let x = p + z;
    assert forall|j: int| 0 <= j < z.len() implies begun(x, p.len() + j) == #[trigger] begun(z, j) by {
        assert(x.skip(p.len() + j) =~= z.skip(j));
        if j + 7 <= z.len() {
            assert(x.subrange(p.len() + j, p.len() + j + 7) =~= z.subrange(j, j + 7));
        }
    }
    lemma_begun_from(z, 0);
    lemma_begun_from(x, 0);
    match begun_from(z, 0) {
        None => {
            assert forall|j: int| 0 <= j implies !#[trigger] begun(x, j) by {
                if p.len() <= j < x.len() {
                    assert(begun(x, p.len() + (j - p.len())) == begun(z, j - p.len()));
                }
            }
            assert(begun_from(x, 0) is None);
            lemma_plain_in_bytes(p, z);
        },
        Some(start) => {
            assert(begun(x, p.len() + start) == begun(z, start));
            assert forall|j: int| 0 <= j < p.len() + start implies !#[trigger] begun(x, j) by {
                if p.len() <= j {
                    assert(begun(x, p.len() + (j - p.len())) == begun(z, j - p.len()));
                }
            }
            lemma_begun_is(x, p.len() + start);
            assert(x.take(p.len() + start) =~= p + z.take(start));
            lemma_plain_in_bytes(p, z.take(start));
            if start + 7 > z.len() {
                assert(x.skip(p.len() + start) =~= z.skip(start));
            } else {
                assert(x.skip(p.len() + start + 7) =~= z.skip(start + 7));
                let more = payload_fed(multipart, Seq::empty(), z.skip(start + 7)).0;
                lemma_in_bytes_concat(plain_pieces(p + z.take(start)), more);
                lemma_in_bytes_concat(plain_pieces(z.take(start)), more);
                assert((in_bytes(plain_pieces(p)) + in_bytes(plain_pieces(z.take(start))))
                    + in_bytes(more) =~= in_bytes(plain_pieces(p)) + (in_bytes(
                    plain_pieces(z.take(start)),
                ) + in_bytes(more)));
            }
        },
    }
}

proof fn lemma_terminator_shift(a: Seq<u8>, b: Seq<u8>, i: int)
    requires
        0 <= i <= a.len(),
        forall|j: int| i <= j < a.len() ==> a[j] != 0x07 && a[j] != 0x1b,
    ensures
        terminator_from(a + b, i) == (match terminator(b) {
            Some((end, skip)) => Some((a.len() + end, skip)),
            None => None,
        }),
{
    lemma_terminator_from(a + b, i);
    lemma_terminator_from(b, 0);
    let s = a + b;
    assert forall|j: int| 0 <= j < b.len() implies s[a.len() + j] == #[trigger] b[j] by {}
    assert forall|j: int| i <= j < a.len() implies s[j] == #[trigger] a[j] by {}
    match (terminator_from(s, i), terminator(b)) {
        (Some((e, k)), Some((end, skip))) => {
            if e < a.len() {
                assert(s[e] == a[e]);
            } else {
                assert(s[e] == b[e - a.len()]);
                if e - a.len() > end {
                    assert(s[a.len() + end] == b[end]);
                }
            }
            assert(e == a.len() + end);
            if end + 1 < b.len() {
                assert(s[a.len() + (end + 1)] == b[end + 1]);
            }
        },
        (Some((e, k)), None) => {
            if e < a.len() {
                assert(s[e] == a[e]);
            } else {
                assert(s[e] == b[e - a.len()]);
            }
        },
        (None, Some((end, skip))) => {
            assert(s[a.len() + end] == b[end]);
        },
        (None, None) => {},
    }
}

/// Bytes that do not end a payload may be counted to what has come of it.
proof fn lemma_body_grows(multipart: Option<Seq<u8>>, body: Seq<u8>, y: Seq<u8>, z: Seq<u8>)
    requires
        forall|j: int| 0 <= j < y.len() ==> y[j] != 0x07 && y[j] != 0x1b,
    ensures
        payload_fed(multipart, body, y + z) == payload_fed(multipart, body + y, z),
{
    lemma_terminator_shift(y, z, 0);
    lemma_terminator_from(z, 0);
    match terminator(z) {
        Some((end, skip)) => {
            assert((y + z)[y.len() + end] == z[end]);
            assert(body + (y + z).take(y.len() + end) =~= (body + y) + z.take(end));
            assert((y + z).skip(y.len() + end + skip) =~= z.skip(end + skip));
            assert(body + (y + z) =~= (body + y) + z);
        },
        None => {
            assert(body + (y + z) =~= (body + y) + z);
        },
    }
}

proof fn lemma_scan_join(multipart: Option<Seq<u8>>, x: Seq<u8>, b: Seq<u8>)
    ensures
        ({
            let (out, state) = scanned(multipart, x);
            let (all, last) = scanned(multipart, x + b);
            let (more, next) = gone_on(state, b);
            in_bytes(all) == in_bytes(out) + in_bytes(more) && last == next
        }),
    decreases x.len(), 1int,
{
    let (out, state) = scanned(multipart, x);
    lemma_begun_from(x, 0);
    // What is not begun in the first chunk is not begun with more behind it.
    assert forall|j: int| 0 <= j < x.len() && !begun(x, j) implies !#[trigger] begun(x + b, j) by {
        if j + 7 <= x.len() {
            assert((x + b).subrange(j, j + 7) =~= x.subrange(j, j + 7));
        } else if begun(x + b, j) {
            let n = x.len() - j;
            if j + 7 <= x.len() + b.len() {
                assert((x + b).subrange(j, j + 7).take(n) =~= x.skip(j));
            } else {
                assert((x + b).skip(j).take(n) =~= x.skip(j));
                assert(prefix().take(x.len() + b.len() - j).take(n) =~= prefix().take(n));
            }
        }
    }
    match begun_from(x, 0) {
        None => {
            lemma_front(multipart, x, b);
            assert(Seq::<u8>::empty() + b =~= b);
        },
        Some(start) => {
            let p = x.take(start);
            let h = x.skip(start);
            assert(x + b =~= p + (h + b));
            assert forall|j: int| 0 <= j < p.len() implies !#[trigger] begun(p + (h + b), j) by {
                assert(!begun(x + b, j));
            }
            if start + 7 > x.len() {
                lemma_front(multipart, p, h + b);
            } else {
                let y = x.skip(start + 7);
                assert((x + b).skip(start + 7) =~= y + b);
                assert((x + b).take(start) =~= p);
                assert((x + b).subrange(start, start + 7) =~= x.subrange(start, start + 7));
                assert(begun(x + b, start));
                assert forall|j: int| 0 <= j < start implies !#[trigger] begun(x + b, j) by {
                    assert(!begun(x, j));
                }
                lemma_begun_is(x + b, start);
                lemma_payload_join(multipart, Seq::empty(), y, b);
                let (more, _) = payload_fed(multipart, Seq::empty(), y);
                let (all, _) = payload_fed(multipart, Seq::empty(), y + b);
                let plain = plain_pieces(p);
                lemma_in_bytes_concat(plain, more);
                lemma_in_bytes_concat(plain, all);
                let tail = in_bytes(gone_on(state, b).0);
                assert(in_bytes(plain) + (in_bytes(more) + tail) =~= (in_bytes(plain) + in_bytes(
                    more,
                )) + tail);
            }
        },
    }
}

proof fn lemma_payload_join(multipart: Option<Seq<u8>>, body: Seq<u8>, y: Seq<u8>, b: Seq<u8>)
    requires
        y.len() > 0 || open_end(body) == 0,
    ensures
        ({
            let (out, state) = payload_fed(multipart, body, y);
            let (all, last) = payload_fed(multipart, body, y + b);
            let (more, next) = gone_on(state, b);
            in_bytes(all) == in_bytes(out) + in_bytes(more) && last == next
        }),
    decreases y.len(), 0int,
{
    let (out, state) = payload_fed(multipart, body, y);
    lemma_terminator_from(y, 0);
    match ending(y) {
        Some((end, skip)) => {
            lemma_terminator_from(y + b, 0);
            assert forall|j: int| 0 <= j < y.len() implies (y + b)[j] == #[trigger] y[j] by {}
            assert(terminator(y + b) == Some((end, skip))) by {
                assert((y + b)[end] == y[end]);
                let (e, _) = terminator(y + b)->0;
                if e < end {
                    assert((y + b)[e] == y[e]);
                }
                if end + 1 < y.len() {
                    assert((y + b)[end + 1] == y[end + 1]);
                }
            }
            assert((y + b).take(end) =~= y.take(end));
            assert((y + b).skip(end + skip) =~= y.skip(end + skip) + b);
            let (found, multipart1) = classified(multipart, body + y.take(end));
            lemma_scan_join(multipart1, y.skip(end + skip), b);
            let (more, _) = scanned(multipart1, y.skip(end + skip));
            let (all, _) = scanned(multipart1, y.skip(end + skip) + b);
            lemma_in_bytes_concat(found, more);
            lemma_in_bytes_concat(found, all);
            let tail = in_bytes(gone_on(state, b).0);
            assert(in_bytes(found) + (in_bytes(more) + tail) =~= (in_bytes(found) + in_bytes(more))
                + tail);
        },
        None => {
            let buf = body + y;
            assert(in_bytes(out) =~= Seq::empty());
            let k = open_end(buf);
            if terminator(y) is Some {
                let y0 = y.drop_last();
                let z = seq![0x1bu8] + b;
                assert(buf.last() == 0x1b);
                assert(buf.take(buf.len() - 1) =~= body + y0);
                assert(carried(buf, b) =~= z);
                assert(y + b =~= y0 + z);
                lemma_body_grows(multipart, body, y0, z);
            } else {
                if y.len() > 0 {
                    assert(buf.last() == y.last());
                } else {
                    assert(buf =~= body);
                }
                assert(k == 0);
                assert(buf.take(buf.len() - 0) =~= body + y);
                assert(carried(buf, b) =~= b);
                lemma_body_grows(multipart, body, y, b);
            }
            let tail = in_bytes(gone_on(state, b).0);
            assert(Seq::<Piece>::empty() + tail =~= tail);
        },
    }
}

/// Output may be cut into chunks anywhere: two chunks one after the other give
/// the same images and the same plain bytes in the same order as both at once,
/// and leave the same state, unless a payload grows too long on the way.
pub proof fn law_chunks_join(state: ScanState, a: Seq<u8>, b: Seq<u8>)
    requires
        !overlong(state, a),
        !overlong(fed(state, a).1, b),
    ensures
        in_bytes(fed(state, a + b).0) == in_bytes(fed(state, a).0) + in_bytes(
            fed(fed(state, a).1, b).0,
        ),
        fed(state, a + b).1 == fed(fed(state, a).1, b).1,
{
    match state.pending {
        None => {
            assert(state.held + (a + b) =~= (state.held + a) + b);
            lemma_scan_join(state.multipart, state.held + a, b);
        },
        Some(buf) => {
            let k = open_end(buf);
            let body = buf.take(buf.len() - k);
            let y = carried(buf, a);
            assert(carried(buf, a + b) =~= y + b);
            if y.len() == 0 {
                assert(k == 0);
                assert(body =~= buf);
            }
            lemma_payload_join(state.multipart, body, y, b);
            if overlong(state, a + b) {
                let m = state.multipart;
                lemma_terminator_from(y, 0);
                lemma_terminator_from(y + b, 0);
                assert(ending(y) is None) by {
                    if let Some((end, skip)) = ending(y) {
                        assert((y + b)[end] == y[end]);
                        let (e, _) = terminator(y + b)->0;
                        if e < end {
                            assert((y + b)[e] == y[e]);
                        }
                    }
                }
                let next = fed(state, a).1;
                let buf1 = next.pending->0;
                assert(buf1 =~= buf + a);
                assert(payload_fed(m, body, y + b).1.pending is Some);
                assert(ending(carried(buf1, b)) is None) by {
                    if let Some((end, skip)) = ending(carried(buf1, b)) {
                        if terminator(y) is Some {
                            assert(carried(buf1, b) =~= seq![0x1bu8] + b);
                            assert(y + b =~= y.drop_last() + (seq![0x1bu8] + b));
                            lemma_terminator_shift(y.drop_last(), seq![0x1bu8] + b, 0);
                        } else {
                            if y.len() > 0 {
                                assert(buf1.last() == y.last());
                            }
                            assert(carried(buf1, b) =~= b);
                            lemma_terminator_shift(y, b, 0);
                        }
                    }
                }
            }
        },
    }
}

proof fn lemma_scanned_len(multipart: Option<Seq<u8>>, rest: Seq<u8>)
    ensures
        scanned(multipart, rest).1.pending matches Some(buf) ==> buf.len() <= rest.len(),
    decreases rest.len(), 1int,
{
    if let Some(start) = begun_from(rest, 0) {
        lemma_begun_from(rest, 0);
        if start + 7 <= rest.len() {
            lemma_payload_len(multipart, Seq::empty(), rest.skip(start + 7));
        }
    }
}

proof fn lemma_payload_len(multipart: Option<Seq<u8>>, body: Seq<u8>, rest: Seq<u8>)
    ensures
        payload_fed(multipart, body, rest).1.pending matches Some(buf) ==> buf.len() <= body.len()
            + rest.len(),
    decreases rest.len(), 0int,
{
    if let Some((end, skip)) = ending(rest) {
        lemma_terminator_from(rest, 0);
        let (_, multipart1) = classified(multipart, body + rest.take(end));
        lemma_scanned_len(multipart1, rest.skip(end + skip));
    }
}

/// Output no longer than a payload may be can be cut anywhere without further
/// ado: the images and the plain bytes are those of the whole.
pub proof fn law_short_output_joins(multipart: Option<Seq<u8>>, a: Seq<u8>, b: Seq<u8>)
    requires
        a.len() + b.len() <= MAX_PENDING,
    ensures
        in_bytes(fed(idle(multipart), a + b).0) == in_bytes(fed(idle(multipart), a).0) + in_bytes(
            fed(fed(idle(multipart), a).1, b).0,
        ),
        fed(idle(multipart), a + b).1 == fed(fed(idle(multipart), a).1, b).1,
{
    let state = idle(multipart);
    assert(state.held + a =~= a);
    lemma_scanned_len(multipart, a);
    law_chunks_join(state, a, b);
}

/// A payload between the prefix and BEL.
pub open spec fn escape(payload: Seq<u8>) -> Seq<u8> {
    prefix() + payload + seq![0x07u8]
}

/// Whether bytes hold neither BEL nor an escape.
pub open spec fn calm(s: Seq<u8>) -> bool {
    forall|i: int| 0 <= i < s.len() ==> #[trigger] s[i] != 0x07 && s[i] != 0x1b
}

/// A whole sequence gives what its payload contributes.
pub proof fn lemma_escape(multipart: Option<Seq<u8>>, payload: Seq<u8>)
    requires
        calm(payload),
    ensures
        ({
            let (found, multipart1) = classified(multipart, payload);
            fed(idle(multipart), escape(payload)) == (found, idle(multipart1))
        }),
{
    let all = escape(payload);
    let tail = payload + seq![0x07u8];
    assert(idle(multipart).held + all =~= all);
    assert(all.subrange(0, 7) =~= prefix());
    assert(begun(all, 0));
    assert(all.skip(7) =~= tail);
    assert(all.take(0) =~= Seq::empty());
    lemma_terminator_shift(payload, seq![0x07u8], 0);
    let bel = seq![0x07u8];
    assert(terminator_from(bel, 0) == Some((0int, 1int)));
    assert(ending(tail) == Some((payload.len() as int, 1int)));
    assert(Seq::<u8>::empty() + tail.take(payload.len() as int) =~= payload);
    let none = tail.skip(payload.len() as int + 1);
    assert(none =~= Seq::empty());
    let (found, multipart1) = classified(multipart, payload);
    assert(scanned(multipart1, none) == (Seq::<Piece>::empty(), idle(multipart1)));
    let quiet = Seq::<Piece>::empty();
    assert(quiet + (found + quiet) =~= found);
}

/// The texts of the parts of a transfer, one behind the other.
pub open spec fn whole(parts: Seq<Seq<u8>>) -> Seq<u8>
    decreases parts.len(),
{
    if parts.len() == 0 {
        Seq::empty()
    } else {
        whole(parts.drop_last()) + parts.last()
    }
}

/// What chunks give one after the other, and the state after them.
pub open spec fn fed_all(state: ScanState, chunks: Seq<Seq<u8>>) -> (Seq<Piece>, ScanState)
    decreases chunks.len(),
{
    if chunks.len() == 0 {
        (Seq::empty(), state)
    } else {
        let (out, next) = fed_all(state, chunks.drop_last());
        let (more, last) = fed(next, chunks.last());
        (out + more, last)
    }
}

/// The sequences that send parts.
pub open spec fn part_escapes(parts: Seq<Seq<u8>>) -> Seq<Seq<u8>> {
    parts.map_values(|p: Seq<u8>| escape(part_tag() + p))
}

proof fn lemma_parts(parts: Seq<Seq<u8>>)
    requires
        calm(whole(parts)),
        whole(parts).len() <= MAX_MULTIPART,
    ensures
        fed_all(idle(Some(Seq::empty())), part_escapes(parts)) == (
            Seq::<Piece>::empty(),
            idle(Some(whole(parts))),
        ),
    decreases parts.len(),
{
    let sent = part_escapes(parts);
    if parts.len() > 0 {
        let front = parts.drop_last();
        let part = parts.last();
        let before = whole(front);
        let all = whole(parts);
        assert forall|i: int| 0 <= i < before.len() implies #[trigger] before[i] != 0x07 && before[i]
            != 0x1b by {
            assert(all[i] == before[i]);
        }
        assert forall|i: int| 0 <= i < part.len() implies #[trigger] part[i] != 0x07 && part[i]
            != 0x1b by {
            assert(all[before.len() + i] == part[i]);
        }
        lemma_parts(front);
        assert(sent.drop_last() =~= part_escapes(front));
        let payload = part_tag() + part;
        assert(calm(payload)) by {
            assert forall|i: int| 0 <= i < payload.len() implies #[trigger] payload[i] != 0x07
                && payload[i] != 0x1b by {
                if i >= 9 {
                    assert(payload[i] == part[i - 9]);
                }
            }
        }
        lemma_escape(Some(before), payload);
        lemma_part_tags(part);
        assert(before + payload.skip(9) =~= all);
        let quiet = Seq::<Piece>::empty();
        assert(quiet + quiet =~= quiet);
    }
}

/// The tag of a part is no other tag.
proof fn lemma_part_tags(part: Seq<u8>)
    ensures
        ({
            let payload = part_tag() + part;
            &&& !text::stands_at(payload, file_tag(), 0)
            &&& !text::stands_at(payload, multipart_tag(), 0)
            &&& text::stands_at(payload, part_tag(), 0)
            &&& payload.skip(9) == part
        }),
{
    let payload = part_tag() + part;
    assert(payload.subrange(0, 5)[4] == 0x50);
    assert(file_tag()[4] == 0x3d);
    if payload.len() >= 14 {
        assert(payload.subrange(0, 14)[0] == 0x46);
        assert(multipart_tag()[0] == 0x4d);
    }
    assert(payload.subrange(0, 9) =~= part_tag());
    assert(payload.skip(9) =~= part);
}

/// How the payloads of a transfer in parts are taken: the header begins one,
/// each part adds to it, the end gives the picture and uses the transfer up.
pub proof fn law_transfer_is_used_up(
    multipart: Option<Seq<u8>>,
    args: Seq<u8>,
    before: Seq<u8>,
    part: Seq<u8>,
    data: Seq<u8>,
)
    requires
        before.len() + part.len() <= MAX_MULTIPART,
    ensures
        classified(multipart, multipart_tag() + args) == (
            Seq::<Piece>::empty(),
            Some(Seq::<u8>::empty()),
        ),
        classified(Some(before), part_tag() + part) == (
            Seq::<Piece>::empty(),
            Some(before + part),
        ),
        classified(Some(ascii_bytes(b64_encoded(data))), end_tag()) == (
            data_pieces(data),
            None::<Seq<u8>>,
        ),
        classified(None, end_tag()) == (Seq::<Piece>::empty(), None::<Seq<u8>>),
{
    law_b64_roundtrip(data);
    let header = multipart_tag() + args;
    assert(header.subrange(0, 14) =~= multipart_tag());
    assert(header.subrange(0, 5)[0] == 0x4d);
    assert(file_tag()[0] == 0x46);
    lemma_part_tags(part);
    let end = end_tag();
    assert(end.subrange(0, 7) =~= end_tag());
    assert(end.subrange(0, 5)[4] == 0x45);
    assert(file_tag()[4] == 0x3d);
}

/// A picture that is sent in parts, as a header, its base64 in pieces of any
/// size and an end, comes out once, at the end; a second end gives nothing.
pub proof fn law_transfer_in_parts(
    multipart: Option<Seq<u8>>,
    args: Seq<u8>,
    parts: Seq<Seq<u8>>,
    data: Seq<u8>,
)
    requires
        calm(args),
        whole(parts) == ascii_bytes(b64_encoded(data)),
        whole(parts).len() <= MAX_MULTIPART,
    ensures
        fed(idle(multipart), escape(multipart_tag() + args)) == (
            Seq::<Piece>::empty(),
            idle(Some(Seq::empty())),
        ),
        fed_all(idle(Some(Seq::empty())), part_escapes(parts)) == (
            Seq::<Piece>::empty(),
            idle(Some(whole(parts))),
        ),
        fed(idle(Some(whole(parts))), escape(end_tag())) == (data_pieces(data), idle(None)),
        fed(idle(None), escape(end_tag())) == (Seq::<Piece>::empty(), idle(None)),
{
    law_transfer_is_used_up(multipart, args, Seq::empty(), Seq::empty(), data);
    lemma_b64_range(data);
    let all = whole(parts);
    assert forall|i: int| 0 <= i < all.len() implies #[trigger] all[i] != 0x07 && all[i] != 0x1b by {
        assert('+' <= b64_encoded(data)[i] <= 'z');
    }
    lemma_parts(parts);
    let header = multipart_tag() + args;
    assert(calm(header)) by {
        assert forall|i: int| 0 <= i < header.len() implies #[trigger] header[i] != 0x07
            && header[i] != 0x1b by {
            if i >= 14 {
                assert(header[i] == args[i - 14]);
            }
        }
    }
    lemma_escape(multipart, header);
    lemma_escape(Some(all), end_tag());
    lemma_escape(None, end_tag());
}

/// Base64 is written in characters from plus sign to z.
pub proof fn lemma_b64_range(s: Seq<u8>)
    ensures
        forall|i: int|
            0 <= i < b64_encoded(s).len() ==> '+' <= #[trigger] b64_encoded(s)[i] <= 'z',
    decreases s.len(),
{
    if s.len() >= 3 {
        lemma_b64_range(s.skip(3));
        let tail = b64_encoded(s.skip(3));
        assert forall|i: int| 0 <= i < b64_encoded(s).len() implies '+' <= #[trigger] b64_encoded(
            s,
        )[i] <= 'z' by {
            if i >= 4 {
                assert(b64_encoded(s)[i] == tail[i - 4]);
            }
        }
    }
}

/// Whether an image among the pieces, if there is one, has a size to show.
pub open spec fn all_sized(p: Seq<Piece>) -> bool {
    forall|i: int|
        0 <= i < p.len() ==> ((#[trigger] p[i]) matches Piece::Image { width, height, .. } ==> size_ok(
            width,
            height,
        ))
}

proof fn lemma_all_sized_concat(a: Seq<Piece>, b: Seq<Piece>)
    requires
        all_sized(a),
        all_sized(b),
    ensures
        all_sized(a + b),
{
    assert forall|i: int| 0 <= i < (a + b).len() implies ((#[trigger] (a + b)[i]) matches Piece::Image {
        width,
        height,
        ..
    } ==> size_ok(width, height)) by {
        if i < a.len() {
            assert((a + b)[i] == a[i]);
        } else {
            assert((a + b)[i] == b[i - a.len()]);
        }
    }
}

proof fn lemma_scanned_sized(multipart: Option<Seq<u8>>, rest: Seq<u8>)
    ensures
        all_sized(scanned(multipart, rest).0),
    decreases rest.len(), 1int,
{
    if let Some(start) = begun_from(rest, 0) {
        lemma_begun_from(rest, 0);
        if start + 7 <= rest.len() {
            let inner = rest.skip(start + 7);
            lemma_payload_sized(multipart, Seq::empty(), inner);
            lemma_all_sized_concat(
                plain_pieces(rest.take(start)),
                payload_fed(multipart, Seq::empty(), inner).0,
            );
        }
    }
}

proof fn lemma_payload_sized(multipart: Option<Seq<u8>>, body: Seq<u8>, rest: Seq<u8>)
    ensures
        all_sized(payload_fed(multipart, body, rest).0),
    decreases rest.len(), 0int,
{
    lemma_terminator_from(rest, 0);
    if let Some((end, skip)) = ending(rest) {
        let (found, multipart1) = classified(multipart, body + rest.take(end));
        lemma_scanned_sized(multipart1, rest.skip(end + skip));
        lemma_all_sized_concat(found, scanned(multipart1, rest.skip(end + skip)).0);
    }
}

/// No image leaves the scan with an unreasonable size.
pub proof fn law_images_sized(state: ScanState, bytes: Seq<u8>)
    ensures
        all_sized(fed(state, bytes).0),
{
    match state.pending {
        None => {
            lemma_scanned_sized(state.multipart, state.held + bytes);
        },
        Some(buf) => {
            lemma_payload_sized(
                state.multipart,
                buf.take(buf.len() - open_end(buf)),
                carried(buf, bytes),
            );
        },
    }
}

/// The alphabet of base64.
pub open spec fn alphabet() -> Seq<char> {
    "ABCDEFGHIJKLMNOPQRSTUVWXYZabcdefghijklmnopqrstuvwxyz0123456789+/"@
}

/// Three bytes are written as the four digits, to base 64, of the number they
/// are.
pub proof fn law_base64_is_a_number(a: u8, b: u8, c: u8) -> (d: (int, int, int, int))
    ensures
        0 <= d.0 < 64 && 0 <= d.1 < 64 && 0 <= d.2 < 64 && 0 <= d.3 < 64,
        d.0 * 0x4_0000 + d.1 * 0x1000 + d.2 * 0x40 + d.3 == a * 0x1_0000 + b * 0x100 + c,
        b64_encoded(seq![a, b, c]) == seq![
            alphabet()[d.0],
            alphabet()[d.1],
            alphabet()[d.2],
            alphabet()[d.3],
        ],
{
    let d = (
        a as int / 4,
        a as int % 4 * 16 + b as int / 16,
        b as int % 16 * 4 + c as int / 64,
        c as int % 64,
    );
    let s = seq![a, b, c];
    assert(s.skip(3) =~= Seq::<u8>::empty());
    assert(b64_encoded(s.skip(3)) =~= Seq::<char>::empty());
    lemma_alphabet(d.0);
    lemma_alphabet(d.1);
    lemma_alphabet(d.2);
    lemma_alphabet(d.3);
    assert(b64_encoded(s) =~= seq![
        b64_char(d.0),
        b64_char(d.1),
        b64_char(d.2),
        b64_char(d.3),
    ]);
    d
}

/// Two bytes at the end take three digits, one takes two; the bits left over are
/// zero, and the group is padded.
pub proof fn law_base64_is_padded(a: u8, b: u8) -> (d: (int, int, int, int))
    ensures
        0 <= d.0 < 64 && 0 <= d.1 < 64 && 0 <= d.2 < 64 && 0 <= d.3 < 64,
        d.0 * 0x1000 + d.1 * 0x40 + d.2 == (a * 0x100 + b) * 4,
        b64_encoded(seq![a, b]) == seq![alphabet()[d.0], alphabet()[d.1], alphabet()[d.2], '='],
        d.0 * 0x40 + d.3 == a * 16,
        b64_encoded(seq![a]) == seq![alphabet()[d.0], alphabet()[d.3], '=', '='],
{
    let d = (
        a as int / 4,
        a as int % 4 * 16 + b as int / 16,
        b as int % 16 * 4,
        a as int % 4 * 16,
    );
    lemma_alphabet(d.0);
    lemma_alphabet(d.1);
    lemma_alphabet(d.2);
    lemma_alphabet(d.3);
    d
}

proof fn lemma_alphabet(v: int)
    requires
        0 <= v < 64,
    ensures
        alphabet()[v] == b64_char(v),
{
    reveal_strlit("ABCDEFGHIJKLMNOPQRSTUVWXYZabcdefghijklmnopqrstuvwxyz0123456789+/");
}

/// Longer runs are written three bytes at a time.
pub proof fn law_base64_goes_on(s: Seq<u8>, a: u8, b: u8, c: u8)
    ensures
        b64_encoded(seq![a, b, c] + s) == b64_encoded(seq![a, b, c]) + b64_encoded(s),
{
    reveal_with_fuel(b64_encoded, 2);
    let t = seq![a, b, c] + s;
    assert(t.skip(3) =~= s);
    assert(seq![a, b, c].skip(3) =~= Seq::<u8>::empty());
    assert(t[0] == a && t[1] == b && t[2] == c);
    assert(b64_encoded(t) =~= b64_encoded(seq![a, b, c]) + b64_encoded(s));
}

/// The size of a PNG is read off its header: width and height, each in four
/// bytes with the highest first.
pub proof fn law_png_size(gap: Seq<u8>, w: Seq<u8>, h: Seq<u8>, rest: Seq<u8>)
    requires
        gap.len() == 4,
        w.len() == 4,
        h.len() == 4,
    ensures
        ({
            let signature = seq![0x89u8, 0x50, 0x4e, 0x47, 0x0d, 0x0a, 0x1a, 0x0a];
            let tag = seq![0x49u8, 0x48, 0x44, 0x52];
            png_size(signature + gap + tag + w + h + rest) == Some(
                (
                    ((w[0] * 256 + w[1]) * 256 + w[2]) * 256 + w[3],
                    ((h[0] * 256 + h[1]) * 256 + h[2]) * 256 + h[3],
                ),
            )
        }),
        gap.len() + rest.len() < 24 ==> png_size(gap + rest) is None,
{
    let signature = seq![0x89u8, 0x50, 0x4e, 0x47, 0x0d, 0x0a, 0x1a, 0x0a];
    let tag = seq![0x49u8, 0x48, 0x44, 0x52];
    let s = signature + gap + tag + w + h + rest;
    assert(s.take(8) =~= signature);
    assert(s.subrange(12, 16) =~= tag);
    assert(s[16] == w[0] && s[17] == w[1] && s[18] == w[2] && s[19] == w[3]);
    assert(s[20] == h[0] && s[21] == h[1] && s[22] == h[2] && s[23] == h[3]);
}

/// Image data shows as an image where its header gives it a side of 1 to 16384
/// pixels each way, and not at all where it gives another size.
pub proof fn law_image_of_data(data: Seq<u8>)
    ensures
        png_size(data) matches Some((w, h)) ==> data_pieces(data) == (if 1 <= w <= MAX_SIDE && 1
            <= h <= MAX_SIDE {
            seq![Piece::Image { png: data, width: w, height: h }]
        } else {
            Seq::empty()
        }),
        png_size(data) is None ==> data_pieces(data) == seq![Piece::Unsized(data)],
{
}

/// A picture sent in one sequence comes out where it stands: the output before
/// it, the picture, the output behind it. Nothing of the sequence is shown.
pub proof fn law_picture_in_output(a: Seq<u8>, args: Seq<u8>, data: Seq<u8>, b: Seq<u8>)
    requires
        calm(a),
        calm(args),
        calm(b),
        a.len() > 0,
        b.len() > 0,
        forall|i: int| 0 <= i < args.len() ==> #[trigger] args[i] != 0x3a,
        vstd::utf8::valid_utf8(args),
        asks_inline(vstd::utf8::decode_utf8(args)),
    ensures
        ({
            let head = seq![0x1bu8, 0x5d, 0x31, 0x33, 0x33, 0x37, 0x3b];
            let file = seq![0x46u8, 0x69, 0x6c, 0x65, 0x3d];
            let payload = file + args + seq![0x3au8] + ascii_bytes(b64_encoded(data));
            scanned(None, a + head + payload + seq![0x07u8] + b) == (
                seq![Piece::Plain(a)] + data_pieces(data) + seq![Piece::Plain(b)],
                idle(None),
            )
        }),
{
    let head = seq![0x1bu8, 0x5d, 0x31, 0x33, 0x33, 0x37, 0x3b];
    let file = seq![0x46u8, 0x69, 0x6c, 0x65, 0x3d];
    let code = ascii_bytes(b64_encoded(data));
    let payload = file + args + seq![0x3au8] + code;
    let s = a + head + payload + seq![0x07u8] + b;
    let n = a.len() as int;
    assert(s.subrange(n, n + 7) =~= prefix());
    assert forall|i: int| 0 <= i < n implies !#[trigger] begun(s, i) by {
        assert(s[i] == a[i]);
        if begun(s, i) {
            assert(s.subrange(i, i + 7)[0] == s[i]);
        }
    }
    lemma_begun_first(s, 0, n);
    assert(s.take(n) =~= a);
    let rest = s.skip(n + 7);
    assert(rest =~= payload + seq![0x07u8] + b);
    lemma_calm_payload(args, data);
    let m = payload.len() as int;
    lemma_terminator_first(rest, 0, m);
    assert(rest.take(m) =~= payload);
    assert(Seq::<u8>::empty() + payload =~= payload);
    assert(rest.skip(m + 1) =~= b);
    lemma_file_payload(args, data);
    lemma_calm_scanned(b);
    assert(plain_pieces(a) + (data_pieces(data) + seq![Piece::Plain(b)]) =~= seq![Piece::Plain(a)]
        + data_pieces(data) + seq![Piece::Plain(b)]);
}

proof fn lemma_begun_first(s: Seq<u8>, i: int, n: int)
    requires
        0 <= i <= n,
        begun(s, n),
        forall|j: int| i <= j < n ==> !#[trigger] begun(s, j),
    ensures
        begun_from(s, i) == Some(n),
    decreases n - i,
{
    if i < n {
        lemma_begun_first(s, i + 1, n);
    }
}

proof fn lemma_terminator_first(s: Seq<u8>, i: int, n: int)
    requires
        0 <= i <= n < s.len(),
        s[n] == 0x07,
        forall|j: int| i <= j < n ==> #[trigger] s[j] != 0x07 && s[j] != 0x1b,
    ensures
        terminator_from(s, i) == Some((n, 1int)),
    decreases n - i,
{
    if i < n {
        lemma_terminator_first(s, i + 1, n);
    }
}

/// The payload of a file holds no end of itself.
proof fn lemma_calm_payload(args: Seq<u8>, data: Seq<u8>)
    requires
        calm(args),
    ensures
        calm(seq![0x46u8, 0x69, 0x6c, 0x65, 0x3d] + args + seq![0x3au8] + ascii_bytes(b64_encoded(data))),
{
    lemma_calm_code(data);
}

/// Base64 holds neither BEL nor an escape.
proof fn lemma_calm_code(data: Seq<u8>)
    ensures
        calm(ascii_bytes(b64_encoded(data))),
{
    lemma_code_chars(data);
    let e = b64_encoded(data);
    let c = ascii_bytes(e);
    assert forall|i: int| 0 <= i < c.len() implies #[trigger] c[i] != 0x07 && c[i] != 0x1b by {
        assert('+' <= e[i] <= 'z');
        assert(c[i] == e[i] as u8);
    }
}

proof fn lemma_code_chars(data: Seq<u8>)
    ensures
        forall|i: int|
            0 <= i < b64_encoded(data).len() ==> '+' <= (#[trigger] b64_encoded(data)[i]) <= 'z',
    decreases data.len(),
{
    if data.len() >= 3 {
        let r = b64_encoded(data.skip(3));
        lemma_code_chars(data.skip(3));
        assert forall|i: int| 0 <= i < b64_encoded(data).len() implies '+' <= (
        #[trigger] b64_encoded(data)[i]) <= 'z' by {
            if i >= 4 {
                assert(b64_encoded(data)[i] == r[i - 4]);
            }
        }
    }
}

proof fn lemma_file_payload(args: Seq<u8>, data: Seq<u8>)
    requires
        forall|i: int| 0 <= i < args.len() ==> #[trigger] args[i] != 0x3a,
        vstd::utf8::valid_utf8(args),
        asks_inline(vstd::utf8::decode_utf8(args)),
    ensures
        classified(
            None,
            seq![0x46u8, 0x69, 0x6c, 0x65, 0x3d] + args + seq![0x3au8] + ascii_bytes(b64_encoded(data)),
        ) == (data_pieces(data), None::<Seq<u8>>),
{
    let file = seq![0x46u8, 0x69, 0x6c, 0x65, 0x3d];
    let code = ascii_bytes(b64_encoded(data));
    let p = file + args + seq![0x3au8] + code;
    assert(p.subrange(0, 5) =~= file_tag());
    let q = p.skip(5);
    assert(q =~= args + seq![0x3au8] + code);
    let n = args.len() as int;
    assert(q.subrange(n, n + 1) =~= seq![0x3au8]);
    assert forall|i: int| 0 <= i < n implies !#[trigger] text::stands_at(q, seq![0x3au8], i) by {
        if text::stands_at(q, seq![0x3au8], i) {
            assert(q.subrange(i, i + 1)[0] == q[i]);
            assert(q[i] == args[i]);
        }
    }
    text::lemma_found(q, seq![0x3au8], 0, n);
    assert(q.take(n) =~= args);
    assert(q.skip(n + 1) =~= code);
    law_b64_roundtrip(data);
}

proof fn lemma_calm_scanned(b: Seq<u8>)
    requires
        calm(b),
    ensures
        scanned(None, b) == (plain_pieces(b), idle(None)),
{
    lemma_begun_from(b, 0);
    assert forall|i: int| 0 <= i < b.len() implies !#[trigger] begun(b, i) by {
        if begun(b, i) {
            if i + 7 <= b.len() {
                assert(b.subrange(i, i + 7)[0] == b[i]);
            } else {
                assert(b.skip(i)[0] == b[i]);
                assert(prefix().take(b.len() - i)[0] == 0x1b);
            }
        }
    }
}

} // verus!
