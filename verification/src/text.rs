//! Text as sequences of characters: the few operations on strings that the
//! other modules share.
use vstd::prelude::*;
use vstd::slice::*;

verus! {

/// `String::push` appends one character.
pub assume_specification[ String::push ](s: &mut String, c: char)
    ensures
        final(s)@ == old(s)@.push(c),
;

/// The text that `std::str::from_utf8` reads out of bytes: all of them, where
/// they are well-formed UTF-8, and nothing otherwise.
#[verifier::external_body]
pub(crate) fn utf8_text(bytes: &[u8]) -> (r: Option<&str>)
    ensures
        match r {
            Some(s) => vstd::utf8::valid_utf8(bytes@) && s@ == vstd::utf8::decode_utf8(bytes@),
            None => !vstd::utf8::valid_utf8(bytes@),
        },
{
    std::str::from_utf8(bytes).ok()
}

/// The characters of a string.
pub fn chars_of(s: &str) -> (v: Vec<char>)
    ensures
        v@ == s@,
{
    broadcast use vstd::string::axiom_spec_iter;

    let mut v: Vec<char> = Vec::new();
    for c in it: s.chars()
        invariant
            v@ == it.seq().take(it.index() as int),
            it.seq() == s@,
    {
        v.push(c);
        assert(it.seq().take(it.index() as int + 1) =~= it.seq().take(it.index() as int).push(c));
    }
    assert(v@ =~= s@);
    v
}

/// Append characters to a string.
pub fn push_chars(s: &mut String, v: &[char])
    ensures
        final(s)@ == old(s)@ + v@,
{
    let mut i: usize = 0;
    while i < v.len()
        invariant
            i <= v@.len(),
            s@ == old(s)@ + v@.take(i as int),
        decreases v@.len() - i,
    {
        s.push(v[i]);
        assert(v@.take(i + 1) =~= v@.take(i as int).push(v@[i as int]));
        i += 1;
    }
    assert(v@.take(i as int) =~= v@);
}

/// The string that characters make up.
pub fn string_of(v: &[char]) -> (s: String)
    ensures
        s@ == v@,
{
    let mut s = String::new();
    push_chars(&mut s, v);
    assert(s@ =~= v@);
    s
}

/// Append text to a string.
pub fn push_text(s: &mut String, t: &str)
    ensures
        final(s)@ == old(s)@ + t@,
{
    push_chars(s, chars_of(t).as_slice());
}

/// A string of its own.
pub fn owned(t: &str) -> (s: String)
    ensures
        s@ == t@,
{
    string_of(chars_of(t).as_slice())
}

/// Whether two pieces of text are the same.
pub fn same_chars(a: &[char], b: &[char]) -> (r: bool)
    ensures
        r == (a@ == b@),
{
    if a.len() != b.len() {
        return false;
    }
    let mut i: usize = 0;
    while i < a.len()
        invariant
            i <= a@.len() == b@.len(),
            forall|j: int| 0 <= j < i ==> a@[j] == b@[j],
        decreases a@.len() - i,
    {
        if a[i] != b[i] {
            assert(a@[i as int] != b@[i as int]);
            return false;
        }
        i += 1;
    }
    assert(a@ =~= b@);
    true
}

pub fn same(a: &str, b: &str) -> (r: bool)
    ensures
        r == (a@ == b@),
{
    same_chars(chars_of(a).as_slice(), chars_of(b).as_slice())
}

/// Characters with the Unicode property White_Space.
pub open spec fn is_space(c: char) -> bool {
    ||| '\t' <= c <= '\r'
    ||| c == ' '
    ||| c == '\u{85}'
    ||| c == '\u{a0}'
    ||| c == '\u{1680}'
    ||| '\u{2000}' <= c <= '\u{200a}'
    ||| c == '\u{2028}'
    ||| c == '\u{2029}'
    ||| c == '\u{202f}'
    ||| c == '\u{205f}'
    ||| c == '\u{3000}'
}

pub fn space(c: char) -> (r: bool)
    ensures
        r == is_space(c),
{
    ('\t' <= c && c <= '\r') || c == ' ' || c == '\u{85}' || c == '\u{a0}' || c == '\u{1680}' || (
    '\u{2000}' <= c && c <= '\u{200a}') || c == '\u{2028}' || c == '\u{2029}' || c == '\u{202f}'
        || c == '\u{205f}' || c == '\u{3000}'
}

/// Text without the white space it starts with.
pub open spec fn trim_left(s: Seq<char>) -> Seq<char>
    decreases s.len(),
{
    if s.len() > 0 && is_space(s[0]) {
        trim_left(s.drop_first())
    } else {
        s
    }
}

/// Text without the white space it ends with.
pub open spec fn trim_right(s: Seq<char>) -> Seq<char>
    decreases s.len(),
{
    if s.len() > 0 && is_space(s.last()) {
        trim_right(s.drop_last())
    } else {
        s
    }
}

/// Text without white space around it.
pub open spec fn trimmed(s: Seq<char>) -> Seq<char> {
    trim_right(trim_left(s))
}

pub fn trim(s: &[char]) -> (r: &[char])
    ensures
        r@ == trimmed(s@),
{
    let n: usize = s.len();
    let mut i: usize = 0;
    assert(s@.skip(0) =~= s@);
    while i < n && space(s[i])
        invariant
            i <= n == s@.len(),
            trim_left(s@) == trim_left(s@.skip(i as int)),
        decreases n - i,
    {
        assert(s@.skip(i as int).drop_first() =~= s@.skip(i + 1));
        i += 1;
    }
    let ghost left = s@.skip(i as int);
    assert(trim_left(s@) == left);
    let mut j: usize = n;
    assert(s@.subrange(i as int, n as int) =~= left);
    while i < j && space(s[j - 1])
        invariant
            i <= j <= n == s@.len(),
            trim_right(left) == trim_right(s@.subrange(i as int, j as int)),
        decreases j - i,
    {
        assert(s@.subrange(i as int, j as int).drop_last() =~= s@.subrange(i as int, j - 1));
        j -= 1;
    }
    slice_subrange(s, i, j)
}

/// Whether `p` stands in `s` at index `i`.
pub open spec fn stands_at<T>(s: Seq<T>, p: Seq<T>, i: int) -> bool {
    0 <= i && i + p.len() <= s.len() && s.subrange(i, i + p.len()) == p
}

/// Where `p` first stands in `s`, from index `from` on.
pub open spec fn find_from<T>(s: Seq<T>, p: Seq<T>, from: int) -> Option<int>
    decreases s.len() + 1 - from,
{
    if from < 0 || from + p.len() > s.len() {
        None
    } else if stands_at(s, p, from) {
        Some(from)
    } else {
        find_from(s, p, from + 1)
    }
}

/// Where `p` first stands in `s`.
pub open spec fn find<T>(s: Seq<T>, p: Seq<T>) -> Option<int> {
    find_from(s, p, 0)
}

/// What finding means: the first place, or none at all.
pub proof fn lemma_find_from<T>(s: Seq<T>, p: Seq<T>, from: int)
    requires
        0 <= from,
    ensures
        match find_from(s, p, from) {
            Some(i) => from <= i && stands_at(s, p, i) && forall|j: int|
                from <= j < i ==> !#[trigger] stands_at(s, p, j),
            None => forall|j: int| from <= j ==> !#[trigger] stands_at(s, p, j),
        },
    decreases s.len() + 1 - from,
{
    if from + p.len() <= s.len() && !stands_at(s, p, from) {
        lemma_find_from(s, p, from + 1);
    }
}

pub fn stands(s: &[char], p: &[char], i: usize) -> (r: bool)
    ensures
        r == stands_at(s@, p@, i as int),
{
    if i > s.len() || p.len() > s.len() - i {
        return false;
    }
    same_chars(slice_subrange(s, i, i + p.len()), p)
}

pub fn find_chars(s: &[char], p: &[char]) -> (r: Option<usize>)
    ensures
        match r {
            Some(i) => find(s@, p@) == Some(i as int),
            None => find(s@, p@) is None,
        },
        r is Some ==> r->0 + p@.len() <= s@.len(),
{
    let mut i: usize = 0;
    while i <= s.len() && p.len() <= s.len() - i
        invariant
            i <= s@.len() + 1,
            s@.len() <= usize::MAX - 1 || i <= s@.len(),
            find(s@, p@) == find_from(s@, p@, i as int),
        decreases s@.len() + 1 - i,
    {
        if stands(s, p, i) {
            return Some(i);
        }
        if i == usize::MAX {
            assert(find_from(s@, p@, i + 1) is None);
            return None;
        }
        i += 1;
    }
    None
}

/// Whether the text holds `p`.
pub open spec fn holds<T>(s: Seq<T>, p: Seq<T>) -> bool {
    find(s, p) is Some
}

pub fn has_text(s: &[char], p: &str) -> (r: bool)
    ensures
        r == holds(s@, p@),
{
    find_chars(s, chars_of(p).as_slice()).is_some()
}

pub fn begins(s: &[char], p: &str) -> (r: bool)
    ensures
        r == stands_at(s@, p@, 0),
{
    stands(s, chars_of(p).as_slice(), 0)
}

pub fn index_of(s: &[char], c: char) -> (r: Option<usize>)
    ensures
        match r {
            Some(i) => i < s@.len() && s@[i as int] == c && forall|j: int|
                0 <= j < i ==> s@[j] != c,
            None => forall|j: int| 0 <= j < s@.len() ==> s@[j] != c,
        },
{
    let mut i: usize = 0;
    while i < s.len()
        invariant
            i <= s@.len(),
            forall|j: int| 0 <= j < i ==> s@[j] != c,
        decreases s@.len() - i,
    {
        if s[i] == c {
            return Some(i);
        }
        i += 1;
    }
    None
}

/// Whether the text has the character.
pub fn has_char(s: &[char], c: char) -> (r: bool)
    ensures
        r == s@.contains(c),
{
    match index_of(s, c) {
        Some(i) => {
            assert(s@[i as int] == c);
            true
        },
        None => false,
    }
}

/// A letter of ASCII in lower case; other characters stay.
pub open spec fn ascii_lower(c: char) -> char {
    if 'A' <= c <= 'Z' {
        (c as u32 + 32) as char
    } else {
        c
    }
}

pub open spec fn lowered(s: Seq<char>) -> Seq<char> {
    s.map_values(|c: char| ascii_lower(c))
}

pub fn to_lower(c: char) -> (r: char)
    ensures
        r == ascii_lower(c),
{
    if 'A' <= c && c <= 'Z' {
        ((c as u8) + 32) as char
    } else {
        c
    }
}

/// Text with the letters of ASCII in lower case.
pub fn to_lower_all(s: &[char]) -> (r: Vec<char>)
    ensures
        r@ == lowered(s@),
{
    let mut r: Vec<char> = Vec::new();
    let mut i: usize = 0;
    while i < s.len()
        invariant
            i <= s@.len(),
            r@ == lowered(s@.take(i as int)),
        decreases s@.len() - i,
    {
        r.push(to_lower(s[i]));
        assert(lowered(s@.take(i + 1)) =~= lowered(s@.take(i as int)).push(
            ascii_lower(s@[i as int]),
        ));
        i += 1;
    }
    assert(s@.take(i as int) =~= s@);
    r
}

/// Index of the first `c`; the length where there is none.
pub open spec fn char_pos(s: Seq<char>, c: char) -> int
    decreases s.len(),
{
    if s.len() == 0 || s[0] == c {
        0
    } else {
        1 + char_pos(s.drop_first(), c)
    }
}

pub proof fn lemma_char_pos(s: Seq<char>, c: char, i: int)
    requires
        0 <= i <= s.len(),
        i < s.len() ==> s[i] == c,
        forall|j: int| 0 <= j < i ==> s[j] != c,
    ensures
        char_pos(s, c) == i,
    decreases s.len(),
{
    if i > 0 {
        lemma_char_pos(s.drop_first(), c, i - 1);
    }
}

/// The text before the first `c`; all of it where there is none.
pub open spec fn until(s: Seq<char>, c: char) -> Seq<char> {
    s.take(char_pos(s, c))
}

/// Index of the first `c`, or the length.
pub fn pos_of(s: &[char], c: char) -> (r: usize)
    ensures
        r == char_pos(s@, c),
        r <= s@.len(),
        r < s@.len() ==> s@[r as int] == c,
{
    let mut i: usize = 0;
    while i < s.len() && s[i] != c
        invariant
            i <= s@.len(),
            forall|j: int| 0 <= j < i ==> s@[j] != c,
        decreases s@.len() - i,
    {
        i += 1;
    }
    proof {
        lemma_char_pos(s@, c, i as int);
    }
    i
}

/// Whether `s[i..j]` is one of the parts that `sep` cuts the text into.
pub open spec fn is_part(s: Seq<char>, sep: char, i: int, j: int) -> bool {
    &&& 0 <= i <= j <= s.len()
    &&& i == 0 || s[i - 1] == sep
    &&& j == s.len() || s[j] == sep
    &&& forall|k: int| i <= k < j ==> s[k] != sep
}

/// The part that starts at `i` ends at the next separator.
pub proof fn lemma_part_end(s: Seq<char>, sep: char, i: int, j: int, k: int)
    requires
        is_part(s, sep, i, j),
        is_part(s, sep, i, k) || is_part(s, sep, k, j),
    ensures
        is_part(s, sep, i, k) ==> j == k,
        is_part(s, sep, k, j) ==> i == k,
{
    if is_part(s, sep, i, k) {
        if j < k {
            assert(s[j] == sep);
        } else if k < j {
            assert(s[k] == sep);
        }
    }
    if is_part(s, sep, k, j) {
        if i < k {
            assert(s[k - 1] == sep);
        } else if k < i {
            assert(s[i - 1] == sep);
        }
    }
}

/// Text with each `a` replaced by `b`.
pub open spec fn replaced(s: Seq<char>, a: char, b: char) -> Seq<char> {
    s.map_values(|c: char| if c == a { b } else { c })
}

pub fn replace_char(s: &[char], a: char, b: char) -> (r: Vec<char>)
    ensures
        r@ == replaced(s@, a, b),
{
    let mut r: Vec<char> = Vec::new();
    let mut i: usize = 0;
    while i < s.len()
        invariant
            i <= s@.len(),
            r@ == replaced(s@.take(i as int), a, b),
        decreases s@.len() - i,
    {
        r.push(if s[i] == a { b } else { s[i] });
        assert(replaced(s@.take(i + 1), a, b) =~= replaced(s@.take(i as int), a, b).push(
            if s@[i as int] == a { b } else { s@[i as int] },
        ));
        i += 1;
    }
    assert(s@.take(i as int) =~= s@);
    r
}

/// The last component of a path: what follows its last slash or backslash.
pub open spec fn base_name(s: Seq<char>) -> Seq<char>
    decreases s.len(),
{
    if s.len() == 0 || s.last() == '\\' || s.last() == '/' {
        Seq::empty()
    } else {
        base_name(s.drop_last()).push(s.last())
    }
}

pub fn base_of(s: &[char]) -> (r: &[char])
    ensures
        r@ == base_name(s@),
{
    let n: usize = s.len();
    let mut i: usize = n;
    assert(s@.skip(n as int) =~= Seq::empty());
    assert(s@.take(n as int) =~= s@);
    while i > 0 && s[i - 1] != '\\' && s[i - 1] != '/'
        invariant
            i <= n == s@.len(),
            base_name(s@) == base_name(s@.take(i as int)) + s@.skip(i as int),
        decreases i,
    {
        assert(s@.take(i as int).drop_last() =~= s@.take(i - 1));
        assert(base_name(s@.take(i - 1)).push(s@[i - 1]) + s@.skip(i as int) =~= base_name(
            s@.take(i - 1),
        ) + s@.skip(i - 1));
        i -= 1;
    }
    assert(base_name(s@.take(i as int)) =~= Seq::empty());
    assert(s@.subrange(i as int, n as int) =~= s@.skip(i as int));
    assert(Seq::<char>::empty() + s@.skip(i as int) =~= s@.skip(i as int));
    slice_subrange(s, i, n)
}

/// A number in decimal.
pub open spec fn decimal(n: nat) -> Seq<char>
    decreases n,
{
    if n < 10 {
        seq![(0x30 + n) as char]
    } else {
        decimal(n / 10).push((0x30 + n % 10) as char)
    }
}

/// Append a number in decimal.
pub fn push_decimal(s: &mut String, n: u64)
    ensures
        final(s)@ == old(s)@ + decimal(n as nat),
    decreases n,
{
    if n >= 10 {
        push_decimal(s, n / 10);
    }
    s.push((0x30 + (n % 10) as u8) as char);
    assert(s@ =~= old(s)@ + decimal(n as nat));
}

pub fn decimal_of(n: u64) -> (s: String)
    ensures
        s@ == decimal(n as nat),
{
    let mut s = String::new();
    push_decimal(&mut s, n);
    assert(s@ =~= decimal(n as nat));
    s
}

/// Whether a piece of text occurs in a list.
pub fn in_list(list: &Vec<String>, t: &str) -> (r: bool)
    ensures
        r == exists|i: int| 0 <= i < list@.len() && (#[trigger] list@[i])@ == t@,
{
    let mut i: usize = 0;
    while i < list.len()
        invariant
            i <= list@.len(),
            forall|j: int| 0 <= j < i ==> (#[trigger] list@[j])@ != t@,
        decreases list@.len() - i,
    {
        if same(list[i].as_str(), t) {
            return true;
        }
        i += 1;
    }
    false
}

/// A number in decimal, as bytes.
pub open spec fn number(n: nat) -> Seq<u8>
    decreases n,
{
    if n < 10 {
        seq![(0x30 + n) as u8]
    } else {
        number(n / 10).push((0x30 + n % 10) as u8)
    }
}

/// Append a number in decimal, as bytes.
pub fn push_number(v: &mut Vec<u8>, n: u64)
    ensures
        final(v)@ == old(v)@ + number(n as nat),
    decreases n,
{
    if n >= 10 {
        push_number(v, n / 10);
    }
    v.push(0x30 + (n % 10) as u8);
    assert(v@ =~= old(v)@ + number(n as nat));
}

/// The parts that `sep` cuts the text into.
pub open spec fn split(s: Seq<char>, sep: char) -> Seq<Seq<char>>
    decreases s.len(),
{
    let p = char_pos(s, sep);
    if 0 <= p < s.len() {
        seq![s.take(p)] + split(s.skip(p + 1), sep)
    } else {
        seq![s]
    }
}

pub fn split_chars(s: &[char], sep: char) -> (r: Vec<Vec<char>>)
    ensures
        r@.len() == split(s@, sep).len(),
        r@.len() >= 1,
        forall|i: int| 0 <= i < r@.len() ==> (#[trigger] r@[i])@ == split(s@, sep)[i],
{
    let n: usize = s.len();
    let ghost all = split(s@, sep);
    let mut r: Vec<Vec<char>> = Vec::new();
    let mut from: usize = 0;
    assert(s@.skip(0) =~= s@);
    loop
        invariant
            from <= n == s@.len(),
            all == split(s@, sep),
            r@.len() + split(s@.skip(from as int), sep).len() == all.len(),
            forall|i: int| 0 <= i < r@.len() ==> (#[trigger] r@[i])@ == all[i],
            forall|i: int|
                0 <= i < split(s@.skip(from as int), sep).len() ==> #[trigger] split(
                    s@.skip(from as int),
                    sep,
                )[i] == all[r@.len() + i],
        decreases n - from,
    {
        let rest = slice_subrange(s, from, n);
        assert(rest@ =~= s@.skip(from as int));
        let p: usize = pos_of(rest, sep);
        if p < rest.len() {
            let part = slice_to_vec(slice_subrange(rest, 0, p));
            assert(part@ =~= rest@.take(p as int));
            let ghost here = split(rest@, sep);
            let ghost next = split(rest@.skip(p + 1), sep);
            assert(rest@.skip(p + 1) =~= s@.skip(from + p + 1));
            assert(here == seq![rest@.take(p as int)] + next);
            assert(here[0] == part@);
            let ghost k = r@.len();
            r.push(part);
            assert forall|i: int| 0 <= i < next.len() implies #[trigger] next[i] == all[k + 1 + i] by {
                assert(here[i + 1] == next[i]);
            }
            from = from + p + 1;
        } else {
            assert(split(rest@, sep) =~= seq![rest@]);
            assert(split(rest@, sep)[0] == rest@);
            r.push(slice_to_vec(rest));
            return r;
        }
    }
}

/// The number that decimal digits write; None for anything else.
pub open spec fn digits_value(s: Seq<char>) -> Option<nat>
    decreases s.len(),
{
    if s.len() == 0 {
        None
    } else if !('0' <= s.last() <= '9') {
        None
    } else if s.len() == 1 {
        Some((s[0] as u32 - 0x30) as nat)
    } else {
        match digits_value(s.drop_last()) {
            Some(v) => Some((v * 10 + (s.last() as u32 - 0x30)) as nat),
            None => None,
        }
    }
}

/// The number that decimal digits write, where it is at most `most`.
pub fn parse_digits(s: &[char], most: u64) -> (r: Option<u64>)
    ensures
        match r {
            Some(v) => digits_value(s@) == Some(v as nat) && v <= most,
            None => !(digits_value(s@) matches Some(v) && v <= most),
        },
{
    let n: usize = s.len();
    if n == 0 {
        return None;
    }
    let mut v: u64 = 0;
    let mut i: usize = 0;
    while i < n
        invariant
            i <= n == s@.len(),
            v <= most,
            i > 0 ==> digits_value(s@.take(i as int)) == Some(v as nat),
            i == 0 ==> v == 0,
        decreases n - i,
    {
        let c = s[i];
        proof {
            assert(s@.take(i + 1).drop_last() =~= s@.take(i as int));
            assert(s@.take(i + 1).last() == c);
        }
        if c < '0' || '9' < c {
            proof {
                assert(digits_value(s@.take(i + 1)) is None);
                lemma_digits_none(s@, i + 1);
            }
            return None;
        }
        let w: u128 = v as u128 * 10 + (c as u32 - 0x30) as u128;
        assert(digits_value(s@.take(i + 1)) == Some(w as nat));
        if w > most as u128 {
            proof {
                lemma_digits_grow(s@, i + 1);
            }
            return None;
        }
        v = w as u64;
        i += 1;
    }
    assert(s@.take(n as int) =~= s@);
    Some(v)
}

proof fn lemma_digits_none(s: Seq<char>, i: int)
    requires
        0 < i <= s.len(),
        digits_value(s.take(i)) is None,
    ensures
        digits_value(s) is None,
    decreases s.len() - i,
{
    if i == s.len() {
        assert(s.take(i) =~= s);
    } else {
        assert(s.take(i + 1).drop_last() =~= s.take(i));
        lemma_digits_none(s, i + 1);
    }
}

proof fn lemma_digits_grow(s: Seq<char>, i: int)
    requires
        0 < i <= s.len(),
        digits_value(s.take(i)) is Some,
    ensures
        digits_value(s) matches Some(v) ==> v >= digits_value(s.take(i))->0,
    decreases s.len() - i,
{
    if i == s.len() {
        assert(s.take(i) =~= s);
    } else {
        assert(s.take(i + 1).drop_last() =~= s.take(i));
        if digits_value(s.take(i + 1)) is Some {
            lemma_digits_grow(s, i + 1);
        } else {
            lemma_digits_none(s, i + 1);
        }
    }
}

/// The value of decimal digits.
pub open spec fn value_of(s: Seq<u8>) -> int
    decreases s.len(),
{
    if s.len() == 0 {
        0
    } else {
        10 * value_of(s.drop_last()) + (s.last() - 0x30)
    }
}

/// A number in decimal consists of digits, does not begin with a zero unless it
/// is one, and has the value that it was made of. So two numbers are written
/// alike only where they are the same.
pub proof fn law_number_reads_back(n: nat)
    ensures
        value_of(number(n)) == n,
        number(n).len() > 0,
        forall|i: int| 0 <= i < number(n).len() ==> 0x30 <= #[trigger] number(n)[i] <= 0x39,
        n > 0 ==> number(n)[0] != 0x30,
        n == 0 ==> number(n) == seq![0x30u8],
    decreases n,
{
    reveal_with_fuel(value_of, 2);
    let s = number(n);
    if n >= 10 {
        law_number_reads_back(n / 10);
        assert(s.drop_last() =~= number(n / 10));
        assert(s[0] == number(n / 10)[0]);
    } else {
        assert(s.drop_last() =~= Seq::empty());
    }
}

/// A number as text has the same digits as one in bytes, and is read back.
pub proof fn law_decimal_reads_back(n: nat)
    ensures
        decimal(n).len() == number(n).len(),
        forall|i: int|
            0 <= i < decimal(n).len() ==> (#[trigger] decimal(n)[i]) as int == number(n)[i] as int,
        digits_value(decimal(n)) == Some(n),
    decreases n,
{
    law_number_reads_back(n);
    if n >= 10 {
        law_decimal_reads_back(n / 10);
        assert(decimal(n).drop_last() =~= decimal(n / 10));
        assert(number(n).drop_last() =~= number(n / 10));
    } else {
        reveal_with_fuel(digits_value, 2);
        assert(decimal(n).drop_last() =~= Seq::empty());
    }
}

/// The last component of a path is what stands behind its last separator.
pub proof fn law_base_name(dir: Seq<char>, sep: char, name: Seq<char>)
    requires
        sep == '/' || sep == '\\',
        forall|i: int| 0 <= i < name.len() ==> #[trigger] name[i] != '/' && name[i] != '\\',
    ensures
        base_name(dir + seq![sep] + name) == name,
        base_name(name) == name,
    decreases name.len(),
{
    let s = dir + seq![sep] + name;
    if name.len() == 0 {
        assert(s.last() == sep);
        assert(base_name(s) =~= name);
        assert(base_name(name) =~= name);
    } else {
        let init = name.drop_last();
        assert forall|i: int| 0 <= i < init.len() implies #[trigger] init[i] != '/' && init[i]
            != '\\' by {
            assert(name[i] == init[i]);
        }
        law_base_name(dir, sep, init);
        assert(s.drop_last() =~= dir + seq![sep] + init);
        assert(init.push(name.last()) =~= name);
    }
}

/// Replacing a character changes just that one: every other stays in its place.
pub proof fn law_replaced(s: Seq<char>, a: char, b: char, i: int)
    requires
        0 <= i < s.len(),
    ensures
        replaced(s, a, b).len() == s.len(),
        s[i] == a ==> replaced(s, a, b)[i] == b,
        s[i] != a ==> replaced(s, a, b)[i] == s[i],
{
}

/// Text that is trimmed has no space at its ends, and only spaces are gone.
pub proof fn law_trimmed(a: Seq<char>, s: Seq<char>, b: Seq<char>)
    requires
        forall|i: int| 0 <= i < a.len() ==> is_space(#[trigger] a[i]),
        forall|i: int| 0 <= i < b.len() ==> is_space(#[trigger] b[i]),
        s.len() > 0,
        !is_space(s[0]),
        !is_space(s.last()),
    ensures
        trimmed(a + s + b) == s,
{
    lemma_trim_left(a, s + b);
    assert(a + s + b =~= a + (s + b));
    assert((s + b)[0] == s[0]);
    assert(trim_left(s + b) =~= s + b);
    lemma_trim_right(s, b);
}

proof fn lemma_trim_left(a: Seq<char>, s: Seq<char>)
    requires
        forall|i: int| 0 <= i < a.len() ==> is_space(#[trigger] a[i]),
    ensures
        trim_left(a + s) == trim_left(s),
    decreases a.len(),
{
    if a.len() > 0 {
        let rest = a.drop_first();
        assert forall|i: int| 0 <= i < rest.len() implies is_space(#[trigger] rest[i]) by {
            assert(rest[i] == a[i + 1]);
        }
        lemma_trim_left(rest, s);
        assert((a + s)[0] == a[0]);
        assert((a + s).drop_first() =~= rest + s);
        assert((a + s).skip(1) =~= rest + s);
    } else {
        assert(a + s =~= s);
    }
}

proof fn lemma_trim_right(s: Seq<char>, b: Seq<char>)
    requires
        s.len() > 0,
        !is_space(s.last()),
        forall|i: int| 0 <= i < b.len() ==> is_space(#[trigger] b[i]),
    ensures
        trim_right(s + b) == s,
    decreases b.len(),
{
    if b.len() > 0 {
        let rest = b.drop_last();
        assert forall|i: int| 0 <= i < rest.len() implies is_space(#[trigger] rest[i]) by {
            assert(rest[i] == b[i]);
        }
        lemma_trim_right(s, rest);
        assert((s + b).last() == b.last());
        assert((s + b).drop_last() =~= s + rest);
    } else {
        assert(s + b =~= s);
    }
}

/// A capital letter of ASCII has its small one 32 places on; nothing else is
/// changed.
pub proof fn law_lower(c: char)
    ensures
        0x41 <= c as u32 <= 0x5a ==> ascii_lower(c) as u32 == c as u32 + 32,
        !(0x41 <= c as u32 <= 0x5a) ==> ascii_lower(c) == c,
{
}

/// Text with no white space at its ends is trimmed already.
pub proof fn lemma_trimmed_already(s: Seq<char>)
    requires
        s.len() == 0 || !is_space(s[0]) && !is_space(s.last()),
    ensures
        trimmed(s) == s,
{
}

/// Trimmed text has no white space at its ends.
pub proof fn lemma_trimmed_ends(s: Seq<char>)
    ensures
        ({
            let t = trimmed(s);
            t.len() == 0 || !is_space(t[0]) && !is_space(t.last())
        }),
{
    lemma_left_end(s);
    lemma_right_end(trim_left(s));
}

proof fn lemma_left_end(s: Seq<char>)
    ensures
        trim_left(s).len() == 0 || !is_space(trim_left(s)[0]),
    decreases s.len(),
{
    if s.len() > 0 && is_space(s[0]) {
        lemma_left_end(s.drop_first());
    }
}

proof fn lemma_right_end(s: Seq<char>)
    requires
        s.len() == 0 || !is_space(s[0]),
    ensures
        trim_right(s).len() == 0 || !is_space(trim_right(s).last()) && !is_space(trim_right(s)[0]),
    decreases s.len(),
{
    if s.len() > 0 && is_space(s.last()) {
        lemma_right_end(s.drop_last());
    }
}

/// A text that stands somewhere is held.
pub proof fn lemma_holds<T>(s: Seq<T>, p: Seq<T>, i: int)
    requires
        stands_at(s, p, i),
    ensures
        holds(s, p),
{
    lemma_find_from(s, p, 0);
}

/// A text is found where it stands first.
pub proof fn lemma_found<T>(s: Seq<T>, p: Seq<T>, from: int, n: int)
    requires
        0 <= from <= n,
        stands_at(s, p, n),
        forall|i: int| from <= i < n ==> !#[trigger] stands_at(s, p, i),
    ensures
        find_from(s, p, from) == Some(n),
    decreases n - from,
{
    if from < n {
        assert(!stands_at(s, p, from));
        lemma_found(s, p, from + 1, n);
    }
}

} // verus!
