//! Quick-select hints: scan the visible rows for interesting tokens (URLs,
//! paths, hashes) and label them for keyboard pickup.
use vstd::prelude::*;
use vstd::slice::*;
use vstd::string::*;
use crate::text;

verus! {

#[derive(Clone, Debug, PartialEq)]
pub struct HintMatch {
    pub label: String,
    pub text: String,
    /// Viewport position of the token's start.
    pub row: usize,
    pub col: usize,
}

/// Punctuation and brackets that may surround a token.
pub open spec fn wraps(c: char) -> bool {
    c == '"' || c == '\'' || c == '(' || c == ')' || c == '[' || c == ']' || c == '<' || c == '>'
        || c == ',' || c == ';'
}

/// What may cling to the start of a token in prose or logs.
pub open spec fn leads(c: char) -> bool {
    c == '"' || c == '\'' || c == '(' || c == '[' || c == '<'
}

/// What may cling to the end of a token in prose or logs.
pub open spec fn trails(c: char) -> bool {
    c == '"' || c == '\'' || c == ')' || c == ']' || c == '>' || c == '.' || c == ',' || c == ';'
        || c == ':'
}

/// Text without the characters in front that `p` holds of.
pub open spec fn strip_front(s: Seq<char>, p: spec_fn(char) -> bool) -> Seq<char>
    decreases s.len(),
{
    if s.len() > 0 && p(s[0]) {
        strip_front(s.drop_first(), p)
    } else {
        s
    }
}

/// Text without the characters at its end that `p` holds of.
pub open spec fn strip_back(s: Seq<char>, p: spec_fn(char) -> bool) -> Seq<char>
    decreases s.len(),
{
    if s.len() > 0 && p(s.last()) {
        strip_back(s.drop_last(), p)
    } else {
        s
    }
}

pub open spec fn is_hex(c: char) -> bool {
    '0' <= c <= '9' || 'a' <= c <= 'f' || 'A' <= c <= 'F'
}

pub open spec fn is_letter(c: char) -> bool {
    'a' <= c <= 'z' || 'A' <= c <= 'Z'
}

pub open spec fn byte_len(s: Seq<char>) -> nat {
    vstd::utf8::encode_utf8(s).len()
}

/// Whether bare text (of five bytes or more) is worth a label: a URL, a hash,
/// a path of Windows, a share, a path from the root, or a relative path to a
/// file with an extension.
pub open spec fn catches(t: Seq<char>) -> bool {
    &&& byte_len(t) >= 5
    &&& {
        ||| text::holds(t, "://"@)
        ||| text::stands_at(t, "www."@, 0)
        ||| 7 <= t.len() <= 64 && forall|i: int| 0 <= i < t.len() ==> is_hex(#[trigger] t[i])
        ||| t.len() >= 3 && is_letter(t[0]) && t[1] == ':' && (t[2] == '\\' || t[2] == '/')
        ||| text::stands_at(t, "\\\\"@, 0)
        ||| t.len() > 0 && t[0] == '/'
        ||| (t.contains('/') || t.contains('\\')) && text::base_name(t).contains('.')
    }
}

/// Whether a token is worth a label.
pub open spec fn is_interesting(token: Seq<char>) -> bool {
    catches(strip_back(strip_front(token, |c: char| wraps(c)), |c: char| wraps(c)))
}

/// A token without the punctuation that clings to it.
pub open spec fn cleaned(token: Seq<char>) -> Seq<char> {
    strip_back(strip_front(token, |c: char| leads(c)), |c: char| trails(c))
}

fn is_wrap(c: char) -> (r: bool)
    ensures
        r == wraps(c),
{
    c == '"' || c == '\'' || c == '(' || c == ')' || c == '[' || c == ']' || c == '<' || c == '>'
        || c == ',' || c == ';'
}

fn is_lead(c: char) -> (r: bool)
    ensures
        r == leads(c),
{
    c == '"' || c == '\'' || c == '(' || c == '[' || c == '<'
}

fn is_trail(c: char) -> (r: bool)
    ensures
        r == trails(c),
{
    c == '"' || c == '\'' || c == ')' || c == ']' || c == '>' || c == '.' || c == ',' || c == ';'
        || c == ':'
}

fn unwrapped(s: &[char]) -> (r: &[char])
    ensures
        r@ == strip_back(strip_front(s@, |c: char| wraps(c)), |c: char| wraps(c)),
{
    let ghost p = |c: char| wraps(c);
    let n: usize = s.len();
    let mut i: usize = 0;
    assert(s@.skip(0) =~= s@);
    while i < n && is_wrap(s[i])
        invariant
            i <= n == s@.len(),
            p == (|c: char| wraps(c)),
            strip_front(s@, p) == strip_front(s@.skip(i as int), p),
        decreases n - i,
    {
        assert(s@.skip(i as int).drop_first() =~= s@.skip(i + 1));
        i += 1;
    }
    let ghost left = s@.skip(i as int);
    let mut j: usize = n;
    assert(s@.subrange(i as int, n as int) =~= left);
    while i < j && is_wrap(s[j - 1])
        invariant
            i <= j <= n == s@.len(),
            p == (|c: char| wraps(c)),
            strip_back(left, p) == strip_back(s@.subrange(i as int, j as int), p),
        decreases j - i,
    {
        assert(s@.subrange(i as int, j as int).drop_last() =~= s@.subrange(i as int, j - 1));
        j -= 1;
    }
    slice_subrange(s, i, j)
}

/// Where the cleaned token starts and ends.
fn clean_range(s: &[char]) -> (r: (usize, usize))
    ensures
        r.0 <= r.1 <= s@.len(),
        s@.subrange(r.0 as int, r.1 as int) == cleaned(s@),
{
    let ghost p = |c: char| leads(c);
    let ghost q = |c: char| trails(c);
    let n: usize = s.len();
    let mut i: usize = 0;
    assert(s@.skip(0) =~= s@);
    while i < n && is_lead(s[i])
        invariant
            i <= n == s@.len(),
            p == (|c: char| leads(c)),
            strip_front(s@, p) == strip_front(s@.skip(i as int), p),
        decreases n - i,
    {
        assert(s@.skip(i as int).drop_first() =~= s@.skip(i + 1));
        i += 1;
    }
    let ghost left = s@.skip(i as int);
    let mut j: usize = n;
    assert(s@.subrange(i as int, n as int) =~= left);
    while i < j && is_trail(s[j - 1])
        invariant
            i <= j <= n == s@.len(),
            q == (|c: char| trails(c)),
            strip_back(left, q) == strip_back(s@.subrange(i as int, j as int), q),
        decreases j - i,
    {
        assert(s@.subrange(i as int, j as int).drop_last() =~= s@.subrange(i as int, j - 1));
        j -= 1;
    }
    (i, j)
}

fn all_hex(s: &[char]) -> (r: bool)
    ensures
        r == forall|i: int| 0 <= i < s@.len() ==> is_hex(#[trigger] s@[i]),
{
    let mut i: usize = 0;
    while i < s.len()
        invariant
            i <= s@.len(),
            forall|j: int| 0 <= j < i ==> is_hex(#[trigger] s@[j]),
        decreases s@.len() - i,
    {
        let c = s[i];
        if !(('0' <= c && c <= '9') || ('a' <= c && c <= 'f') || ('A' <= c && c <= 'F')) {
            assert(!is_hex(s@[i as int]));
            return false;
        }
        i += 1;
    }
    true
}

/// Is this token, delimited by white space, worth a label?
pub fn interesting(token: &str) -> (r: bool)
    ensures
        r == is_interesting(token@),
{
    let all = text::chars_of(token);
    let t = unwrapped(all.as_slice());
    let n: usize = t.len();
    if text::string_of(t).as_str().as_bytes().len() < 5 {
        return false;
    }
    if text::has_text(t, "://") || text::begins(t, "www.") {
        return true;
    }
    if 7 <= n && n <= 64 && all_hex(t) {
        return true;
    }
    if n >= 3 && (('a' <= t[0] && t[0] <= 'z') || ('A' <= t[0] && t[0] <= 'Z')) && t[1] == ':' && (
    t[2] == '\\' || t[2] == '/') {
        return true;
    }
    if text::begins(t, "\\\\") || (n > 0 && t[0] == '/') {
        return true;
    }
    (text::has_char(t, '/') || text::has_char(t, '\\')) && text::has_char(text::base_of(t), '.')
}

/// Trim the punctuation that often clings to tokens in prose and logs.
pub fn clean(token: &str) -> (r: &str)
    ensures
        r@ == cleaned(token@),
{
    let (i, j) = clean_range(text::chars_of(token).as_slice());
    token.substring_char(i, j)
}

/// The letters of labels, home row first.
pub open spec fn label_letters() -> Seq<char> {
    "asdfjkl;ghqwertyuiopzxcvbnm"@
}

/// The most labels there are: one letter, then two.
pub const MAX_LABELS: usize = 756;

/// The label with index `i`.
pub open spec fn label_at(i: int) -> Seq<char> {
    let l = label_letters();
    if i < 27 {
        seq![l[i]]
    } else {
        seq![l[(i - 27) / 27], l[(i - 27) % 27]]
    }
}

/// Labels for `n` matches: home row first, then the rest; two letters beyond.
pub fn labels(n: usize) -> (out: Vec<String>)
    ensures
        out@.len() == (if n < MAX_LABELS {
            n
        } else {
            MAX_LABELS
        }),
        forall|i: int| 0 <= i < out@.len() ==> (#[trigger] out@[i])@ == label_at(i),
{
    let order = text::chars_of("asdfjkl;ghqwertyuiopzxcvbnm");
    proof {
        reveal_strlit("asdfjkl;ghqwertyuiopzxcvbnm");
    }
    let m: usize = if n < MAX_LABELS {
        n
    } else {
        MAX_LABELS
    };
    let mut out: Vec<String> = Vec::new();
    let mut i: usize = 0;
    while i < m
        invariant
            i <= m <= MAX_LABELS,
            order@ == label_letters(),
            order@.len() == 27,
            out@.len() == i,
            forall|j: int| 0 <= j < i ==> (#[trigger] out@[j])@ == label_at(j),
        decreases m - i,
    {
        let mut s = String::new();
        if i < 27 {
            s.push(order[i]);
        } else {
            s.push(order[(i - 27) / 27]);
            s.push(order[(i - 27) % 27]);
        }
        assert(s@ =~= label_at(i as int));
        out.push(s);
        i += 1;
    }
    out
}

/// No two labels are the same.
pub proof fn law_labels_unique(i: int, j: int)
    requires
        0 <= i < MAX_LABELS,
        0 <= j < MAX_LABELS,
        i != j,
    ensures
        label_at(i) != label_at(j),
{
    reveal_strlit("asdfjkl;ghqwertyuiopzxcvbnm");
    let l = label_letters();
    assert forall|a: int, b: int| 0 <= a < 27 && 0 <= b < 27 && l[a] == l[b] implies a == b by {
        lemma_letters_distinct(a, b);
    }
    let x = label_at(i);
    let y = label_at(j);
    if x == y {
        assert(x.len() == y.len());
        assert(x[0] == y[0]);
        if i >= 27 {
            assert(x[1] == y[1]);
            assert((i - 27) / 27 == (j - 27) / 27);
            assert((i - 27) % 27 == (j - 27) % 27);
        }
    }
}

proof fn lemma_letters_distinct(a: int, b: int)
    requires
        0 <= a < 27,
        0 <= b < 27,
        label_letters()[a] == label_letters()[b],
    ensures
        a == b,
{
    reveal_strlit("asdfjkl;ghqwertyuiopzxcvbnm");
}

/// How many letters the labels of `n` hints have: all the same number, so that
/// none begins with another.
pub open spec fn label_width(n: int) -> nat
    decreases n,
{
    if n <= 27 {
        1
    } else {
        1 + label_width((n - 1) / 27 + 1)
    }
}

/// The number `i` in `w` letters.
pub open spec fn wide_label(i: int, w: nat) -> Seq<char>
    decreases w,
{
    if w == 0 {
        Seq::empty()
    } else {
        wide_label(i / 27, (w - 1) as nat).push(label_letters()[i % 27])
    }
}

/// The label of hint `i` out of `n`.
pub open spec fn hint_label(i: int, n: int) -> Seq<char> {
    wide_label(i, label_width(n))
}

/// How many labels of `w` letters there are.
spec fn label_count(w: nat) -> int
    decreases w,
{
    if w == 0 {
        1
    } else {
        27 * label_count((w - 1) as nat)
    }
}

proof fn lemma_width_suffices(n: int)
    ensures
        n <= label_count(label_width(n)),
    decreases n,
{
    reveal_with_fuel(label_count, 2);
    if n > 27 {
        lemma_width_suffices((n - 1) / 27 + 1);
    }
}

proof fn lemma_wide_labels(i: int, j: int, w: nat)
    requires
        0 <= i < label_count(w),
        0 <= j < label_count(w),
        wide_label(i, w) == wide_label(j, w),
    ensures
        i == j,
    decreases w,
{
    if w > 0 {
        let a = wide_label(i / 27, (w - 1) as nat);
        let b = wide_label(j / 27, (w - 1) as nat);
        let x = wide_label(i, w);
        let y = wide_label(j, w);
        assert(x.drop_last() =~= a && y.drop_last() =~= b);
        assert(x.last() == y.last());
        lemma_letters_distinct(i % 27, j % 27);
        lemma_wide_labels(i / 27, j / 27, (w - 1) as nat);
    }
}

pub proof fn lemma_label_letters(i: int, w: nat)
    ensures
        wide_label(i, w).len() == w,
        forall|k: int|
            0 <= k < w ==> {
                let c = #[trigger] wide_label(i, w)[k];
                '!' <= c <= '~' && text::ascii_lower(c) == c
            },
    decreases w,
{
    reveal_strlit("asdfjkl;ghqwertyuiopzxcvbnm");
    if w > 0 {
        lemma_label_letters(i / 27, (w - 1) as nat);
        let front = wide_label(i / 27, (w - 1) as nat);
        assert forall|k: int| 0 <= k < w implies {
            let c = #[trigger] wide_label(i, w)[k];
            '!' <= c <= '~' && text::ascii_lower(c) == c
        } by {
            if k < w - 1 {
                assert(wide_label(i, w)[k] == front[k]);
            } else {
                lemma_letter_plain(i % 27);
            }
        }
    }
}

proof fn lemma_letter_plain(k: int)
    requires
        0 <= k < 27,
    ensures
        ({
            let c = label_letters()[k];
            '!' <= c <= '~' && text::ascii_lower(c) == c
        }),
{
    reveal_strlit("asdfjkl;ghqwertyuiopzxcvbnm");
}

/// Of the labels of `n` hints none begins with another.
pub proof fn law_labels_prefix_free(i: int, j: int, n: int)
    requires
        0 <= i < n,
        0 <= j < n,
        i != j,
    ensures
        !text::stands_at(hint_label(j, n), hint_label(i, n), 0),
{
    let w = label_width(n);
    lemma_width_suffices(n);
    lemma_label_letters(i, w);
    lemma_label_letters(j, w);
    if text::stands_at(hint_label(j, n), hint_label(i, n), 0) {
        assert(hint_label(j, n).subrange(0, w as int) =~= hint_label(j, n));
        lemma_wide_labels(i, j, w);
    }
}

fn width_of(n: usize) -> (r: usize)
    ensures
        r == label_width(n as int),
        r <= n || r == 1,
    decreases n,
{
    if n <= 27 {
        1
    } else {
        1 + width_of((n - 1) / 27 + 1)
    }
}

fn push_label(s: &mut String, order: &Vec<char>, i: usize, w: usize)
    requires
        order@ == label_letters(),
        order@.len() == 27,
    ensures
        final(s)@ == old(s)@ + wide_label(i as int, w as nat),
    decreases w,
{
    if w > 0 {
        push_label(s, order, i / 27, w - 1);
        s.push(order[i % 27]);
    }
    assert(s@ =~= old(s)@ + wide_label(i as int, w as nat));
}

/// Labels for `n` hints that are on show together. As long as single letters
/// suffice, they are those of `labels`.
fn hint_labels(n: usize) -> (out: Vec<String>)
    ensures
        out@.len() == n,
        forall|i: int| 0 <= i < n ==> (#[trigger] out@[i])@ == hint_label(i, n as int),
{
    if n <= 27 {
        let out = labels(n);
        assert forall|i: int| 0 <= i < n implies (#[trigger] out@[i])@ == hint_label(i, n as int) by {
            reveal_with_fuel(wide_label, 2);
            assert(label_at(i) =~= hint_label(i, n as int));
        }
        return out;
    }
    let order = text::chars_of("asdfjkl;ghqwertyuiopzxcvbnm");
    proof {
        reveal_strlit("asdfjkl;ghqwertyuiopzxcvbnm");
    }
    let w: usize = width_of(n);
    let mut out: Vec<String> = Vec::new();
    let mut i: usize = 0;
    while i < n
        invariant
            i <= n,
            w == label_width(n as int),
            order@ == label_letters(),
            order@.len() == 27,
            out@.len() == i,
            forall|j: int| 0 <= j < i ==> (#[trigger] out@[j])@ == hint_label(j, n as int),
        decreases n - i,
    {
        let mut s = String::new();
        push_label(&mut s, &order, i, w);
        assert(s@ =~= hint_label(i as int, n as int));
        out.push(s);
        i += 1;
    }
    out
}

/// A token found: its row, its column, and its text.
pub struct Found {
    pub row: int,
    pub col: int,
    pub text: Seq<char>,
}

/// Where the run of characters that are no white space, and that ends before
/// `e`, starts.
pub open spec fn run_start(s: Seq<char>, e: int) -> int
    decreases e,
{
    if e <= 0 || text::is_space(s[e - 1]) {
        e
    } else {
        run_start(s, e - 1)
    }
}

/// Whether a token ends before index `e`.
pub open spec fn token_ends(s: Seq<char>, e: int) -> bool {
    0 < e <= s.len() && !text::is_space(s[e - 1]) && (e == s.len() || text::is_space(s[e]))
}

pub open spec fn has_found(found: Seq<Found>, t: Seq<char>) -> bool {
    exists|i: int| 0 <= i < found.len() && (#[trigger] found[i]).text == t
}

/// The tokens found when a token comes up that ends before `e`: it joins them
/// where it is interesting and new.
pub open spec fn after_token(
    found: Seq<Found>,
    row: int,
    s: Seq<char>,
    cols: Seq<usize>,
    e: int,
) -> Seq<Found> {
    let a = run_start(s, e);
    let token = s.subrange(a, e);
    let t = cleaned(token);
    if is_interesting(t) && !has_found(found, t) {
        let at = a + match text::find(token, t) {
            Some(k) => k,
            None => 0,
        };
        found.push(Found { row, col: if 0 <= at < cols.len() { cols[at] as int } else { 0 }, text: t })
    } else {
        found
    }
}

/// The tokens found up to index `e` of a row.
pub open spec fn row_found(
    found: Seq<Found>,
    row: int,
    s: Seq<char>,
    cols: Seq<usize>,
    e: int,
) -> Seq<Found>
    decreases e,
{
    if e <= 0 {
        found
    } else {
        let before = row_found(found, row, s, cols, e - 1);
        if token_ends(s, e) {
            after_token(before, row, s, cols, e)
        } else {
            before
        }
    }
}

/// The tokens found in the first `n` rows.
pub open spec fn rows_found(rows: Seq<(String, Vec<usize>)>, n: int) -> Seq<Found>
    decreases n,
{
    if n <= 0 {
        Seq::empty()
    } else {
        let (s, cols) = rows[n - 1];
        row_found(rows_found(rows, n - 1), n - 1, s@, cols@, s@.len() as int)
    }
}

/// A token as it is kept while scanning.
struct Hit {
    row: usize,
    col: usize,
    text: String,
}

spec fn found_of(hits: Seq<Hit>) -> Seq<Found> {
    hits.map_values(|h: Hit| Found { row: h.row as int, col: h.col as int, text: h.text@ })
}

fn known(hits: &Vec<Hit>, t: &[char]) -> (r: bool)
    ensures
        r == has_found(found_of(hits@), t@),
{
    let mut i: usize = 0;
    while i < hits.len()
        invariant
            i <= hits@.len(),
            forall|j: int| 0 <= j < i ==> (#[trigger] found_of(hits@)[j]).text != t@,
        decreases hits@.len() - i,
    {
        if text::same_chars(text::chars_of(hits[i].text.as_str()).as_slice(), t) {
            assert(found_of(hits@)[i as int].text == t@);
            return true;
        }
        i += 1;
    }
    false
}

/// Take up a token that spans `a..e` of a row.
fn take_token(hits: &mut Vec<Hit>, row: usize, s: &[char], cols: &Vec<usize>, a: usize, e: usize)
    requires
        a <= e <= s@.len(),
        a == run_start(s@, e as int),
    ensures
        found_of(final(hits)@) == after_token(
            found_of(old(hits)@),
            row as int,
            s@,
            cols@,
            e as int,
        ),
{
    let token = slice_subrange(s, a, e);
    let m: usize = token.len();
    let (i, j) = clean_range(token);
    let t = slice_subrange(token, i, j);
    let word = text::string_of(t);
    if interesting(word.as_str()) && !known(hits, t) {
        let lead: usize = match text::find_chars(token, t) {
            Some(k) => k,
            None => 0,
        };
        let at: usize = a + lead;
        let col: usize = if at < cols.len() {
            cols[at]
        } else {
            0
        };
        let ghost before = found_of(hits@);
        hits.push(Hit { row, col, text: word });
        assert(found_of(hits@) =~= before.push(
            Found { row: row as int, col: col as int, text: t@ },
        ));
    }
}

proof fn lemma_run_start(s: Seq<char>, a: int, e: int)
    requires
        0 <= a <= e <= s.len(),
        a == 0 || text::is_space(s[a - 1]),
        forall|k: int| a <= k < e ==> !text::is_space(#[trigger] s[k]),
    ensures
        run_start(s, e) == a,
    decreases e,
{
    if a < e {
        assert(!text::is_space(s[e - 1]));
        lemma_run_start(s, a, e - 1);
    }
}

fn scan_row(hits: &mut Vec<Hit>, row: usize, line: &String, cols: &Vec<usize>)
    ensures
        found_of(final(hits)@) == row_found(
            found_of(old(hits)@),
            row as int,
            line@,
            cols@,
            line@.len() as int,
        ),
{
    let all = text::chars_of(line.as_str());
    let s = all.as_slice();
    let n: usize = s.len();
    let mut start: usize = 0;
    let mut i: usize = 0;
    while i < n
        invariant
            i <= n == s@.len(),
            s@ == line@,
            start <= i,
            start == 0 || text::is_space(s@[start - 1]),
            forall|k: int| start <= k < i ==> !text::is_space(#[trigger] s@[k]),
            found_of(hits@) == row_found(
                found_of(old(hits)@),
                row as int,
                s@,
                cols@,
                i - 1,
            ),
        decreases n - i,
    {
        if text::space(s[i]) {
            if start < i {
                proof {
                    lemma_run_start(s@, start as int, i as int);
                    assert(!text::is_space(s@[i - 1]));
                }
                take_token(hits, row, s, cols, start, i);
            }
            start = i + 1;
        }
        i += 1;
    }
    if start < n {
        proof {
            lemma_run_start(s@, start as int, n as int);
            assert(!text::is_space(s@[n - 1]));
        }
        take_token(hits, row, s, cols, start, n);
    }
}

/// Scan viewport rows (text, and the column of each of its characters) for
/// matches: each interesting text once, where it comes first.
pub fn scan(rows: &[(String, Vec<usize>)]) -> (r: Vec<HintMatch>)
    ensures
        ({
            let found = rows_found(rows@, rows@.len() as int);
            &&& r@.len() == found.len()
            &&& forall|i: int|
                0 <= i < r@.len() ==> {
                    &&& (#[trigger] r@[i]).text@ == found[i].text
                    &&& r@[i].row == found[i].row
                    &&& r@[i].col == found[i].col
                    &&& r@[i].label@ == hint_label(i, found.len() as int)
                }
        }),
{
    let mut hits: Vec<Hit> = Vec::new();
    let mut i: usize = 0;
    assert(found_of(hits@) =~= Seq::empty());
    while i < rows.len()
        invariant
            i <= rows@.len(),
            found_of(hits@) == rows_found(rows@, i as int),
        decreases rows@.len() - i,
    {
        scan_row(&mut hits, i, &rows[i].0, &rows[i].1);
        i += 1;
    }
    let m: usize = hits.len();
    let names = hint_labels(m);
    let ghost found = found_of(hits@);
    let mut r: Vec<HintMatch> = Vec::new();
    let mut k: usize = 0;
    while k < m
        invariant
            k <= m == hits@.len(),
            m == found.len(),
            found == found_of(hits@),
            names@.len() == m,
            forall|j: int| 0 <= j < m ==> (#[trigger] names@[j])@ == hint_label(j, m as int),
            r@.len() == k,
            forall|j: int|
                0 <= j < k ==> {
                    &&& (#[trigger] r@[j]).text@ == found[j].text
                    &&& r@[j].row == found[j].row
                    &&& r@[j].col == found[j].col
                    &&& r@[j].label@ == hint_label(j, m as int)
                },
        decreases m - k,
    {
        r.push(
            HintMatch {
                label: names[k].clone(),
                text: hits[k].text.clone(),
                row: hits[k].row,
                col: hits[k].col,
            },
        );
        k += 1;
    }
    r
}

/// Whether every token found is interesting and no text occurs twice.
pub open spec fn found_ok(found: Seq<Found>) -> bool {
    &&& forall|i: int| 0 <= i < found.len() ==> is_interesting((#[trigger] found[i]).text)
    &&& forall|i: int, j: int|
        0 <= i < j < found.len() ==> (#[trigger] found[i]).text != (#[trigger] found[j]).text
}

proof fn lemma_row_found_ok(found: Seq<Found>, row: int, s: Seq<char>, cols: Seq<usize>, e: int)
    requires
        found_ok(found),
    ensures
        found_ok(row_found(found, row, s, cols, e)),
    decreases e,
{
    if e > 0 {
        lemma_row_found_ok(found, row, s, cols, e - 1);
    }
}

/// Every hint is an interesting text, and no text is labelled twice.
pub proof fn law_hints_unique(rows: Seq<(String, Vec<usize>)>, n: int)
    ensures
        found_ok(rows_found(rows, n)),
    decreases n,
{
    if n > 0 {
        law_hints_unique(rows, n - 1);
        let (s, cols) = rows[n - 1];
        lemma_row_found_ok(rows_found(rows, n - 1), n - 1, s@, cols@, s@.len() as int);
    }
}

proof fn lemma_row_keeps(found: Seq<Found>, row: int, s: Seq<char>, cols: Seq<usize>, e: int, t: Seq<char>)
    requires
        has_found(found, t),
    ensures
        has_found(row_found(found, row, s, cols, e), t),
    decreases e,
{
    if e > 0 {
        lemma_row_keeps(found, row, s, cols, e - 1, t);
        let before = row_found(found, row, s, cols, e - 1);
        let after = row_found(found, row, s, cols, e);
        let i = choose|i: int| 0 <= i < before.len() && (#[trigger] before[i]).text == t;
        assert(after[i].text == t);
    }
}

proof fn lemma_row_finds(
    found: Seq<Found>,
    row: int,
    s: Seq<char>,
    cols: Seq<usize>,
    at: int,
    e: int,
)
    requires
        token_ends(s, at),
        at <= e,
        is_interesting(cleaned(s.subrange(run_start(s, at), at))),
    ensures
        has_found(
            row_found(found, row, s, cols, e),
            cleaned(s.subrange(run_start(s, at), at)),
        ),
    decreases e,
{
    let t = cleaned(s.subrange(run_start(s, at), at));
    let before = row_found(found, row, s, cols, e - 1);
    let after = row_found(found, row, s, cols, e);
    if at < e {
        lemma_row_finds(found, row, s, cols, at, e - 1);
        let i = choose|i: int| 0 <= i < before.len() && (#[trigger] before[i]).text == t;
        assert(after[i].text == t);
    } else if !has_found(before, t) {
        assert(after.last().text == t);
    }
}

/// Everything interesting on show gets a hint: the token that ends before index
/// `e` of a row is among those found, as soon as it is worth a label.
pub proof fn law_every_token_found(rows: Seq<(String, Vec<usize>)>, n: int, row: int, e: int)
    requires
        0 <= row < n,
        token_ends(rows[row].0@, e),
        ({
            let s = rows[row].0@;
            is_interesting(cleaned(s.subrange(run_start(s, e), e)))
        }),
    ensures
        ({
            let s = rows[row].0@;
            has_found(rows_found(rows, n), cleaned(s.subrange(run_start(s, e), e)))
        }),
    decreases n,
{
    let (line, cols) = rows[n - 1];
    let before = rows_found(rows, n - 1);
    if row == n - 1 {
        lemma_row_finds(before, n - 1, line@, cols@, e, line@.len() as int);
    } else {
        law_every_token_found(rows, n - 1, row, e);
        let s = rows[row].0@;
        lemma_row_keeps(
            before,
            n - 1,
            line@,
            cols@,
            line@.len() as int,
            cleaned(s.subrange(run_start(s, e), e)),
        );
    }
}

/// Whether a found token stands in its row, at the column it is said to be at.
pub open spec fn stands_in_row(f: Found, s: Seq<char>, cols: Seq<usize>) -> bool {
    exists|at: int|
        #![trigger cols[at]]
        0 <= at < cols.len() && text::stands_at(s, f.text, at) && f.col == cols[at]
}

/// A label is put where its text is: each token found stands in its row, at the
/// column given.
pub proof fn law_hint_stands_at_text(rows: Seq<(String, Vec<usize>)>, n: int, k: int)
    requires
        0 <= n <= rows.len(),
        forall|i: int| 0 <= i < rows.len() ==> (#[trigger] rows[i]).1@.len() == rows[i].0@.len(),
        0 <= k < rows_found(rows, n).len(),
    ensures
        ({
            let f = rows_found(rows, n)[k];
            &&& 0 <= f.row < n
            &&& stands_in_row(f, rows[f.row].0@, rows[f.row].1@)
        }),
    decreases n,
{
    if n > 0 {
        let before = rows_found(rows, n - 1);
        let (s, cols) = rows[n - 1];
        assert(rows[n - 1].1@.len() == rows[n - 1].0@.len());
        lemma_row_placed(before, n - 1, s@, cols@, s@.len() as int, k);
        if k < before.len() {
            law_hint_stands_at_text(rows, n - 1, k);
        }
    }
}

proof fn lemma_row_placed(
    found: Seq<Found>,
    row: int,
    s: Seq<char>,
    cols: Seq<usize>,
    e: int,
    k: int,
)
    requires
        0 <= e <= s.len(),
        cols.len() == s.len(),
        0 <= k < row_found(found, row, s, cols, e).len(),
    ensures
        k < found.len() ==> row_found(found, row, s, cols, e)[k] == found[k],
        k >= found.len() ==> row_found(found, row, s, cols, e)[k].row == row && stands_in_row(
            row_found(found, row, s, cols, e)[k],
            s,
            cols,
        ),
    decreases e,
{
    if e > 0 {
        let before = row_found(found, row, s, cols, e - 1);
        if k < before.len() {
            lemma_row_placed(found, row, s, cols, e - 1, k);
        } else {
            lemma_row_longer(found, row, s, cols, e - 1);
            let a = run_start(s, e);
            lemma_run_bounds(s, e);
            let token = s.subrange(a, e);
            let t = cleaned(token);
            lemma_cleaned_in(token);
            let j = choose|j: int| text::stands_at(token, t, j);
            text::lemma_holds(token, t, j);
            text::lemma_find_from(token, t, 0);
            let m = text::find(token, t)->0;
            assert(is_interesting(t));
            lemma_interesting_is_some(t);
            assert(s.subrange(a + m, a + m + t.len()) =~= token.subrange(m, m + t.len()));
            assert(text::stands_at(s, t, a + m));
            assert(cols[a + m] == row_found(found, row, s, cols, e)[k].col);
        }
    }
}

proof fn lemma_row_longer(found: Seq<Found>, row: int, s: Seq<char>, cols: Seq<usize>, e: int)
    ensures
        row_found(found, row, s, cols, e).len() >= found.len(),
    decreases e,
{
    if e > 0 {
        lemma_row_longer(found, row, s, cols, e - 1);
    }
}

proof fn lemma_run_bounds(s: Seq<char>, e: int)
    requires
        0 <= e <= s.len(),
    ensures
        0 <= run_start(s, e) <= e,
    decreases e,
{
    if e > 0 && !text::is_space(s[e - 1]) {
        lemma_run_bounds(s, e - 1);
    }
}

/// What is left of a token stands in it.
proof fn lemma_cleaned_in(token: Seq<char>)
    ensures
        exists|j: int| text::stands_at(token, cleaned(token), j),
{
    let p = |c: char| leads(c);
    let q = |c: char| trails(c);
    lemma_front_stripped(token, p);
    let m = strip_front(token, p);
    lemma_back_stripped(m, q);
    let t = strip_back(m, q);
    let k = token.len() - m.len();
    assert(m.subrange(0, t.len() as int) =~= token.subrange(k, k + t.len()));
    assert(t == cleaned(token));
    assert(text::stands_at(token, cleaned(token), k));
}

proof fn lemma_front_stripped(s: Seq<char>, p: spec_fn(char) -> bool)
    ensures
        strip_front(s, p).len() <= s.len(),
        strip_front(s, p) == s.skip(s.len() - strip_front(s, p).len()),
    decreases s.len(),
{
    if s.len() > 0 && p(s[0]) {
        lemma_front_stripped(s.drop_first(), p);
        let r = strip_front(s, p);
        assert(s.drop_first().skip(s.drop_first().len() - r.len()) =~= s.skip(s.len() - r.len()));
    } else {
        assert(s.skip(0) =~= s);
    }
}

proof fn lemma_back_stripped(s: Seq<char>, p: spec_fn(char) -> bool)
    ensures
        strip_back(s, p).len() <= s.len(),
        strip_back(s, p) == s.subrange(0, strip_back(s, p).len() as int),
    decreases s.len(),
{
    if s.len() > 0 && p(s.last()) {
        lemma_back_stripped(s.drop_last(), p);
        let r = strip_back(s, p);
        assert(s.drop_last().subrange(0, r.len() as int) =~= s.subrange(0, r.len() as int));
    } else {
        assert(s.subrange(0, s.len() as int) =~= s);
    }
}

/// Interesting text is not empty.
proof fn lemma_interesting_is_some(t: Seq<char>)
    requires
        is_interesting(t),
    ensures
        t.len() > 0,
{
    if t.len() == 0 {
        let e = strip_back(strip_front(t, |c: char| wraps(c)), |c: char| wraps(c));
        assert(e =~= Seq::<char>::empty());
        assert(vstd::utf8::encode_utf8(e) =~= Seq::<u8>::empty());
    }
}

/// Whether a character is plain: none that may cling to a token.
pub open spec fn bare(c: char) -> bool {
    !"\"'()[]<>,;.:"@.contains(c)
}

/// What clings to a token is no part of it: brackets and quotes in front, the
/// same and punctuation behind.
pub proof fn law_token_is_cleaned(a: Seq<char>, t: Seq<char>, b: Seq<char>)
    requires
        t.len() > 0,
        bare(t[0]),
        bare(t.last()),
        forall|i: int| 0 <= i < a.len() ==> "\"'([<"@.contains(#[trigger] a[i]),
        forall|i: int| 0 <= i < b.len() ==> "\"')]>.,;:"@.contains(#[trigger] b[i]),
    ensures
        cleaned(a + t + b) == t,
{
    reveal_strlit("\"'()[]<>,;.:");
    reveal_strlit("\"'([<");
    reveal_strlit("\"')]>.,;:");
    let all = "\"'()[]<>,;.:"@;
    assert(all[0] == '"' && all[1] == '\'' && all[2] == '(' && all[3] == ')' && all[4] == '['
        && all[5] == ']' && all[6] == '<' && all[7] == '>' && all[8] == ',' && all[9] == ';'
        && all[10] == '.' && all[11] == ':');
    let p = |c: char| leads(c);
    let q = |c: char| trails(c);
    assert forall|i: int| 0 <= i < a.len() implies p(#[trigger] a[i]) by {
        assert("\"'([<"@.contains(a[i]));
    }
    assert forall|i: int| 0 <= i < b.len() implies q(#[trigger] b[i]) by {
        assert("\"')]>.,;:"@.contains(b[i]));
    }
    assert(!p(t[0]) && !q(t.last()));
    lemma_strip_front_all(a, t + b, p);
    assert(a + t + b =~= a + (t + b));
    assert((t + b)[0] == t[0]);
    lemma_strip_back_all(t, b, q);
}

proof fn lemma_strip_front_all(a: Seq<char>, s: Seq<char>, p: spec_fn(char) -> bool)
    requires
        forall|i: int| 0 <= i < a.len() ==> p(#[trigger] a[i]),
        s.len() > 0,
        !p(s[0]),
    ensures
        strip_front(a + s, p) == s,
    decreases a.len(),
{
    if a.len() > 0 {
        let r = a.drop_first();
        assert forall|i: int| 0 <= i < r.len() implies p(#[trigger] r[i]) by {
            assert(r[i] == a[i + 1]);
        }
        lemma_strip_front_all(r, s, p);
        assert((a + s)[0] == a[0]);
        assert((a + s).drop_first() =~= r + s);
    } else {
        assert(a + s =~= s);
    }
}

proof fn lemma_strip_back_all(s: Seq<char>, b: Seq<char>, p: spec_fn(char) -> bool)
    requires
        forall|i: int| 0 <= i < b.len() ==> p(#[trigger] b[i]),
        s.len() > 0,
        !p(s.last()),
    ensures
        strip_back(s + b, p) == s,
    decreases b.len(),
{
    if b.len() > 0 {
        let r = b.drop_last();
        assert forall|i: int| 0 <= i < r.len() implies p(#[trigger] r[i]) by {
            assert(r[i] == b[i]);
        }
        lemma_strip_back_all(s, r, p);
        assert((s + b).last() == b.last());
        assert((s + b).drop_last() =~= s + r);
    } else {
        assert(s + b =~= s);
    }
}

/// Whether a character is a digit to base 16.
pub open spec fn base16(c: char) -> bool {
    '0' <= c <= '9' || 'A' <= c <= 'F' || 'a' <= c <= 'f'
}

/// What is worth a label: addresses, hashes, and paths of any kind; a plain word
/// is not.
pub proof fn law_worth_a_label(t: Seq<char>)
    requires
        t.len() > 0,
        bare(t[0]),
        bare(t.last()),
        vstd::utf8::encode_utf8(t).len() >= 5,
    ensures
        text::holds(t, "://"@) || text::stands_at(t, "www."@, 0) ==> is_interesting(t),
        7 <= t.len() <= 64 && (forall|i: int| 0 <= i < t.len() ==> base16(#[trigger] t[i]))
            ==> is_interesting(t),
        t.len() >= 3 && 'C' == t[0] && t[1] == ':' && t[2] == '\\' ==> is_interesting(t),
        t[0] == '/' ==> is_interesting(t),
        t.contains('/') && text::base_name(t).contains('.') ==> is_interesting(t),
        !text::holds(t, "://"@) && !text::stands_at(t, "www."@, 0) && !t.contains('/') && !t.contains(
            '\\',
        ) && (t.len() < 7 || t.len() > 64 || exists|i: int|
            0 <= i < t.len() && !base16(#[trigger] t[i])) ==> !is_interesting(t),
{
    reveal_strlit("\"'()[]<>,;.:");
    reveal_strlit("\\\\");
    let all = "\"'()[]<>,;.:"@;
    assert(all[0] == '"' && all[1] == '\'' && all[2] == '(' && all[3] == ')' && all[4] == '['
        && all[5] == ']' && all[6] == '<' && all[7] == '>' && all[8] == ',' && all[9] == ';'
        && all[10] == '.' && all[11] == ':');
    let p = |c: char| wraps(c);
    assert(!p(t[0]) && !p(t.last()));
    assert(strip_front(t, p) == t);
    assert(strip_back(t, p) == t);
    assert(is_interesting(t) == catches(t));
    assert(forall|c: char| base16(c) == #[trigger] is_hex(c));
    if text::stands_at(t, "\\\\"@, 0) {
        assert(t.subrange(0, 2)[0] == t[0]);
        assert(t.contains('\\'));
    }
    if t[0] == '/' {
        assert(t.contains('/'));
    }
    if t.len() >= 3 && (t[2] == '\\' || t[2] == '/') {
        assert(t.contains(t[2]));
    }
}

} // verus!
