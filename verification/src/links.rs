//! The link under a cell of the screen: one that the cell carries, or a URL
//! in the text around it.
use vstd::prelude::*;
use vstd::slice::*;
use crate::text;

verus! {

/// A cell of a row, as far as links go.
pub struct LinkCell {
    pub c: char,
    /// The second half of a wide character.
    pub spacer: bool,
    /// The address that the cell carries.
    pub link: Option<String>,
}

/// The text of the first `n` cells.
pub open spec fn row_text(cells: Seq<LinkCell>, n: int) -> Seq<char>
    decreases n,
{
    if n <= 0 || n > cells.len() {
        Seq::empty()
    } else if cells[n - 1].spacer {
        row_text(cells, n - 1)
    } else {
        row_text(cells, n - 1).push(cells[n - 1].c)
    }
}

/// Where the word that `p` is in starts.
pub open spec fn word_start(s: Seq<char>, p: int) -> int
    decreases p,
{
    if p <= 0 || text::is_space(s[p - 1]) {
        p
    } else {
        word_start(s, p - 1)
    }
}

/// Where the word that `p` is in ends.
pub open spec fn word_end(s: Seq<char>, p: int) -> int
    decreases s.len() - p,
{
    if p >= s.len() || text::is_space(s[p]) {
        p
    } else {
        word_end(s, p + 1)
    }
}

/// Punctuation that ends a sentence or a quotation rather than a URL.
pub open spec fn closes(c: char) -> bool {
    c == '.' || c == ',' || c == ';' || c == ')' || c == ']' || c == '>' || c == '"' || c == '\''
}

/// `s` without such punctuation at its end.
pub open spec fn unclosed(s: Seq<char>) -> Seq<char>
    decreases s.len(),
{
    if s.len() > 0 && closes(s.last()) {
        unclosed(s.drop_last())
    } else {
        s
    }
}

/// The URL in a word: from the first scheme that occurs in it on, or the whole
/// of a word that begins with `www.`.
pub open spec fn url_in(word: Seq<char>) -> Option<Seq<char>> {
    if let Some(i) = text::find(word, "https://"@) {
        Some(word.skip(i))
    } else if let Some(i) = text::find(word, "http://"@) {
        Some(word.skip(i))
    } else if let Some(i) = text::find(word, "file://"@) {
        Some(word.skip(i))
    } else if text::stands_at(word, "www."@, 0) {
        Some("https://"@ + word)
    } else {
        None
    }
}

/// The link at a column of a row.
pub open spec fn link_at(cells: Seq<LinkCell>, col: int) -> Option<Seq<char>> {
    if !(0 <= col < cells.len()) {
        None
    } else if let Some(l) = cells[col].link {
        Some(l@)
    } else {
        let s = row_text(cells, cells.len() as int);
        let p = row_text(cells, col).len() as int;
        if p >= s.len() || text::is_space(s[p]) {
            None
        } else {
            url_in(unclosed(s.subrange(word_start(s, p), word_end(s, p))))
        }
    }
}

fn url_from(word: &[char]) -> (r: Option<String>)
    ensures
        match r {
            Some(u) => url_in(word@) == Some(u@),
            None => url_in(word@) is None,
        },
{
    let n: usize = word.len();
    proof {
        text::lemma_find_from(word@, "https://"@, 0);
        text::lemma_find_from(word@, "http://"@, 0);
        text::lemma_find_from(word@, "file://"@, 0);
    }
    if let Some(i) = text::find_chars(word, text::chars_of("https://").as_slice()) {
        let rest = slice_subrange(word, i, n);
        assert(rest@ =~= word@.skip(i as int));
        return Some(text::string_of(rest));
    }
    if let Some(i) = text::find_chars(word, text::chars_of("http://").as_slice()) {
        let rest = slice_subrange(word, i, n);
        assert(rest@ =~= word@.skip(i as int));
        return Some(text::string_of(rest));
    }
    if let Some(i) = text::find_chars(word, text::chars_of("file://").as_slice()) {
        let rest = slice_subrange(word, i, n);
        assert(rest@ =~= word@.skip(i as int));
        return Some(text::string_of(rest));
    }
    if text::begins(word, "www.") {
        let mut u = text::owned("https://");
        text::push_chars(&mut u, word);
        return Some(u);
    }
    None
}

fn drop_closing(s: &[char]) -> (r: &[char])
    ensures
        r@ == unclosed(s@),
{
    let mut n: usize = s.len();
    assert(s@.take(n as int) =~= s@);
    while n > 0
        invariant_except_break
            n <= s@.len(),
            unclosed(s@) == unclosed(s@.take(n as int)),
        ensures
            n <= s@.len(),
            unclosed(s@) == s@.take(n as int),
        decreases n,
    {
        let c = s[n - 1];
        assert(s@.take(n as int).last() == c);
        if !(c == '.' || c == ',' || c == ';' || c == ')' || c == ']' || c == '>' || c == '"' || c
            == '\'') {
            break;
        }
        assert(s@.take(n as int).drop_last() =~= s@.take(n - 1));
        n -= 1;
    }
    assert(s@.take(n as int) =~= s@.subrange(0, n as int));
    slice_subrange(s, 0, n)
}

proof fn lemma_row_text(cells: Seq<LinkCell>, i: int, j: int)
    requires
        0 <= i <= j <= cells.len(),
    ensures
        row_text(cells, i).len() <= row_text(cells, j).len(),
        row_text(cells, j).take(row_text(cells, i).len() as int) == row_text(cells, i),
    decreases j - i,
{
    if i == j {
        assert(row_text(cells, j).take(row_text(cells, i).len() as int) =~= row_text(cells, i));
    } else {
        lemma_row_text(cells, i, j - 1);
        assert(row_text(cells, j).take(row_text(cells, i).len() as int) =~= row_text(
            cells,
            j - 1,
        ).take(row_text(cells, i).len() as int));
    }
}

/// The link at a column of a row: an address that the cell carries, else a
/// URL among the characters around it.
pub fn link_in_row(cells: &[LinkCell], col: usize) -> (r: Option<String>)
    ensures
        match r {
            Some(u) => link_at(cells@, col as int) == Some(u@),
            None => link_at(cells@, col as int) is None,
        },
{
    if col >= cells.len() {
        return None;
    }
    if let Some(l) = &cells[col].link {
        return Some(l.clone());
    }
    let mut s: Vec<char> = Vec::new();
    let mut p: usize = 0;
    let mut i: usize = 0;
    while i < cells.len()
        invariant
            i <= cells@.len(),
            col < cells@.len(),
            s@ == row_text(cells@, i as int),
            p == (if i > col {
                row_text(cells@, col as int).len()
            } else {
                0
            }),
        decreases cells@.len() - i,
    {
        if i == col {
            p = s.len();
        }
        if !cells[i].spacer {
            s.push(cells[i].c);
        }
        i += 1;
    }
    proof {
        lemma_row_text(cells@, col as int, cells@.len() as int);
    }
    if p >= s.len() || text::space(s[p]) {
        return None;
    }
    let mut from: usize = p;
    while from > 0 && !text::space(s[from - 1])
        invariant
            from <= p < s@.len(),
            word_start(s@, p as int) == word_start(s@, from as int),
        decreases from,
    {
        from -= 1;
    }
    let mut to: usize = p;
    while to < s.len() && !text::space(s[to])
        invariant
            p <= to <= s@.len(),
            word_end(s@, p as int) == word_end(s@, to as int),
        decreases s@.len() - to,
    {
        to += 1;
    }
    let word = slice_subrange(s.as_slice(), from, to);
    url_from(drop_closing(word))
}

/// The link under a cell is read off the whole word it is in, whichever of its
/// letters is pointed at.
pub proof fn law_link_of_word(cells: Seq<LinkCell>, a: int, b: int, p: int)
    requires
        0 <= a <= p < b <= cells.len(),
        forall|i: int| 0 <= i < cells.len() ==> !(#[trigger] cells[i]).spacer,
        cells[p].link is None,
        forall|i: int| a <= i < b ==> !text::is_space((#[trigger] cells[i]).c),
        a == 0 || text::is_space(cells[a - 1].c),
        b == cells.len() || text::is_space(cells[b].c),
    ensures
        link_at(cells, p) == url_in(
            unclosed(Seq::new((b - a) as nat, |i: int| cells[a + i].c)),
        ),
{
    let n = cells.len() as int;
    lemma_plain_text(cells, n);
    lemma_plain_text(cells, p);
    let s = row_text(cells, n);
    lemma_from_start(s, a, p);
    lemma_to_end(s, b, p);
    assert(s.subrange(a, b) =~= Seq::new((b - a) as nat, |i: int| cells[a + i].c));
}

/// A cell with an address of its own leads there, and a space nowhere.
pub proof fn law_link_of_cell(cells: Seq<LinkCell>, p: int)
    requires
        0 <= p < cells.len(),
    ensures
        cells[p].link matches Some(l) ==> link_at(cells, p) == Some(l@),
        cells[p].link is None && text::is_space(cells[p].c) && (forall|i: int|
            0 <= i < cells.len() ==> !(#[trigger] cells[i]).spacer) ==> link_at(cells, p) is None,
{
    if forall|i: int| 0 <= i < cells.len() ==> !(#[trigger] cells[i]).spacer {
        lemma_plain_text(cells, cells.len() as int);
        lemma_plain_text(cells, p);
    }
}

proof fn lemma_plain_text(cells: Seq<LinkCell>, n: int)
    requires
        0 <= n <= cells.len(),
        forall|i: int| 0 <= i < cells.len() ==> !(#[trigger] cells[i]).spacer,
    ensures
        row_text(cells, n).len() == n,
        forall|i: int| 0 <= i < n ==> #[trigger] row_text(cells, n)[i] == cells[i].c,
    decreases n,
{
    if n > 0 {
        lemma_plain_text(cells, n - 1);
        assert(!cells[n - 1].spacer);
    }
}

proof fn lemma_from_start(s: Seq<char>, a: int, p: int)
    requires
        0 <= a <= p <= s.len(),
        forall|i: int| a <= i < p ==> !text::is_space(#[trigger] s[i]),
        a == 0 || text::is_space(s[a - 1]),
    ensures
        word_start(s, p) == a,
    decreases p - a,
{
    if p > a {
        lemma_from_start(s, a, p - 1);
    }
}

proof fn lemma_to_end(s: Seq<char>, b: int, p: int)
    requires
        0 <= p <= b <= s.len(),
        forall|i: int| p <= i < b ==> !text::is_space(#[trigger] s[i]),
        b == s.len() || text::is_space(s[b]),
    ensures
        word_end(s, p) == b,
    decreases b - p,
{
    if p < b {
        lemma_to_end(s, b, p + 1);
    }
}

/// Whether a word is free of every scheme.
pub open spec fn schemeless(w: Seq<char>) -> bool {
    !text::holds(w, "://"@)
}

/// An address goes from its scheme to the end of its word, whatever clings to its
/// front; a word that begins with `www.` is one without its scheme; other words
/// are none.
pub proof fn law_url_of_word(front: Seq<char>, rest: Seq<char>, w: Seq<char>)
    requires
        forall|i: int| 0 <= i < front.len() ==> #[trigger] front[i] != 'h',
        schemeless(w),
    ensures
        url_in(front + "https://"@ + rest) == Some("https://"@ + rest),
        !text::holds(front + "http://"@ + rest, "https://"@) ==> url_in(front + "http://"@ + rest)
            == Some("http://"@ + rest),
        schemeless(rest) ==> url_in("file://"@ + rest) == Some("file://"@ + rest),
        text::stands_at(w, "www."@, 0) ==> url_in(w) == Some("https://"@ + w),
        !text::stands_at(w, "www."@, 0) ==> url_in(w) is None,
{
    reveal_strlit("https://");
    reveal_strlit("http://");
    reveal_strlit("file://");
    reveal_strlit("://");
    lemma_first_scheme(front, "https://"@, rest);
    lemma_first_scheme(front, "http://"@, rest);
    lemma_no_scheme(w);
    if schemeless(rest) {
        let f = "file://"@ + rest;
        text::lemma_find_from(f, "https://"@, 0);
        text::lemma_find_from(f, "http://"@, 0);
        text::lemma_find_from(f, "file://"@, 0);
        text::lemma_find_from(rest, "://"@, 0);
        if let Some(i) = text::find(f, "https://"@) {
            assert(f.subrange(i, i + 8)[0] == f[i] && f.subrange(i, i + 8)[7] == f[i + 7]);
            assert(f.subrange(i, i + 8)[5] == f[i + 5] && f.subrange(i, i + 8)[6] == f[i + 6]);
            assert(rest.subrange(i - 2, i + 1) =~= "://"@);
            assert(text::stands_at(rest, "://"@, i - 2));
        }
        if let Some(i) = text::find(f, "http://"@) {
            assert(f.subrange(i, i + 7)[0] == f[i] && f.subrange(i, i + 7)[4] == f[i + 4]);
            assert(f.subrange(i, i + 7)[5] == f[i + 5] && f.subrange(i, i + 7)[6] == f[i + 6]);
            assert(rest.subrange(i - 3, i) =~= "://"@);
            assert(text::stands_at(rest, "://"@, i - 3));
        }
        assert(f.subrange(0, 7) =~= "file://"@);
        assert(text::stands_at(f, "file://"@, 0));
        assert(f.skip(0) =~= f);
    }
}

proof fn lemma_first_scheme(front: Seq<char>, scheme: Seq<char>, rest: Seq<char>)
    requires
        forall|i: int| 0 <= i < front.len() ==> #[trigger] front[i] != 'h',
        scheme.len() > 0,
        scheme[0] == 'h',
    ensures
        text::find(front + scheme + rest, scheme) == Some(front.len() as int),
        (front + scheme + rest).skip(front.len() as int) == scheme + rest,
{
    let s = front + scheme + rest;
    let n = front.len() as int;
    assert(s.subrange(n, n + scheme.len()) =~= scheme);
    assert(s.skip(n) =~= scheme + rest);
    assert forall|i: int| 0 <= i < n implies !#[trigger] text::stands_at(s, scheme, i) by {
        lemma_not_in_front(front, scheme, rest, i);
    }
    text::lemma_found(s, scheme, 0, n);
}

proof fn lemma_not_in_front(front: Seq<char>, scheme: Seq<char>, rest: Seq<char>, i: int)
    requires
        0 <= i < front.len(),
        front[i] != 'h',
        scheme.len() > 0,
        scheme[0] == 'h',
    ensures
        !text::stands_at(front + scheme + rest, scheme, i),
{
    let s = front + scheme + rest;
    assert(s[i] == front[i]);
    if text::stands_at(s, scheme, i) {
        assert(s.subrange(i, i + scheme.len())[0] == s[i]);
    }
}

proof fn lemma_no_scheme(w: Seq<char>)
    requires
        schemeless(w),
    ensures
        !text::holds(w, "https://"@),
        !text::holds(w, "http://"@),
        !text::holds(w, "file://"@),
{
    reveal_strlit("https://");
    reveal_strlit("http://");
    reveal_strlit("file://");
    reveal_strlit("://");
    text::lemma_find_from(w, "://"@, 0);
    text::lemma_find_from(w, "https://"@, 0);
    text::lemma_find_from(w, "http://"@, 0);
    text::lemma_find_from(w, "file://"@, 0);
    if let Some(i) = text::find(w, "https://"@) {
        lemma_scheme_end(w, "https://"@, i);
    }
    if let Some(i) = text::find(w, "http://"@) {
        lemma_scheme_end(w, "http://"@, i);
    }
    if let Some(i) = text::find(w, "file://"@) {
        lemma_scheme_end(w, "file://"@, i);
    }
}

proof fn lemma_scheme_end(w: Seq<char>, scheme: Seq<char>, i: int)
    requires
        text::stands_at(w, scheme, i),
        scheme.len() >= 3,
        scheme.skip(scheme.len() - 3) =~= "://"@,
    ensures
        text::holds(w, "://"@),
{
    reveal_strlit("://");
    let n = scheme.len() as int;
    let k = i + n - 3;
    assert forall|j: int| 0 <= j < 3 implies w.subrange(k, k + 3)[j] == "://"@[j] by {
        assert(w.subrange(i, i + n)[n - 3 + j] == w[k + j]);
        assert(scheme.skip(n - 3)[j] == scheme[n - 3 + j]);
    }
    assert(w.subrange(k, k + 3) =~= "://"@);
    text::lemma_holds(w, "://"@, k);
}

/// Punctuation behind an address is no part of it, however much there is.
pub proof fn law_punctuation_is_left_out(w: Seq<char>, tail: Seq<char>)
    requires
        w.len() > 0,
        !".,;)]>\"'"@.contains(w.last()),
        forall|i: int| 0 <= i < tail.len() ==> ".,;)]>\"'"@.contains(#[trigger] tail[i]),
    ensures
        unclosed(w + tail) == w,
    decreases tail.len(),
{
    reveal_strlit(".,;)]>\"'");
    let marks = ".,;)]>\"'"@;
    assert(marks[0] == '.' && marks[1] == ',' && marks[2] == ';' && marks[3] == ')' && marks[4]
        == ']' && marks[5] == '>' && marks[6] == '"' && marks[7] == '\'');
    if tail.len() == 0 {
        assert(w + tail =~= w);
    } else {
        let t = tail.drop_last();
        assert forall|i: int| 0 <= i < t.len() implies marks.contains(#[trigger] t[i]) by {
            assert(t[i] == tail[i]);
        }
        law_punctuation_is_left_out(w, t);
        assert((w + tail).drop_last() =~= w + t);
        assert((w + tail).last() == tail.last());
        assert(marks.contains(tail[tail.len() - 1]));
    }
}

} // verus!
