//! Browser pane: where what is typed leads, and the state of a pane whose
//! page is created in the background.
use vstd::prelude::*;
use crate::text;

verus! {

/// The address that input in the URL bar stands for: nothing is a blank page,
/// a full URL stays, a local server gets `http`, a word without dot or colon
/// is searched for, anything else gets `https`.
pub open spec fn normalized(input: Seq<char>) -> Seq<char> {
    let s = text::trimmed(input);
    if s.len() == 0 {
        "about:blank"@
    } else if text::holds(s, "://"@) || text::stands_at(s, "about:"@, 0) || text::stands_at(
        s,
        "edge:"@,
        0,
    ) {
        s
    } else if text::stands_at(s, "localhost"@, 0) || text::stands_at(s, "127."@, 0)
        || text::stands_at(s, "0.0.0.0"@, 0) {
        "http://"@ + s
    } else if !s.contains('.') && !s.contains(':') {
        "https://www.google.com/search?q="@ + text::replaced(s, ' ', '+')
    } else {
        "https://"@ + s
    }
}

fn prefixed(front: &str, s: &[char]) -> (r: String)
    ensures
        r@ == front@ + s@,
{
    let mut r = text::owned(front);
    text::push_chars(&mut r, s);
    r
}

pub fn normalize_url(input: &str) -> (r: String)
    ensures
        r@ == normalized(input@),
{
    let all = text::chars_of(input);
    let s = text::trim(all.as_slice());
    if s.len() == 0 {
        return text::owned("about:blank");
    }
    if text::has_text(s, "://") || text::begins(s, "about:") || text::begins(s, "edge:") {
        return text::string_of(s);
    }
    if text::begins(s, "localhost") || text::begins(s, "127.") || text::begins(s, "0.0.0.0") {
        return prefixed("http://", s);
    }
    if !text::has_char(s, '.') && !text::has_char(s, ':') {
        let query = text::replace_char(s, ' ', '+');
        return prefixed("https://www.google.com/search?q=", query.as_slice());
    }
    prefixed("https://", s)
}

/// The plain state of a browser pane.
pub struct BrowserPane {
    pub title: String,
    pub url: String,
    /// Where to go once the page exists.
    pub pending_url: String,
    /// The page exists.
    pub ready: bool,
    pub visible: bool,
}

impl BrowserPane {
    pub fn new(url: &str) -> (r: BrowserPane)
        ensures
            r.title@ == "Browser"@,
            r.url@ == url@,
            r.pending_url@ == url@,
            !r.ready,
            r.visible,
    {
        BrowserPane {
            title: text::owned("Browser"),
            url: text::owned(url),
            pending_url: text::owned(url),
            ready: false,
            visible: true,
        }
    }

    pub fn title(&self) -> (r: String)
        ensures
            r@ == self.title@,
    {
        self.title.clone()
    }

    /// The page has been created: it shows or hides as the pane does, and goes
    /// to the address that was waiting.
    pub fn install(&mut self) -> (go: String)
        ensures
            *final(self) == (BrowserPane { ready: true, ..*old(self) }),
            go@ == old(self).pending_url@,
    {
        self.ready = true;
        self.pending_url.clone()
    }

    /// Go to an address. Returns the address for the URL bar, and whether the
    /// page can be sent there now; otherwise it waits for the page.
    pub fn navigate(&mut self, url: &str) -> (r: (String, bool))
        ensures
            r.0@ == normalized(url@),
            r.1 == old(self).ready,
            final(self).url@ == normalized(url@),
            final(self).pending_url@ == (if old(self).ready {
                old(self).pending_url@
            } else {
                normalized(url@)
            }),
            final(self).title == old(self).title,
            final(self).ready == old(self).ready,
            final(self).visible == old(self).visible,
    {
        let go = normalize_url(url);
        self.url = go.clone();
        if !self.ready {
            self.pending_url = go.clone();
        }
        (go, self.ready)
    }

    /// The document's title changed.
    pub fn title_changed(&mut self, title: String)
        ensures
            *final(self) == (BrowserPane { title, ..*old(self) }),
    {
        self.title = title;
    }

    /// The page went somewhere by itself.
    pub fn source_changed(&mut self, url: String)
        ensures
            *final(self) == (BrowserPane { url, ..*old(self) }),
    {
        self.url = url;
    }

    pub fn show(&mut self, visible: bool)
        ensures
            *final(self) == (BrowserPane { visible, ..*old(self) }),
    {
        self.visible = visible;
    }
}

/// A pane that waits for its page: the window it is in, and its id.
pub type Waiter = (i64, u64);

/// The browser environment, which is created once, in the background.
pub enum EnvState {
    NotStarted,
    Creating(Vec<Waiter>),
    Ready,
}

/// What a request for a page asks for.
#[derive(Clone, Copy, PartialEq, Eq, Debug, Structural)]
pub enum EnvStep {
    /// Start to create the environment; the request waits.
    StartEnvironment,
    /// The request waits.
    Wait,
    /// Create the page now.
    CreatePage,
}

/// The requests that wait.
pub open spec fn waiting(s: EnvState) -> Seq<Waiter> {
    match s {
        EnvState::Creating(q) => q@,
        _ => Seq::empty(),
    }
}

/// What asking for a page does.
pub open spec fn asked(before: EnvState, who: Waiter, step: EnvStep, after: EnvState) -> bool {
    match before {
        EnvState::NotStarted => {
            &&& step == EnvStep::StartEnvironment
            &&& after is Creating
            &&& waiting(after) == seq![who]
        },
        EnvState::Creating(q) => {
            &&& step == EnvStep::Wait
            &&& after is Creating
            &&& waiting(after) == q@.push(who)
        },
        EnvState::Ready => step == EnvStep::CreatePage && after == EnvState::Ready,
    }
}

/// A page is asked for.
pub fn request_controller(state: &mut EnvState, who: Waiter) -> (step: EnvStep)
    ensures
        asked(*old(state), who, step, *final(state)),
{
    let mut queue: Vec<Waiter> = Vec::new();
    let step = match state {
        EnvState::NotStarted => EnvStep::StartEnvironment,
        EnvState::Creating(q) => {
            q.push(who);
            return EnvStep::Wait;
        },
        EnvState::Ready => {
            return EnvStep::CreatePage;
        },
    };
    queue.push(who);
    assert(queue@ =~= seq![who]);
    *state = EnvState::Creating(queue);
    step
}

/// The environment has been created: those that waited get their pages, in
/// the order in which they asked.
pub fn environment_ready(state: &mut EnvState) -> (queue: Vec<Waiter>)
    ensures
        *final(state) == EnvState::Ready,
        queue@ == waiting(*old(state)),
{
    let mut queue: Vec<Waiter> = Vec::new();
    match state {
        EnvState::Creating(q) => {
            queue.append(q);
        },
        _ => {},
    }
    assert(queue@ =~= waiting(*old(state)));
    *state = EnvState::Ready;
    queue
}

/// What a key in the URL bar does.
#[derive(Clone, Copy, PartialEq, Eq, Debug, Structural)]
pub enum UrlKey {
    Navigate,
    Swallow,
    LeaveBar,
    Edit,
}

/// Enter navigates (its character is swallowed), Escape leaves the bar.
pub fn url_bar_key(pressed: bool, code: usize) -> (r: UrlKey)
    ensures
        r == (if pressed && code == 0x0d {
            UrlKey::Navigate
        } else if !pressed && code == 0x0d {
            UrlKey::Swallow
        } else if pressed && code == 0x1b {
            UrlKey::LeaveBar
        } else {
            UrlKey::Edit
        }),
{
    if code == 0x0d {
        if pressed {
            UrlKey::Navigate
        } else {
            UrlKey::Swallow
        }
    } else if pressed && code == 0x1b {
        UrlKey::LeaveBar
    } else {
        UrlKey::Edit
    }
}

/// No request is lost or answered twice: each one either gets its page at
/// once, or waits and is among those that the finished environment serves.
pub proof fn law_requests_served(before: EnvState, who: Waiter, step: EnvStep, after: EnvState)
    requires
        asked(before, who, step, after),
    ensures
        waiting(after) == (if step == EnvStep::CreatePage {
            waiting(before)
        } else {
            waiting(before).push(who)
        }),
{
    assert(Seq::<Waiter>::empty().push(who) =~= seq![who]);
}

/// A full URL is left as it is.
pub proof fn law_full_urls_pass(input: Seq<char>)
    requires
        text::trimmed(input) == input,
        text::holds(input, "://"@),
    ensures
        normalized(input) == input,
{
    reveal_strlit("://");
    text::lemma_find_from(input, "://"@, 0);
}

/// Whatever is put in the URL bar, what comes out is the address of a page, and
/// putting that in again gives it back.
pub proof fn law_address_is_full(input: Seq<char>)
    ensures
        ({
            let a = normalized(input);
            &&& text::holds(a, "://"@) || text::stands_at(a, "about:"@, 0) || text::stands_at(
                a,
                "edge:"@,
                0,
            )
            &&& normalized(a) == a
        }),
{
    reveal_strlit("://");
    reveal_strlit("about:");
    reveal_strlit("edge:");
    reveal_strlit("about:blank");
    reveal_strlit("http://");
    reveal_strlit("https://");
    reveal_strlit("https://www.google.com/search?q=");
    let s = text::trimmed(input);
    let a = normalized(input);
    text::lemma_trimmed_ends(input);
    assert("about:blank"@.subrange(0, 6) =~= "about:"@);
    let h = "http://"@ + s;
    let t = "https://"@ + s;
    let q = "https://www.google.com/search?q="@ + text::replaced(s, ' ', '+');
    assert(h.subrange(4, 7) =~= "://"@);
    assert(t.subrange(5, 8) =~= "://"@);
    assert(q.subrange(5, 8) =~= "://"@);
    text::lemma_holds(h, "://"@, 4);
    text::lemma_holds(t, "://"@, 5);
    text::lemma_holds(q, "://"@, 5);
    text::lemma_trimmed_already(a);
}

/// How input without a scheme is taken: a local server is reached by `http`, a
/// name with a dot or a port by `https`, anything else is searched for with its
/// spaces as plus signs.
pub proof fn law_address_scheme(s: Seq<char>)
    requires
        s.len() > 0,
        text::trimmed(s) == s,
        !text::holds(s, "://"@),
        !text::stands_at(s, "about:"@, 0),
        !text::stands_at(s, "edge:"@, 0),
    ensures
        ({
            let local = text::stands_at(s, "localhost"@, 0) || text::stands_at(s, "127."@, 0)
                || text::stands_at(s, "0.0.0.0"@, 0);
            let named = s.contains('.') || s.contains(':');
            &&& local ==> normalized(s) == "http://"@ + s
            &&& !local && named ==> normalized(s) == "https://"@ + s
            &&& !local && !named ==> text::stands_at(
                normalized(s),
                "https://www.google.com/search?q="@,
                0,
            ) && normalized(s).len() == 32 + s.len() && forall|i: int|
                0 <= i < s.len() ==> #[trigger] normalized(s)[32 + i] == (if s[i] == ' ' {
                    '+'
                } else {
                    s[i]
                })
        }),
{
    reveal_strlit("https://www.google.com/search?q=");
    let q = "https://www.google.com/search?q="@;
    assert((q + text::replaced(s, ' ', '+')).subrange(0, 32) =~= q);
}

/// Input of nothing but white space is a blank page, and white space around an
/// address does not matter.
pub proof fn law_blanks_around_address(a: Seq<char>, s: Seq<char>, b: Seq<char>)
    requires
        forall|i: int| 0 <= i < a.len() ==> text::is_space(#[trigger] a[i]),
        forall|i: int| 0 <= i < b.len() ==> text::is_space(#[trigger] b[i]),
        s.len() > 0,
        !text::is_space(s[0]),
        !text::is_space(s.last()),
    ensures
        normalized(a) == "about:blank"@,
        normalized(a + s + b) == normalized(s),
{
    text::law_trimmed(a, s, b);
    text::lemma_trimmed_already(s);
    lemma_blank(a);
}

proof fn lemma_blank(a: Seq<char>)
    requires
        forall|i: int| 0 <= i < a.len() ==> text::is_space(#[trigger] a[i]),
    ensures
        text::trimmed(a).len() == 0,
    decreases a.len(),
{
    if a.len() > 0 {
        let r = a.drop_first();
        assert forall|i: int| 0 <= i < r.len() implies text::is_space(#[trigger] r[i]) by {
            assert(r[i] == a[i + 1]);
        }
        lemma_blank(r);
    }
}

} // verus!
