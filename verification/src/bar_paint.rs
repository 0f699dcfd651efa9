//! The marks that draw the tab bar, the titles of panes and the toolbars of
//! browsers.
use vstd::prelude::*;
use crate::chrome;
use crate::message::{HTCLOSE, HTMAXBUTTON, HTMINBUTTON};
use crate::paint;
use crate::paint::{Drawn, Face, Mark};
use crate::palette::Rgb;
use crate::pane_tree;
use crate::pane_tree::{Area, RectF, DIP};
use crate::tabs::TabModel;
use crate::text;
use crate::tones;
use crate::tones::Tone;
use crate::window;
use crate::window::{Drag, DragModel, TermWindow, Win};

verus! {

/// An area, by its edges.
pub open spec fn inset(r: Area, l: int, t: int, rr: int, b: int) -> Area {
    paint::edges(r.x + l, r.y + t, r.x + r.w - rr, r.y + r.h - b)
}

pub fn inside(r: &RectF, l: i64, t: i64, rr: i64, b: i64) -> (c: RectF)
    requires
        far_ok(r@),
        0 <= l <= 0x10_0000,
        0 <= t <= 0x10_0000,
        0 <= rr <= 0x10_0000,
        0 <= b <= 0x10_0000,
    ensures
        c@ == inset(r@, l as int, t as int, rr as int, b as int),
{
    paint::rect(r.x + l, r.y + t, r.x + r.w - rr, r.y + r.h - b)
}

/// An area that can be drawn, and a little around it.
pub open spec fn far_ok(a: Area) -> bool {
    &&& -0x2fff_0000_0000_0000 <= a.x <= 0x2fff_0000_0000_0000
    &&& -0x2fff_0000_0000_0000 <= a.y <= 0x2fff_0000_0000_0000
    &&& -0x1_0000_0000_0000 <= a.w <= 0x1_0000_0000_0000
    &&& -0x1_0000_0000_0000 <= a.h <= 0x1_0000_0000_0000
    &&& -0x2fff_0000_0000_0000 <= a.x + a.w <= 0x2fff_0000_0000_0000
    &&& -0x2fff_0000_0000_0000 <= a.y + a.h <= 0x2fff_0000_0000_0000
}

/// What a tab is called on the bar: with a sign before it where a pane is
/// zoomed.
pub open spec fn tab_label(t: TabModel, title: Seq<char>) -> Seq<char> {
    if t.zoomed is Some {
        "\u{2922} "@ + title
    } else {
        title
    }
}

/// A tab: its body, a line above the active one, its label and its close
/// glyph.
pub open spec fn tab_marks(r: Area, active: bool, label: Seq<char>) -> Seq<Drawn> {
    let tone = if active {
        Tone::TabTextActive
    } else {
        Tone::TabText
    };
    seq![
        Drawn::Rounded(
            r,
            6 * DIP as int,
            tones::full(
                if active {
                    Tone::TabActive
                } else {
                    Tone::TabInactive
                },
            ),
        ),
    ] + (if active {
        seq![
            Drawn::Fill(
                paint::edges(r.x + 6 * DIP, r.y, r.x + r.w - 6 * DIP, r.y + 2 * DIP),
                tones::full(Tone::Accent),
            ),
        ]
    } else {
        Seq::empty()
    }) + seq![
        Drawn::Text(label, Face::Ui, inset(r, 10 * DIP as int, 0, 24 * DIP as int, 0), tones::full(tone)),
        Drawn::Text(
            "\u{e711}"@,
            Face::Icons,
            paint::edges(r.x + r.w - 22 * DIP, r.y, r.x + r.w - 4 * DIP, r.y + r.h),
            tones::wash(tone, 700),
        ),
    ]
}

/// The tab that is dragged, and how far.
pub open spec fn dragged_tab(w: Win) -> Option<(int, int)> {
    match w.drag {
        DragModel::Tab { idx, press, cur, live } => if live {
            Some((idx as int, cur.0 - press.0))
        } else {
            None
        },
        _ => None,
    }
}

/// One tab of the bar, moved by `dx`.
pub open spec fn nth_tab(w: Win, titles: Seq<Seq<char>>, i: int, dx: int) -> Seq<Drawn> {
    let r = chrome::tab_area(window::bar_of(w), i);
    tab_marks(
        Area { x: r.x + dx, ..r },
        i == w.active,
        tab_label(w.tabs[i], titles[i]),
    )
}

/// The first `n` tabs, but for the dragged one, which is drawn on top of them.
pub open spec fn still_tabs(w: Win, titles: Seq<Seq<char>>, n: int) -> Seq<Drawn>
    decreases n,
{
    if n <= 0 || n > w.tabs.len() {
        Seq::empty()
    } else if dragged_tab(w) matches Some(d) && d.0 == n - 1 {
        still_tabs(w, titles, n - 1)
    } else {
        still_tabs(w, titles, n - 1) + nth_tab(w, titles, n - 1, 0)
    }
}

/// A caption button.
pub open spec fn caption_marks(r: Area, glyph: Seq<char>, hot: bool, red: bool) -> Seq<Drawn> {
    (if hot {
        seq![
            Drawn::Fill(
                r,
                tones::full(
                    if red {
                        Tone::CloseHot
                    } else {
                        Tone::TabInactive
                    },
                ),
            ),
        ]
    } else {
        Seq::empty()
    }) + seq![Drawn::Text(glyph, Face::Icons, r, tones::full(Tone::TabTextActive))]
}

/// The caption buttons, where the window draws its own.
pub open spec fn captions(w: Win, maximized: bool) -> Seq<Drawn> {
    let width = window::bar_of(w).width as int;
    if w.frame.custom {
        caption_marks(
            chrome::caption_area(width, 3),
            "\u{e921}"@,
            w.hot_caption == Some(HTMINBUTTON),
            false,
        ) + caption_marks(
            chrome::caption_area(width, 2),
            if maximized {
                "\u{e923}"@
            } else {
                "\u{e922}"@
            },
            w.hot_caption == Some(HTMAXBUTTON),
            false,
        ) + caption_marks(
            chrome::caption_area(width, 1),
            "\u{e8bb}"@,
            w.hot_caption == Some(HTCLOSE),
            true,
        )
    } else {
        Seq::empty()
    }
}

/// The tab bar: its ground, the tabs, the button that opens one, the caption.
pub open spec fn bar_marks(w: Win, titles: Seq<Seq<char>>, maximized: bool) -> Seq<Drawn> {
    let b = window::bar_of(w);
    let plus = chrome::plus_area(b);
    seq![
        Drawn::Fill(
            paint::edges(0, 0, b.width as int, chrome::TABBAR_H as int),
            tones::full(Tone::ChromeBg),
        ),
    ] + still_tabs(w, titles, w.tabs.len() as int) + (match dragged_tab(w) {
        Some((i, dx)) => nth_tab(w, titles, i, dx),
        None => Seq::empty(),
    }) + seq![
        Drawn::Rounded(plus, 4 * DIP as int, tones::full(Tone::TabInactive)),
        Drawn::Text("\u{e710}"@, Face::Icons, plus, tones::full(Tone::TabText)),
    ] + captions(w, maximized)
}

pub open spec fn texts(v: Seq<String>) -> Seq<Seq<char>> {
    v.map_values(|s: String| s@)
}

/// A drag whose points are in range.
pub open spec fn drag_near(w: Win) -> bool {
    match w.drag {
        DragModel::Tab { idx, press, cur, live } => {
            &&& chrome::point_ok(press.0 as int, press.1 as int)
            &&& chrome::point_ok(cur.0 as int, cur.1 as int)
            &&& live ==> idx < w.tabs.len()
        },
        DragModel::Pane { cur, .. } => chrome::point_ok(cur.0 as int, cur.1 as int),
        _ => true,
    }
}

fn put_tab(v: &mut Vec<Mark>, r: RectF, active: bool, label: String)
    requires
        far_ok(r@),
    ensures
        paint::drawing(final(v)@) == paint::drawing(old(v)@) + tab_marks(r@, active, label@),
{
    let ghost before = paint::drawing(v@);
    let (body, tone) = if active {
        (Tone::TabActive, Tone::TabTextActive)
    } else {
        (Tone::TabInactive, Tone::TabText)
    };
    paint::put(v, Mark::Rounded(r, 6 * DIP, tones::tint(body, 1000)));
    if active {
        let line = paint::rect(r.x + 6 * DIP, r.y, r.x + r.w - 6 * DIP, r.y + 2 * DIP);
        paint::put(v, Mark::Fill(line, tones::tint(Tone::Accent, 1000)));
    }
    let at = inside(&r, 10 * DIP, 0, 24 * DIP, 0);
    paint::put(v, Mark::Text(label, Face::Ui, at, tones::tint(tone, 1000)));
    let close = paint::rect(r.x + r.w - 22 * DIP, r.y, r.x + r.w - 4 * DIP, r.y + r.h);
    paint::put(
        v,
        Mark::Text(text::owned("\u{e711}"), Face::Icons, close, tones::tint(tone, 700)),
    );
    assert(paint::drawing(v@) =~= before + tab_marks(r@, active, label@));
}

fn put_caption(v: &mut Vec<Mark>, r: RectF, glyph: &str, hot: bool, red: bool)
    ensures
        paint::drawing(final(v)@) == paint::drawing(old(v)@) + caption_marks(
            r@,
            glyph@,
            hot,
            red,
        ),
{
    let ghost before = paint::drawing(v@);
    if hot {
        let tone = if red {
            Tone::CloseHot
        } else {
            Tone::TabInactive
        };
        paint::put(v, Mark::Fill(r, tones::tint(tone, 1000)));
    }
    paint::put(
        v,
        Mark::Text(text::owned(glyph), Face::Icons, r, tones::tint(Tone::TabTextActive, 1000)),
    );
    assert(paint::drawing(v@) =~= before + caption_marks(r@, glyph@, hot, red));
}

impl TermWindow {
    fn put_nth_tab(&self, v: &mut Vec<Mark>, titles: &Vec<String>, i: usize, dx: i64)
        requires
            self.wf(),
            i < self.tabs@.len(),
            titles@.len() == self.tabs@.len(),
            -0x2000_0000_0000_0000 <= dx <= 0x2000_0000_0000_0000,
        ensures
            paint::drawing(final(v)@) == paint::drawing(old(v)@) + nth_tab(
                self@,
                texts(titles@),
                i as int,
                dx as int,
            ),
    {
        let b = self.bar();
        let r = b.tab_rect(i);
        assert(self@.tabs[i as int] == self.tabs@[i as int]@);
        let mut label = String::new();
        if self.tabs[i].zoomed.is_some() {
            text::push_text(&mut label, "\u{2922} ");
        }
        text::push_text(&mut label, titles[i].as_str());
        assert(label@ =~= tab_label(self@.tabs[i as int], texts(titles@)[i as int]));
        put_tab(v, RectF { x: r.x + dx, y: r.y, w: r.w, h: r.h }, i == self.active, label);
    }

    fn put_still_tabs(&self, v: &mut Vec<Mark>, titles: &Vec<String>, skip: Option<usize>)
        requires
            self.wf(),
            titles@.len() == self.tabs@.len(),
            match skip {
                Some(k) => dragged_tab(self@) matches Some(d) && d.0 == k,
                None => dragged_tab(self@) is None,
            },
        ensures
            paint::drawing(final(v)@) == paint::drawing(old(v)@) + still_tabs(
                self@,
                texts(titles@),
                self.tabs@.len() as int,
            ),
    {
        let ghost before = paint::drawing(v@);
        let n: usize = self.tabs.len();
        let mut i: usize = 0;
        assert(before =~= before + still_tabs(self@, texts(titles@), 0));
        while i < n
            invariant
                i <= n == self.tabs@.len(),
                self.wf(),
                titles@.len() == n,
                match skip {
                    Some(k) => dragged_tab(self@) matches Some(d) && d.0 == k,
                    None => dragged_tab(self@) is None,
                },
                paint::drawing(v@) == before + still_tabs(self@, texts(titles@), i as int),
            decreases n - i,
        {
            let skipped = match skip {
                Some(k) => k == i,
                None => false,
            };
            if !skipped {
                self.put_nth_tab(v, titles, i, 0);
            }
            i += 1;
            assert(paint::drawing(v@) =~= before + still_tabs(self@, texts(titles@), i as int));
        }
    }

    /// Draw the tab bar. `titles` are the tabs' titles.
    pub fn draw_tab_bar(&self, titles: &Vec<String>, maximized: bool) -> (v: Vec<Mark>)
        requires
            self.wf(),
            titles@.len() == self.tabs@.len(),
            drag_near(self@),
        ensures
            paint::drawing(v@) == bar_marks(self@, texts(titles@), maximized),
    {
        let b = self.bar();
        let mut v: Vec<Mark> = Vec::new();
        let ground = paint::rect(0, 0, b.width, chrome::TABBAR_H);
        paint::put(&mut v, Mark::Fill(ground, tones::tint(Tone::ChromeBg, 1000)));
        let (skip, dx): (Option<usize>, i64) = match &self.drag {
            Drag::Tab { idx, press, cur, live } => if *live {
                (Some(*idx), cur.0 - press.0)
            } else {
                (None, 0)
            },
            _ => (None, 0),
        };
        self.put_still_tabs(&mut v, titles, skip);
        if let Some(i) = skip {
            self.put_nth_tab(&mut v, titles, i, dx);
        }
        let plus = b.plus_rect();
        paint::put(&mut v, Mark::Rounded(plus, 4 * DIP, tones::tint(Tone::TabInactive, 1000)));
        paint::put(
            &mut v,
            Mark::Text(
                text::owned("\u{e710}"),
                Face::Icons,
                plus,
                tones::tint(Tone::TabText, 1000),
            ),
        );
        if self.frame.custom {
            let (least, most, close) = b.caption_buttons();
            put_caption(&mut v, least, "\u{e921}", self.hot_is(HTMINBUTTON), false);
            put_caption(
                &mut v,
                most,
                if maximized {
                    "\u{e923}"
                } else {
                    "\u{e922}"
                },
                self.hot_is(HTMAXBUTTON),
                false,
            );
            put_caption(&mut v, close, "\u{e8bb}", self.hot_is(HTCLOSE), true);
        }
        assert(paint::drawing(v@) =~= bar_marks(self@, texts(titles@), maximized));
        v
    }

    fn hot_is(&self, code: u32) -> (r: bool)
        ensures
            r == (self@.hot_caption == Some(code)),
    {
        match self.hot_caption {
            Some(c) => c == code,
            None => false,
        }
    }
}

/// The title bar of a pane: its ground, a grip, the title and a close glyph.
pub open spec fn title_marks(r: Area, title: Seq<char>, active: bool) -> Seq<Drawn> {
    let tone = if active {
        Tone::TabTextActive
    } else {
        Tone::TabText
    };
    let h = chrome::PANE_TITLE_H;
    seq![
        Drawn::Fill(paint::edges(r.x, r.y, r.x + r.w, r.y + h), tones::full(Tone::ToolbarBg)),
        Drawn::Text(
            "\u{e76f}"@,
            Face::Icons,
            paint::edges(r.x + 4 * DIP, r.y, r.x + 20 * DIP, r.y + h),
            tones::wash(tone, 600),
        ),
        Drawn::Text(
            title,
            Face::Ui,
            paint::edges(r.x + 24 * DIP, r.y, r.x + r.w - 26 * DIP, r.y + h),
            tones::full(tone),
        ),
        Drawn::Text("\u{e711}"@, Face::Icons, chrome::close_area(r), tones::wash(tone, 700)),
    ]
}

pub fn put_title(v: &mut Vec<Mark>, r: &RectF, title: String, active: bool)
    requires
        pane_tree::rect_ok(r@),
    ensures
        paint::drawing(final(v)@) == paint::drawing(old(v)@) + title_marks(r@, title@, active),
{
    let ghost before = paint::drawing(v@);
    let h: i64 = chrome::PANE_TITLE_H;
    let tone = if active {
        Tone::TabTextActive
    } else {
        Tone::TabText
    };
    let bar = paint::rect(r.x, r.y, r.x + r.w, r.y + h);
    paint::put(v, Mark::Fill(bar, tones::tint(Tone::ToolbarBg, 1000)));
    let grip = paint::rect(r.x + 4 * DIP, r.y, r.x + 20 * DIP, r.y + h);
    paint::put(v, Mark::Text(text::owned("\u{e76f}"), Face::Icons, grip, tones::tint(tone, 600)));
    let at = paint::rect(r.x + 24 * DIP, r.y, r.x + r.w - 26 * DIP, r.y + h);
    paint::put(v, Mark::Text(title, Face::Ui, at, tones::tint(tone, 1000)));
    let close = chrome::title_close_rect(*r);
    paint::put(
        v,
        Mark::Text(text::owned("\u{e711}"), Face::Icons, close, tones::tint(tone, 700)),
    );
    assert(paint::drawing(v@) =~= before + title_marks(r@, title@, active));
}

/// The toolbar of a browser, and a ground until the page is there.
pub open spec fn toolbar_marks(c: Area, bg: Rgb) -> Seq<Drawn> {
    let b = chrome::BTN_W as int;
    let left = c.x + 4 * DIP;
    let p = tones::full(Tone::TabText);
    seq![
        Drawn::Fill(
            Area { h: chrome::TOOLBAR_H as int, ..c },
            tones::full(Tone::ToolbarBg),
        ),
        Drawn::Text("\u{e72b}"@, Face::Icons, chrome::button_area(left, c.y), p),
        Drawn::Text("\u{e72a}"@, Face::Icons, chrome::button_area(left + b, c.y), p),
        Drawn::Text("\u{e72c}"@, Face::Icons, chrome::button_area(left + 2 * b, c.y), p),
        Drawn::Text(
            "\u{ec7a}"@,
            Face::Icons,
            chrome::button_area(c.x + c.w - 2 * b, c.y),
            p,
        ),
        Drawn::Text("\u{e711}"@, Face::Icons, chrome::button_area(c.x + c.w - b, c.y), p),
        Drawn::Fill(
            paint::edges(c.x, c.y + chrome::TOOLBAR_H, c.x + c.w, c.y + c.h),
            paint::solid(bg),
        ),
    ]
}

pub fn put_toolbar(v: &mut Vec<Mark>, c: &RectF, bg: Rgb)
    requires
        chrome::near(c@),
    ensures
        paint::drawing(final(v)@) == paint::drawing(old(v)@) + toolbar_marks(c@, bg),
{
    let ghost before = paint::drawing(v@);
    let b = chrome::browser_chrome(*c);
    let p = tones::tint(Tone::TabText, 1000);
    paint::put(v, Mark::Fill(b.toolbar, tones::tint(Tone::ToolbarBg, 1000)));
    paint::put(v, Mark::Text(text::owned("\u{e72b}"), Face::Icons, b.back, p));
    paint::put(v, Mark::Text(text::owned("\u{e72a}"), Face::Icons, b.fwd, p));
    paint::put(v, Mark::Text(text::owned("\u{e72c}"), Face::Icons, b.reload, p));
    paint::put(v, Mark::Text(text::owned("\u{ec7a}"), Face::Icons, b.dev, p));
    paint::put(v, Mark::Text(text::owned("\u{e711}"), Face::Icons, b.close, p));
    let body = paint::rect(c.x, c.y + chrome::TOOLBAR_H, c.x + c.w, c.y + c.h);
    paint::put(v, Mark::Fill(body, paint::opaque(bg)));
    assert(paint::drawing(v@) =~= before + toolbar_marks(c@, bg));
}

/// Whether an area lies in another.
pub open spec fn within(a: Area, b: Area) -> bool {
    b.x <= a.x && a.x + a.w <= b.x + b.w && b.y <= a.y && a.y + a.h <= b.y + b.h
}

/// A tab shows its label and, at its right end, the glyph that closes it, both in
/// the tab; the active one alone has a line along its top.
pub proof fn law_tab_shows_label(r: Area, active: bool, label: Seq<char>)
    requires
        r.w >= 60 * 1024,
        r.h >= 10 * 1024,
    ensures
        ({
            let v = tab_marks(r, active, label);
            let n = v.len() as int;
            &&& n == if active {
                4int
            } else {
                3
            }
            &&& v[0] matches Drawn::Rounded(a, _, p) && a == r && p == tones::full(
                if active {
                    Tone::TabActive
                } else {
                    Tone::TabInactive
                },
            )
            &&& v[n - 2] matches Drawn::Text(s, f, a, p) && s == label && f == Face::Ui && within(a, r)
                && a.x == r.x + 10 * 1024 && a.x + a.w == r.x + r.w - 24 * 1024 && p == tones::full(
                if active {
                    Tone::TabTextActive
                } else {
                    Tone::TabText
                },
            )
            &&& v[n - 1] matches Drawn::Text(_, f, a, _) && f == Face::Icons && within(a, r) && a.x
                == r.x + r.w - 22 * 1024 && a.w == 18 * 1024
            &&& active ==> (v[1] matches Drawn::Fill(a, p) && within(a, r) && a.y == r.y && a.h
                == 2 * 1024 && p == tones::full(Tone::Accent))
        }),
{
}

/// Each tab is drawn where a press on it is taken: in its slot of the bar, but for
/// the one that is dragged, which goes with the pointer.
pub proof fn law_tabs_are_drawn_in_place(w: Win, titles: Seq<Seq<char>>, n: int, i: int)
    requires
        0 <= i < n <= w.tabs.len(),
        titles.len() == w.tabs.len(),
        dragged_tab(w) matches Some(d) ==> d.0 != i,
    ensures
        exists|k: int|
            0 <= k < still_tabs(w, titles, n).len() && (
            #[trigger] still_tabs(w, titles, n)[k] matches Drawn::Rounded(a, _, p) && a
                == chrome::tab_area(window::bar_of(w), i) && p == tones::full(
                if i == w.active {
                    Tone::TabActive
                } else {
                    Tone::TabInactive
                },
            )),
    decreases n,
{
    let v = still_tabs(w, titles, n);
    let before = still_tabs(w, titles, n - 1);
    if i == n - 1 {
        let k = before.len() as int;
        let m = nth_tab(w, titles, i, 0);
        assert(v[k] == m[0]);
    } else {
        law_tabs_are_drawn_in_place(w, titles, n - 1, i);
        let k = choose|k: int|
            0 <= k < before.len() && (#[trigger] before[k] matches Drawn::Rounded(a, _, p) && a
                == chrome::tab_area(window::bar_of(w), i) && p == tones::full(
                if i == w.active {
                    Tone::TabActive
                } else {
                    Tone::TabInactive
                },
            ));
        assert(v[k] == before[k]);
    }
}

/// A dragged tab is drawn away from its slot by as much as the pointer has moved
/// sideways, and at its height; a tab that is only pressed stays.
pub proof fn law_dragged_tab_follows(w: Win, titles: Seq<Seq<char>>)
    ensures
        match w.drag {
            DragModel::Tab { idx, press, cur, live } => if live {
                &&& dragged_tab(w) == Some((idx as int, cur.0 - press.0))
                &&& nth_tab(w, titles, idx as int, cur.0 - press.0)[0] matches Drawn::Rounded(a, _, _)
                    && a.x - chrome::tab_area(window::bar_of(w), idx as int).x == cur.0 - press.0
                    && a.y == chrome::tab_area(window::bar_of(w), idx as int).y && a.w
                    == chrome::tab_area(window::bar_of(w), idx as int).w
            } else {
                dragged_tab(w) is None
            },
            _ => dragged_tab(w) is None,
        },
{
}

/// The caption buttons stand at the right end of the bar: close last, the size
/// before it, and minimize before that.
pub proof fn law_caption_glyphs(w: Win, maximized: bool)
    requires
        w.frame.custom,
        w.hot_caption is None,
    ensures
        ({
            let v = captions(w, maximized);
            let width = window::bar_of(w).width;
            &&& v.len() == 3
            &&& v[0] matches Drawn::Text(s, _, a, _) && s == "\u{e921}"@ && a.x == width - 138 * 1024
                && a.w == 46 * 1024
            &&& v[1] matches Drawn::Text(s, _, a, _) && s == (if maximized {
                "\u{e923}"@
            } else {
                "\u{e922}"@
            }) && a.x == width - 92 * 1024 && a.w == 46 * 1024
            &&& v[2] matches Drawn::Text(s, _, a, _) && s == "\u{e8bb}"@ && a.x == width - 46 * 1024
                && a.x + a.w == width
        }),
{
}

/// The button under the pointer is lit behind its glyph, and the others are not.
pub proof fn law_hot_caption_is_lit(w: Win, maximized: bool)
    requires
        w.frame.custom,
    ensures
        ({
            let v = captions(w, maximized);
            let width = window::bar_of(w).width;
            &&& w.hot_caption == Some(8u32) ==> v.len() == 4 && (v[0] matches Drawn::Fill(a, p) && a.x
                == width - 138 * 1024 && p == tones::full(Tone::TabInactive))
            &&& w.hot_caption == Some(9u32) ==> v.len() == 4 && (v[1] matches Drawn::Fill(a, p) && a.x
                == width - 92 * 1024 && p == tones::full(Tone::TabInactive))
            &&& w.hot_caption == Some(20u32) ==> v.len() == 4 && (v[2] matches Drawn::Fill(a, p)
                && a.x == width - 46 * 1024 && p == tones::full(Tone::CloseHot))
        }),
{
}

/// A window with the frame of the system has no caption buttons of its own.
pub proof fn law_no_captions(w: Win, maximized: bool)
    requires
        !w.frame.custom,
    ensures
        captions(w, maximized) == Seq::<Drawn>::empty(),
{
}

/// The title of a pane stands along its top, between the grip and the glyph that
/// closes it, which is drawn where a press on it is taken.
pub proof fn law_title_of_pane(r: Area, title: Seq<char>, active: bool)
    requires
        r.w >= 60 * 1024,
        r.h >= 22 * 1024,
    ensures
        ({
            let v = title_marks(r, title, active);
            &&& v.len() == 4
            &&& v[0] matches Drawn::Fill(a, p) && a == (Area { h: 22528, ..r }) && p
                == tones::full(Tone::ToolbarBg)
            &&& v[1] matches Drawn::Text(_, _, a, _) && a.x >= r.x && a.x + a.w <= r.x + 24 * 1024
            &&& v[2] matches Drawn::Text(s, _, a, p) && s == title && a.x == r.x + 24 * 1024 && a.x
                + a.w == r.x + r.w - 26 * 1024 && a.y == r.y && a.h == 22 * 1024 && p == tones::full(
                if active {
                    Tone::TabTextActive
                } else {
                    Tone::TabText
                },
            )
            &&& v[3] matches Drawn::Text(s, _, a, _) && s == "\u{e711}"@ && a == chrome::close_area(r)
        }),
{
}

/// The buttons of a browser are drawn where presses on them are taken: back,
/// forward and reload from the left, close and the tools at the right. Below the
/// toolbar the page has the ground of the terminal.
pub proof fn law_toolbar_is_drawn(c: Area, bg: Rgb)
    ensures
        ({
            let v = toolbar_marks(c, bg);
            &&& v.len() == 7
            &&& v[0] matches Drawn::Fill(a, p) && a == (Area { h: 34816, ..c }) && p
                == tones::full(Tone::ToolbarBg)
            &&& v[1] matches Drawn::Text(s, _, a, _) && s == "\u{e72b}"@ && a.x == c.x + 4 * 1024
            &&& v[2] matches Drawn::Text(s, _, a, _) && s == "\u{e72a}"@ && a.x == c.x + 34 * 1024
            &&& v[3] matches Drawn::Text(s, _, a, _) && s == "\u{e72c}"@ && a.x == c.x + 64 * 1024
            &&& v[4] matches Drawn::Text(s, _, a, _) && s == "\u{ec7a}"@ && a.x == c.x + c.w - 60
                * 1024
            &&& v[5] matches Drawn::Text(s, _, a, _) && s == "\u{e711}"@ && a.x == c.x + c.w - 30
                * 1024
            &&& v[6] matches Drawn::Fill(a, p) && a.x == c.x && a.w == c.w && a.y == c.y + 34 * 1024
                && a.y + a.h == c.y + c.h && p == paint::solid(bg)
        }),
{
}

/// A zoomed tab says so in front of its title.
pub proof fn law_zoom_sign(t: TabModel, title: Seq<char>)
    ensures
        t.zoomed is None ==> tab_label(t, title) == title,
        t.zoomed is Some ==> tab_label(t, title).len() == 2 + title.len() && tab_label(t, title)[0]
            == '\u{2922}' && tab_label(t, title).skip(2) == title,
{
    reveal_strlit("\u{2922} ");
    assert(("\u{2922} "@ + title).skip(2) =~= title);
}

/// The bar is drawn over its ground, the dragged tab over the others, and the
/// button that opens a tab behind the last one.
pub proof fn law_bar_order(w: Win, titles: Seq<Seq<char>>, maximized: bool)
    ensures
        ({
            let v = bar_marks(w, titles, maximized);
            let b = window::bar_of(w);
            let n = still_tabs(w, titles, w.tabs.len() as int).len() as int;
            let d = match dragged_tab(w) {
                Some((i, dx)) => nth_tab(w, titles, i, dx).len() as int,
                None => 0,
            };
            &&& v[0] matches Drawn::Fill(a, p) && a.x == 0 && a.y == 0 && a.w == b.width && a.h == 38
                * 1024 && p == tones::full(Tone::ChromeBg)
            &&& v.subrange(1, 1 + n) == still_tabs(w, titles, w.tabs.len() as int)
            &&& dragged_tab(w) matches Some((i, dx)) ==> v.subrange(1 + n, 1 + n + d) == nth_tab(
                w,
                titles,
                i,
                dx,
            )
            &&& v[1 + n + d] matches Drawn::Rounded(a, _, _) && a == chrome::plus_area(b)
            &&& v[2 + n + d] matches Drawn::Text(s, _, a, _) && s == "\u{e710}"@ && a
                == chrome::plus_area(b)
        }),
{
    let v = bar_marks(w, titles, maximized);
    let t = still_tabs(w, titles, w.tabs.len() as int);
    let n = t.len() as int;
    assert(v.subrange(1, 1 + n) =~= t);
    if let Some((i, dx)) = dragged_tab(w) {
        let m = nth_tab(w, titles, i, dx);
        assert(v.subrange(1 + n, 1 + n + m.len()) =~= m);
    }
}

} // verus!
