use alacritty_terminal::index::{Column, Line, Point};
use alacritty_terminal::selection::SelectionRange;
use alacritty_terminal::term::cell::Flags;
use baduhan::cells::{batch_cells, pick, GridCell, Selected};
use baduhan::decor::{draw_decor, is_decor};
use baduhan::frame_paint::Look;
use baduhan::grid_paint::{draw_term, snap, Content, CursorShape, TextCursor};
use baduhan::paint::{Face, Mark};
use baduhan::palette::{rgb, Color, Colors, NamedColor, Scheme};
use baduhan::pane_tree::{Dir, PaneId, RectF, DIP};
use baduhan::scrollback::Screen;
use baduhan::tabs::{CellSize, Pane, PaneKind};
use baduhan::term_pane::TermPane;
use baduhan::window::{Drag, Frame, Settings, TermWindow};

const FG: Color = Color::Named(NamedColor::Foreground);
const BG: Color = Color::Named(NamedColor::Background);

fn cell(line: i32, col: usize, c: char, flags: Flags) -> GridCell {
    GridCell { line, col, c, marks: None, fg: FG, bg: BG, underline: None, flags: flags.bits() }
}

fn row(text: &str) -> Vec<GridCell> {
    text.chars().enumerate().map(|(i, c)| cell(0, i, c, Flags::empty())).collect()
}

fn term(id: PaneId) -> Pane {
    let t = TermPane::new(format!("shell {id}"), &["cmd.exe".to_string()], 80, 24);
    Pane { id, kind: PaneKind::Term(t) }
}

fn window(tabs: u64) -> TermWindow {
    let mut w = TermWindow::new(
        Frame { width: 1180, height: 760, dpi: 96, custom: true },
        CellSize { w: 8 * DIP, h: 16 * DIP },
        Settings { font_size: 13000, profiles: 2 },
    );
    for i in 1..=tabs {
        w.tab_opened(term(i));
    }
    w
}

fn look(titles: &[&str]) -> Look {
    Look {
        titles: titles.iter().map(|s| s.to_string()).collect(),
        maximized: false,
        ground: rgb(1, 2, 3),
        dim: 250,
        binds: Vec::new(),
        passthrough: Vec::new(),
    }
}

fn texts(v: &[Mark]) -> Vec<String> {
    v.iter()
        .filter_map(|m| match m {
            Mark::Text(t, ..) => Some(t.clone()),
            _ => None,
        })
        .collect()
}

#[test]
fn cells_of_one_style_make_a_run() {
    let s = Scheme::campbell();
    let b = batch_cells(&row("ab cd"), 0, None, &Colors::default(), &s);
    assert_eq!(b.runs.len(), 1);
    assert_eq!(b.runs[0].text, "ab cd");
    assert_eq!((b.runs[0].row, b.runs[0].col, b.runs[0].width), (0, 0, 5));
    assert_eq!(b.runs[0].fg, s.fg);
    assert!(b.grounds.is_empty());
    let mut two = row("ab");
    two[1].flags = Flags::BOLD.bits();
    let b = batch_cells(&two, 0, None, &Colors::default(), &s);
    assert_eq!(b.runs.len(), 2);
    assert_eq!(pick(b.runs[1].flags), Face::Bold);
}

#[test]
fn faces_follow_the_flags() {
    assert_eq!(pick(0), Face::Regular);
    assert_eq!(pick(Flags::ITALIC.bits()), Face::Italic);
    assert_eq!(pick((Flags::BOLD | Flags::ITALIC).bits()), Face::BoldItalic);
}

#[test]
fn selected_cells_are_inverted() {
    let s = Scheme::campbell();
    let sel = Selected { start_line: 0, start_col: 1, end_line: 0, end_col: 2, block: false };
    let b = batch_cells(&row("abcd"), 0, Some(sel), &Colors::default(), &s);
    let cols: Vec<usize> = b.grounds.iter().map(|g| g.col).collect();
    assert_eq!(cols, vec![1, 2]);
    assert_eq!(b.grounds[0].color, s.fg);
    let range = SelectionRange::new(
        Point::new(Line(0), Column(1)),
        Point::new(Line(0), Column(2)),
        false,
    );
    for col in 0..4 {
        let inside = range.contains(Point::new(Line(0), Column(col)));
        assert_eq!(inside, col == 1 || col == 2);
    }
}

#[test]
fn inverse_cells_swap_their_colors() {
    let s = Scheme::campbell();
    let cells = vec![cell(0, 0, 'x', Flags::INVERSE)];
    let b = batch_cells(&cells, 0, None, &Colors::default(), &s);
    assert_eq!(b.runs[0].fg, s.bg);
    assert_eq!(b.grounds[0].color, s.fg);
}

#[test]
fn rows_scrolled_away_are_not_drawn() {
    let s = Scheme::campbell();
    let cells = vec![cell(-3, 0, 'x', Flags::empty()), cell(2, 0, 'y', Flags::empty())];
    let b = batch_cells(&cells, 3, None, &Colors::default(), &s);
    let rows: Vec<usize> = b.runs.iter().map(|r| r.row).collect();
    assert_eq!(rows, vec![0, 5]);
    let b = batch_cells(&cells, 0, None, &Colors::default(), &s);
    assert_eq!(b.runs.len(), 1);
}

#[test]
fn lines_and_blocks_are_drawn_by_hand() {
    assert!(is_decor('\u{2500}') && is_decor('\u{2588}') && is_decor('\u{2591}'));
    assert!(!is_decor('a'));
    // A full block fills the cell.
    let v = draw_decor('\u{2588}', 8 * DIP, 16 * DIP);
    assert_eq!(v.len(), 1);
    assert_eq!(v[0].0, RectF { x: 0, y: 0, w: 8 * DIP, h: 16 * DIP });
    assert_eq!(v[0].1, 1000);
    // The lower half and the upper half meet.
    let lower = draw_decor('\u{2584}', 8 * DIP, 16 * DIP);
    let upper = draw_decor('\u{2580}', 8 * DIP, 16 * DIP);
    assert_eq!(upper[0].0.y + upper[0].0.h, lower[0].0.y);
    // Shades are see-through.
    assert!(draw_decor('\u{2591}', 8 * DIP, 16 * DIP)[0].1 < 1000);
}

#[test]
fn the_grid_is_drawn_with_its_cursor() {
    let s = Scheme::campbell();
    let content = Content {
        cells: row("hi"),
        selection: None,
        cursor: TextCursor { shape: CursorShape::Block, line: 0, col: 1, c: 'i', flags: 0 },
        colors: Colors::default(),
        screen: Screen {
            mode: 0,
            offset: 0,
            cols: 80,
            rows: 24,
            history: 0,
            cursor_row: 0,
            selected: false,
        },
    };
    let area = RectF { x: 0, y: 0, w: 640 * DIP, h: 384 * DIP };
    let size = CellSize { w: 8 * DIP, h: 16 * DIP };
    let v = draw_term(&content, &area, size, 96, true, &s);
    // The ground comes first, the text, then the cursor and what it covers.
    assert!(matches!(&v[0], Mark::Fill(r, p) if *r == area && p.color == s.bg));
    assert_eq!(texts(&v), vec!["hi", "i"]);
    assert!(v.iter().any(|m| matches!(m, Mark::Fill(_, p) if p.color == s.cursor)));
    // Without the focus only its outline is drawn.
    let v = draw_term(&content, &area, size, 96, false, &s);
    assert_eq!(texts(&v), vec!["hi"]);
}

#[test]
fn coordinates_are_snapped_to_pixels() {
    assert_eq!(snap(1000, 96), DIP);
    assert_eq!(snap(500, 96), 0);
    assert_eq!(snap(500, 192), 512);
    assert_eq!(snap(-1000, 96), -DIP);
}

#[test]
fn a_window_is_drawn_from_back_to_front() {
    let mut w = window(2);
    let v = w.draw_frame(&look(&["one", "two"]));
    assert!(matches!(&v[0], Mark::Fill(r, _) if *r == RectF { x: 0, y: 0, w: 1180 * DIP, h: 760 * DIP }));
    let t = texts(&v);
    assert!(t.contains(&"one".to_string()) && t.contains(&"two".to_string()));
    assert!(v.iter().any(|m| matches!(m, Mark::Grid { pane: 2, focused: true, .. })));
    assert!(!v.iter().any(|m| matches!(m, Mark::Grid { pane: 1, .. })));
    w.split(Dir::Row, term(3));
    let v = w.draw_frame(&look(&["one", "two"]));
    let t = texts(&v);
    // Both panes have title bars now, and the one without the focus is dimmed.
    assert!(t.contains(&"shell 2".to_string()) && t.contains(&"shell 3".to_string()));
    assert!(v.iter().any(|m| matches!(m, Mark::Fill(_, p) if p.alpha == 250 && p.color == rgb(0, 0, 0))));
    assert!(v.iter().any(|m| matches!(m, Mark::Frame(_, 1536, _))));
    let mut bright = look(&["one", "two"]);
    bright.dim = 0;
    let v = w.draw_frame(&bright);
    assert!(!v.iter().any(|m| matches!(m, Mark::Fill(_, p) if p.color == rgb(0, 0, 0))));
    let mut dark = look(&["one", "two"]);
    dark.dim = 1000;
    let v = w.draw_frame(&dark);
    assert!(v.iter().any(|m| matches!(m, Mark::Fill(_, p) if p.alpha == 800)));
}

#[test]
fn an_empty_window_shows_its_bar() {
    let v = window(0).draw_frame(&look(&[]));
    assert!(!v.iter().any(|m| matches!(m, Mark::Grid { .. })));
    assert!(v.len() > 1);
}

#[test]
fn a_dragged_pane_shows_where_it_would_land() {
    let mut w = window(1);
    w.split(Dir::Row, term(2));
    let b = w.layout().unwrap().rect_of(1).unwrap();
    let cur = (b.x + b.w / 2, b.y + b.h / 2);
    w.drag = Drag::Pane { id: 2, press: (0, 0), cur, live: true };
    let v = w.draw_frame(&look(&["one"]));
    assert!(v.iter().any(|m| matches!(m, Mark::Frame(r, k, _) if *r == b && *k == 3 * DIP)));
    assert_eq!(texts(&v).iter().filter(|t| *t == "shell 2").count(), 2);
}

#[test]
fn overlays_are_on_top() {
    let mut w = window(1);
    w.show_toast("hello".to_string());
    w.toggle_cheatsheet();
    w.open_search(Some("ab".to_string()));
    let t = texts(&w.draw_frame(&look(&["one"])));
    assert_eq!(t.last().map(String::as_str), Some("hello"));
    assert!(t.contains(&"Keyboard shortcuts".to_string()));
    assert!(t.contains(&"press any key to dismiss".to_string()));
    assert!(t.contains(&"ab\u{2595}".to_string()));
    let mut w = window(1);
    w.open_palette(baduhan::command_palette::items(&[], &[]));
    let t = texts(&w.draw_frame(&look(&["one"])));
    assert!(t.contains(&"\u{276f} \u{2595}".to_string()));
    let mut w = window(1);
    w.show_hints(&[("https://x.io/a".to_string(), (0..20).collect())]);
    let t = texts(&w.draw_frame(&look(&["one"])));
    assert_eq!(t.last().map(String::as_str), Some("a"));
}
