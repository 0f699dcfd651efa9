use baduhan::chrome::{cell_at, tabbar_insert_index, Bar, CellSpot};
use baduhan::command_palette::items;
use baduhan::config::Profile;
use baduhan::ctl::{CtlReq, CTL_MAGIC};
use baduhan::input::{focus_report, lines_of, mouse_report, paste_bytes, take_unit, wheel, Wheel};
use baduhan::keyboard::{VK_OEM_2, VK_OEM_PLUS};
use baduhan::keys::{Mods, VK_ESCAPE, VK_PRIOR, VK_RETURN, VK_TAB, VK_UP};
use baduhan::message::{
    claim_frame, CopyData, Reply, Surroundings, HTCAPTION, HTCLIENT, HTCLOSE, HTTOP, WM_CHAR, WM_CLOSE,
    WM_COPYDATA, WM_DPICHANGED, WM_ERASEBKGND, WM_KEYDOWN, WM_LBUTTONDOWN, WM_LBUTTONUP,
    WM_MBUTTONUP, WM_MOUSEMOVE, WM_NCHITTEST, WM_SIZE, WM_SYSCHAR, WM_TIMER,
};
use baduhan::modes;
use baduhan::pane_tree::{collect_leaves, Dir, PaneId, RectF, DIP, ONE};
use baduhan::scripting::Action;
use baduhan::scrollback::{Match, Origin, Screen, Spot};
use baduhan::tabs::{CellSize, Pane, PaneKind};
use baduhan::term_pane::TermPane;
use baduhan::window::{Act, Drag, Frame, Job, PixelPoint, PixelRect, Settings, TermWindow};

const NONE: Mods = Mods { shift: false, ctrl: false, alt: false, altgr: false };
const SHIFT: Mods = Mods { shift: true, ctrl: false, alt: false, altgr: false };
const CTRL: Mods = Mods { shift: false, ctrl: true, alt: false, altgr: false };
const ALT: Mods = Mods { shift: false, ctrl: false, alt: true, altgr: false };
const CTRL_SHIFT: Mods = Mods { shift: true, ctrl: true, alt: false, altgr: false };
const CTRL_ALT: Mods = Mods { shift: false, ctrl: true, alt: true, altgr: false };

fn term(id: PaneId) -> Pane {
    let command = vec!["cmd.exe".to_string()];
    let t = TermPane::new(format!("shell {id}"), &command, 80, 24);
    Pane { id, kind: PaneKind::Term(t) }
}

fn screen(mode: u32) -> Screen {
    Screen {
        mode,
        offset: 0,
        cols: 147,
        rows: 44,
        history: 100,
        cursor_row: 5,
        selected: false,
    }
}

fn window(tabs: u64) -> TermWindow {
    let mut w = TermWindow::new(
        Frame { width: 1180, height: 760, dpi: 96, custom: true },
        CellSize { w: 8 * DIP, h: 16 * DIP },
        Settings { font_size: 13000, profiles: 2 },
    );
    for i in 1..=tabs {
        w.tab_opened(term(i));
    }
    w.observe((1..=tabs).map(|i| (i, screen(0))).collect());
    w.take_work();
    w
}

fn acts(w: &mut TermWindow) -> Vec<Act> {
    w.take_work()
        .into_iter()
        .filter_map(|j| match j {
            Job::Act(a) => Some(a),
            _ => None,
        })
        .collect()
}

fn written(w: &mut TermWindow) -> Vec<(PaneId, Vec<u8>)> {
    w.take_work()
        .into_iter()
        .filter_map(|j| match j {
            Job::Write(p, b) => Some((p, b)),
            _ => None,
        })
        .collect()
}

fn press(w: &mut TermWindow, vk: u16, m: &Mods) -> bool {
    w.on_key_down(vk, m, &None, &Vec::new(), 0)
}

fn around() -> Surroundings {
    Surroundings {
        mods: NONE,
        mapped: 0,
        bound: None,
        profiles: Vec::new(),
        pointer: PixelPoint { x: 0, y: 0 },
        client: PixelPoint { x: 0, y: 0 },
        elsewhere: None,
        link: None,
        maximized: false,
        border: 8,
        default_hit: HTCLIENT as i64,
        edit_brush: 77,
        copy: None,
        debug: false,
    }
}

fn at(x: u32, y: u32) -> u32 {
    y << 16 | x
}

#[test]
fn shortcuts_ask_for_work() {
    let mut w = window(1);
    for (c, want) in [
        (b'T', Act::NewTab(None)),
        (b'N', Act::NewWindow),
        (b'D', Act::Split(Dir::Row)),
        (b'E', Act::Split(Dir::Col)),
        (b'B', Act::BrowserSplit),
        (b'V', Act::AskClipboard),
        (b'P', Act::AskPalette),
        (b'S', Act::AskNextTheme),
        (b'2', Act::NewTab(Some(1))),
    ] {
        assert!(press(&mut w, c as u16, &CTRL_SHIFT));
        assert_eq!(acts(&mut w), vec![want]);
        assert_eq!(w.suppress_char, c.is_ascii_uppercase());
    }
}

#[test]
fn tabs_are_switched_by_keys() {
    let mut w = window(3);
    press(&mut w, VK_TAB, &CTRL);
    assert_eq!(w.active, 0);
    press(&mut w, VK_TAB, &CTRL_SHIFT);
    assert_eq!(w.active, 2);
    press(&mut w, b'2' as u16, &CTRL);
    assert_eq!(w.active, 1);
    press(&mut w, b'9' as u16, &CTRL);
    assert_eq!(w.active, 2);
    press(&mut w, b'1' as u16, &ALT);
    assert_eq!(w.active, 0);
    assert!(w.suppress_char);
    press(&mut w, b'8' as u16, &CTRL);
    assert_eq!(w.active, 0);
    press(&mut w, VK_OEM_PLUS, &CTRL);
    assert_eq!(w.tabs[0].font_size, 14000);
    press(&mut w, b'0' as u16, &CTRL);
    assert_eq!(w.tabs[0].font_size, 13000);
}

#[test]
fn keys_go_to_the_shell() {
    let mut w = window(1);
    assert!(press(&mut w, VK_UP, &NONE));
    assert_eq!(written(&mut w), vec![(1, b"\x1b[A".to_vec())]);
    w.observe(vec![(1, screen(modes::APP_CURSOR))]);
    press(&mut w, VK_UP, &NONE);
    assert_eq!(written(&mut w), vec![(1, b"\x1bOA".to_vec())]);
    assert!(!press(&mut w, b'A' as u16, &NONE));
    w.on_char(0x61);
    assert_eq!(written(&mut w), vec![(1, b"a".to_vec())]);
    // A character in two halves.
    w.on_char(0xd83d);
    assert!(written(&mut w).is_empty());
    w.on_char(0xde00);
    assert_eq!(written(&mut w), vec![(1, "\u{1f600}".as_bytes().to_vec())]);
    assert!(w.on_alt_char(0x78));
    assert_eq!(written(&mut w), vec![(1, b"\x1bx".to_vec())]);
    assert!(!w.on_alt_char(0x20));
}

#[test]
fn a_scrolled_terminal_shows_its_end_when_typed_to() {
    let mut w = window(1);
    w.observe(vec![(1, Screen { offset: 3, ..screen(0) })]);
    w.on_char(0x61);
    assert_eq!(acts(&mut w), vec![Act::ScrollToBottom(1)]);
}

#[test]
fn the_character_of_a_shortcut_is_not_typed() {
    let mut w = window(1);
    press(&mut w, b'P' as u16, &CTRL_SHIFT);
    w.on_char(0x10);
    assert!(written(&mut w).is_empty());
    w.on_char(0x62);
    assert_eq!(written(&mut w).len(), 1);
}

#[test]
fn the_list_of_shortcuts_goes_with_any_key() {
    let mut w = window(1);
    press(&mut w, VK_OEM_2, &CTRL_SHIFT);
    assert!(w.cheatsheet);
    press(&mut w, 0x10, &SHIFT);
    assert!(w.cheatsheet);
    assert!(press(&mut w, b'T' as u16, &CTRL_SHIFT));
    assert!(!w.cheatsheet);
    assert_eq!(acts(&mut w).last(), Some(&Act::Invalidate));
    assert!(!acts(&mut w).contains(&Act::NewTab(None)));
}

#[test]
fn bindings_of_the_script_come_first() {
    let mut w = window(1);
    let profiles = vec![
        Profile { name: "a".to_string(), command: vec![], cwd: None },
        Profile { name: "b".to_string(), command: vec![], cwd: None },
    ];
    let asked = Some(vec![
        Action::SendText("ls\n".to_string()),
        Action::NewTab(Some("b".to_string())),
        Action::NewTab(Some("zzz".to_string())),
        Action::FontDelta(2000),
        Action::Split(Dir::Col),
    ]);
    assert!(w.on_key_down(b'T' as u16, &CTRL_SHIFT, &asked, &profiles, 0));
    let jobs = w.take_work();
    assert!(matches!(&jobs[0], Job::Write(1, b) if b == b"ls\n"));
    assert!(matches!(jobs[1], Job::Act(Act::NewTab(Some(1)))));
    assert_eq!(w.tabs[0].font_size, 15000);
    assert!(matches!(jobs.last(), Some(Job::Act(Act::Split(Dir::Col)))));
    assert!(w.suppress_char);
}

#[test]
fn the_palette_is_searched_and_run() {
    let mut w = window(1);
    w.open_palette(items(&[], &[]));
    for c in "zoom".chars() {
        w.on_char(c as u16);
    }
    w.split(Dir::Row, term(2));
    w.take_work();
    press(&mut w, VK_RETURN, &NONE);
    assert!(w.palette.is_none());
    assert_eq!(w.tabs[0].zoomed, Some(2));
    w.open_palette(items(&[], &[]));
    press(&mut w, VK_ESCAPE, &NONE);
    assert!(w.palette.is_none());
}

#[test]
fn hints_are_typed_to_the_shell() {
    let mut w = window(1);
    press(&mut w, 0x20, &CTRL_SHIFT);
    assert!(acts(&mut w).contains(&Act::AskRows));
    let row = ("see https://x.io/a and src/window.rs".to_string(), (0..40).collect());
    w.show_hints(&[row]);
    assert_eq!(w.hints.as_ref().unwrap().matches.len(), 2);
    w.take_work();
    w.on_char(b'a' as u16);
    assert_eq!(written(&mut w), vec![(1, b"https://x.io/a".to_vec())]);
    assert!(w.hints.is_none());
}

#[test]
fn a_search_is_typed_and_stepped_through() {
    let mut w = window(1);
    press(&mut w, b'F' as u16, &CTRL_SHIFT);
    assert!(acts(&mut w).contains(&Act::AskSelection));
    w.open_search(Some("a.b".to_string()));
    // A selection is searched for as it stands.
    assert_eq!(w.search.as_ref().unwrap().query, "a\\.b");
    w.take_work();
    w.suppress_char = false;
    w.on_char(b'c' as u16);
    assert_eq!(w.search.as_ref().unwrap().query, "a\\.bc");
    assert!(acts(&mut w).contains(&Act::RefreshSearch));
    w.search_refresh();
    assert!(acts(&mut w).iter().any(|a| matches!(a, Act::Find { .. })));
    let spot = |line: i32| Spot { line, col: 0 };
    w.search_found(Some(Match { start: spot(-50), end: spot(-50) }));
    assert!(acts(&mut w).iter().any(|a| matches!(a, Act::Scroll { pane: 1, .. })));
    press(&mut w, VK_RETURN, &NONE);
    assert!(acts(&mut w).contains(&Act::Find { origin: Origin::Before(spot(-50)), left: true }));
    press(&mut w, VK_RETURN, &SHIFT);
    assert!(acts(&mut w).contains(&Act::Find { origin: Origin::Behind(spot(-50)), left: false }));
    press(&mut w, VK_ESCAPE, &NONE);
    assert!(w.search.is_none());
    w.open_search(Some("(".to_string()));
    w.search_refresh();
    assert!(w.search.as_ref().unwrap().is_ready());
    w.on_char(b'(' as u16);
    w.search_refresh();
    // Not a pattern: nothing is searched for.
    assert!(!w.search.as_ref().unwrap().is_ready());
}

#[test]
fn paging_keys_scroll_back() {
    let mut w = window(1);
    press(&mut w, VK_PRIOR, &SHIFT);
    assert_eq!(acts(&mut w), vec![Act::ScrollPage { pane: 1, up: true }, Act::Invalidate]);
    w.observe(vec![(1, screen(modes::ALT_SCREEN))]);
    press(&mut w, VK_PRIOR, &SHIFT);
    assert_eq!(written(&mut w), vec![(1, b"\x1b[5;2~".to_vec())]);
}

#[test]
fn a_click_selects_text() {
    let mut w = window(1);
    w.on_lbutton_down(100 * DIP, 100 * DIP, &NONE, None);
    let a = acts(&mut w);
    assert!(a.iter().any(|a| matches!(a, Act::Select { pane: 1, words: false, .. })));
    assert!(a.contains(&Act::Capture));
    w.on_mouse_move(200 * DIP, 100 * DIP, true, &NONE);
    assert!(acts(&mut w).iter().any(|a| matches!(a, Act::ExtendSelection { pane: 1, .. })));
    w.on_lbutton_up(200 * DIP, 100 * DIP, &NONE, PixelPoint { x: 0, y: 0 }, None);
    assert!(acts(&mut w).contains(&Act::CopySelection(1)));
    assert!(matches!(w.drag, Drag::Idle));
}

#[test]
fn the_mouse_is_reported_unless_shift_is_down() {
    let mut w = window(1);
    w.observe(vec![(1, screen(modes::MOUSE_REPORT_CLICK | modes::SGR_MOUSE))]);
    // The pane begins below the bar of 38 and has a padding of 2.
    w.on_lbutton_down(11 * DIP, 41 * DIP, &NONE, None);
    assert_eq!(written(&mut w), vec![(1, b"\x1b[<0;2;1M".to_vec())]);
    w.on_lbutton_up(11 * DIP, 41 * DIP, &NONE, PixelPoint { x: 0, y: 0 }, None);
    assert_eq!(written(&mut w), vec![(1, b"\x1b[<0;2;1m".to_vec())]);
    w.on_lbutton_down(11 * DIP, 41 * DIP, &SHIFT, None);
    assert!(written(&mut w).is_empty());
}

#[test]
fn ctrl_and_a_click_open_an_address() {
    let mut w = window(1);
    w.on_lbutton_down(100 * DIP, 100 * DIP, &CTRL, Some("https://x.io".to_string()));
    let jobs = w.take_work();
    assert!(jobs.iter().any(|j| matches!(j, Job::OpenUrl(u) if u == "https://x.io")));
}

#[test]
fn a_divider_is_dragged() {
    let mut w = window(1);
    w.split(Dir::Row, term(2));
    let x = w.layout().unwrap().dividers[0].rect.x;
    w.on_lbutton_down(x, 300 * DIP, &NONE, None);
    assert!(matches!(w.drag, Drag::Divider { .. }));
    w.on_mouse_move(x + 118 * DIP, 300 * DIP, true, &NONE);
    match &w.tabs[0].root {
        baduhan::pane_tree::Node::Split { fracs, .. } => {
            assert!(fracs[0] > ONE / 2 && fracs[0] + fracs[1] == ONE);
        },
        _ => panic!("expected split"),
    }
}

#[test]
fn a_tab_is_dragged_to_another_place() {
    let mut w = window(3);
    let b = w.bar();
    let first = b.tab_rect(0);
    let last = b.tab_rect(2);
    w.on_lbutton_down(first.x + 20 * DIP, 20 * DIP, &NONE, None);
    assert_eq!(w.active, 0);
    // A short way is a click.
    w.on_mouse_move(first.x + 22 * DIP, 20 * DIP, true, &NONE);
    assert!(matches!(w.drag, Drag::Tab { live: false, .. }));
    w.on_mouse_move(last.x + last.w - DIP, 20 * DIP, true, &NONE);
    assert!(matches!(w.drag, Drag::Tab { live: true, .. }));
    w.on_lbutton_up(last.x + last.w - DIP, 20 * DIP, &NONE, PixelPoint { x: 0, y: 0 }, None);
    let t: Vec<String> = w.tabs.iter().map(|t| t.title()).collect();
    assert_eq!(t, vec!["shell 2", "shell 3", "shell 1"]);
    assert_eq!(w.active, 2);
}

#[test]
fn a_pane_is_dragged_beside_another() {
    let mut w = window(1);
    w.split(Dir::Row, term(2));
    w.take_work();
    let lay = w.layout().unwrap();
    let a = lay.rect_of(1).unwrap();
    let b = lay.rect_of(2).unwrap();
    // By the title bar of the first, to the lower edge of the second.
    w.on_lbutton_down(a.x + 100 * DIP, a.y + 5 * DIP, &NONE, None);
    w.on_mouse_move(b.x + b.w / 2, b.y + b.h - 5 * DIP, true, &NONE);
    w.on_lbutton_up(b.x + b.w / 2, b.y + b.h - 5 * DIP, &NONE, PixelPoint { x: 0, y: 0 }, None);
    assert_eq!(collect_leaves(&w.tabs[0].root), vec![2, 1]);
    let lay = w.layout().unwrap();
    assert!(lay.rect_of(1).unwrap().y > lay.rect_of(2).unwrap().y);
}

#[test]
fn the_right_button_copies_or_pastes() {
    let mut w = window(1);
    w.on_rbutton_down(100 * DIP, 100 * DIP, &NONE);
    assert!(acts(&mut w).contains(&Act::AskClipboard));
    w.observe(vec![(1, Screen { selected: true, ..screen(0) })]);
    w.on_rbutton_down(100 * DIP, 100 * DIP, &NONE);
    let a = acts(&mut w);
    assert!(a.contains(&Act::CopySelection(1)) && a.contains(&Act::ClearSelection(1)));
    w.on_rbutton_down(1000 * DIP, 10 * DIP, &NONE);
    assert!(acts(&mut w).iter().any(|a| matches!(a, Act::ProfileMenu { .. })));
}

#[test]
fn the_wheel_scrolls_or_zooms() {
    let mut w = window(1);
    w.on_wheel(100 * DIP, 100 * DIP, 120, &NONE);
    assert!(acts(&mut w).contains(&Act::Scroll { pane: 1, lines: 3 }));
    w.on_wheel(100 * DIP, 100 * DIP, -120, &CTRL);
    assert_eq!(w.tabs[0].font_size, 12000);
}

#[test]
fn pasted_text_has_one_kind_of_line_end() {
    let mut w = window(1);
    w.paste("a\r\nb\nc");
    assert_eq!(written(&mut w), vec![(1, b"a\rb\rc".to_vec())]);
    assert_eq!(
        paste_bytes("x\n", modes::BRACKETED_PASTE),
        b"\x1b[200~x\r\x1b[201~"
    );
}

#[test]
fn focus_is_reported_to_panes() {
    let mut w = window(1);
    w.split(Dir::Row, term(2));
    w.observe(vec![(1, screen(modes::FOCUS_IN_OUT)), (2, screen(modes::FOCUS_IN_OUT))]);
    w.take_work();
    w.activate(1);
    assert_eq!(written(&mut w), vec![(2, b"\x1b[O".to_vec()), (1, b"\x1b[I".to_vec())]);
    assert_eq!(focus_report(0, true), None);
    assert_eq!(focus_report(modes::FOCUS_IN_OUT, false).unwrap(), b"\x1b[O");
}

#[test]
fn mouse_reports_in_the_old_form() {
    let spot = CellSpot { col: 4, row: 2, right: false };
    let click = modes::MOUSE_REPORT_CLICK;
    assert_eq!(
        mouse_report(click, &NONE, spot, 80, 24, 0, true, false).unwrap(),
        [0x1b, b'[', b'M', 32, 37, 35]
    );
    assert_eq!(
        mouse_report(click, &NONE, spot, 80, 24, 0, false, false).unwrap(),
        [0x1b, b'[', b'M', 35, 37, 35]
    );
    assert!(mouse_report(0, &NONE, spot, 80, 24, 0, true, false).is_none());
}

#[test]
fn the_wheel_of_an_application() {
    let spot = CellSpot { col: 0, row: 0, right: false };
    let alt = modes::ALT_SCREEN | modes::ALTERNATE_SCROLL;
    assert!(matches!(wheel(alt, &NONE, spot, 80, 24, 2), Wheel::Send(b) if b == b"\x1b[A\x1b[A"));
    let app = alt | modes::APP_CURSOR;
    assert!(matches!(wheel(app, &NONE, spot, 80, 24, -1), Wheel::Send(b) if b == b"\x1bOB"));
    assert!(matches!(wheel(0, &NONE, spot, 80, 24, -3), Wheel::Scroll(-3)));
    let sgr = modes::MOUSE_REPORT_CLICK | modes::SGR_MOUSE;
    assert!(matches!(wheel(sgr, &NONE, spot, 80, 24, 1), Wheel::Send(b) if b == b"\x1b[<64;1;1M"));
    assert_eq!(lines_of(120), 3);
    assert_eq!(lines_of(-240), -6);
}

#[test]
fn lone_halves_of_characters_are_dropped() {
    let mut pending = None;
    assert_eq!(take_unit(&mut pending, 0xde00), None);
    assert_eq!(take_unit(&mut pending, 0xd83d), None);
    assert_eq!(pending, Some(0xd83d));
    assert_eq!(take_unit(&mut pending, 0xde00), Some('\u{1f600}'));
    assert_eq!(pending, None);
}

#[test]
fn cells_are_found_under_the_pointer() {
    let pane = RectF { x: 0, y: 0, w: 800 * DIP, h: 600 * DIP };
    let cell = CellSize { w: 8 * DIP, h: 16 * DIP };
    let s = cell_at(&pane, 2 * DIP + 8 * DIP * 3 + 5 * DIP, 2 * DIP + 16 * DIP, cell);
    assert_eq!((s.col, s.row, s.right), (3, 1, true));
    let s = cell_at(&pane, 0, 0, cell);
    assert_eq!((s.col, s.row, s.right), (0, 0, false));
}

#[test]
fn a_dropped_tab_goes_between_two_others() {
    let b = Bar { width: 1180 * DIP, tabs: 2, framed: true };
    assert_eq!(tabbar_insert_index(b, 1, 10, 96), Some(0));
    assert_eq!(tabbar_insert_index(b, 1100, 10, 96), Some(2));
    assert_eq!(tabbar_insert_index(b, 1, 100, 96), None);
    assert_eq!(tabbar_insert_index(b, -1, 10, 96), None);
}

#[test]
fn messages_are_answered() {
    let mut w = window(1);
    let env = around();
    assert_eq!(w.message(WM_ERASEBKGND, 0, 0, &env), Reply::Answer(1));
    assert_eq!(w.message(0x9999, 0, 0, &env), Reply::Default);
    assert_eq!(w.message(WM_SIZE, 0, at(800, 600), &env), Reply::Answer(0));
    assert_eq!((w.frame.width, w.frame.height), (800, 600));
    assert!(acts(&mut w).contains(&Act::ResizeTarget { width: 800, height: 600 }));
    w.message(WM_CHAR, 0x61, 0, &env);
    assert_eq!(written(&mut w), vec![(1, b"a".to_vec())]);
    assert_eq!(w.message(WM_SYSCHAR, 0x20, 0, &env), Reply::Default);
    assert_eq!(w.message(WM_DPICHANGED, 192, 0, &env), Reply::Answer(0));
    assert_eq!(w.frame.dpi, 192);
    w.take_work();
    assert_eq!(w.message(WM_TIMER, 0xba2, 0, &env), Reply::Answer(0));
    assert_eq!(acts(&mut w), vec![Act::PollConfig]);
}

#[test]
fn a_key_message_runs_a_shortcut() {
    let mut w = window(1);
    let env = Surroundings { mods: CTRL_SHIFT, ..around() };
    assert_eq!(w.message(WM_KEYDOWN, b'T' as u64, 0, &env), Reply::Answer(0));
    assert_eq!(acts(&mut w), vec![Act::NewTab(None)]);
    // Alt and an arrow move the focus.
    w.split(Dir::Row, term(2));
    assert!(w.on_key_down(0x25, &CTRL_ALT, &None, &Vec::new(), 0));
    assert_eq!(w.tabs[0].active, 1);
}

#[test]
fn the_caption_is_the_tab_bar() {
    let w = window(1);
    let hit = |x: i32, y: i32| {
        w.hit_test(&Surroundings { client: PixelPoint { x, y }, ..around() })
    };
    assert_eq!(hit(600, 2), HTTOP as i64);
    assert_eq!(hit(50, 20), HTCLIENT as i64);
    assert_eq!(hit(700, 20), HTCAPTION as i64);
    assert_eq!(hit(1179, 20), HTCLOSE as i64);
    assert_eq!(hit(600, 300), HTCLIENT as i64);
    let env = Surroundings { client: PixelPoint { x: 600, y: 300 }, ..around() };
    assert_eq!(window(1).message(WM_NCHITTEST, 0, 0, &env), Reply::Answer(HTCLIENT as i64));
}

#[test]
fn the_middle_button_closes_a_tab() {
    let mut w = window(2);
    w.message(WM_MBUTTONUP, 0, at(50, 20), &around());
    assert_eq!(acts(&mut w), vec![Act::SaveSession, Act::CloseTab(0)]);
    w.message(WM_CLOSE, 0, 0, &around());
    assert!(acts(&mut w).contains(&Act::SaveSession));
}

#[test]
fn a_click_through_messages() {
    let mut w = window(1);
    w.message(WM_LBUTTONDOWN, 0, at(100, 100), &around());
    assert!(matches!(w.drag, Drag::Select));
    w.message(WM_MOUSEMOVE, 1, at(150, 100), &around());
    w.message(WM_LBUTTONUP, 0, at(150, 100), &around());
    assert!(matches!(w.drag, Drag::Idle));
}

#[test]
fn data_from_elsewhere_is_ignored() {
    let mut w = window(1);
    let req = || CtlReq { pane: 1, verb: "browse".to_string(), arg: "a.b".to_string() };
    let send = |magic: usize, request: Option<CtlReq>| Surroundings {
        copy: Some(CopyData { magic, has_data: true, request }),
        ..around()
    };
    assert_eq!(w.message(WM_COPYDATA, 0, 0, &send(CTL_MAGIC, Some(req()))), Reply::Answer(1));
    w.take_work();
    assert_eq!(w.message(WM_COPYDATA, 0, 0, &send(5, Some(req()))), Reply::Default);
    assert_eq!(w.message(WM_COPYDATA, 0, 0, &send(CTL_MAGIC, None)), Reply::Answer(0));
    assert!(w.take_work().is_empty());
}

#[test]
fn pasted_text_is_appended_to_a_search() {
    let mut w = window(1);
    w.search_paste("nothing is open");
    assert!(w.search.is_none());
    w.open_search(Some("a".to_string()));
    w.take_work();
    // Only the first line counts.
    w.search_paste("bc\r\nde");
    assert_eq!(w.search.as_ref().unwrap().query, "abc");
    assert!(acts(&mut w).contains(&Act::RefreshSearch));
    w.search_paste("");
    assert_eq!(w.search.as_ref().unwrap().query, "abc");
}

#[test]
fn bindings_rest_while_the_list_is_open() {
    let mut w = window(1);
    assert!(w.takes_bindings());
    w.toggle_cheatsheet();
    assert!(!w.takes_bindings());
    press(&mut w, b'A' as u16, &NONE);
    assert!(w.takes_bindings());
}

#[test]
fn addresses_are_looked_for_in_terminals() {
    let w = window(1);
    // The tab bar holds none.
    assert_eq!(w.link_spot(100 * DIP, 10 * DIP), None);
    let (pane, spot) = w.link_spot(100 * DIP, 100 * DIP).unwrap();
    assert_eq!(pane, 1);
    // Two of padding, and cells of 8 by 16 below a bar of 38.
    assert_eq!((spot.col, spot.row), (12, 3));
}

#[test]
fn the_caption_is_claimed() {
    let rc = PixelRect { left: 100, top: 50, right: 900, bottom: 650 };
    assert_eq!(
        claim_frame(rc, 8, 9, false),
        PixelRect { left: 108, top: 50, right: 892, bottom: 641 }
    );
    // A maximized window hangs over the edge of the screen.
    assert_eq!(
        claim_frame(rc, 8, 9, true),
        PixelRect { left: 108, top: 59, right: 892, bottom: 641 }
    );
}

#[test]
fn every_label_picks_its_hint() {
    let line: String = (0..80).map(|i| format!("/tmp/file{i}.txt ")).collect();
    let cols: Vec<usize> = (0..line.chars().count()).collect();
    let rows = vec![(line, cols)];
    for i in 0..80 {
        let mut w = window(1);
        w.show_hints(&rows);
        let h = w.hints.as_ref().unwrap();
        assert_eq!(h.matches.len(), 80);
        let (label, text) = (h.matches[i].label.clone(), h.matches[i].text.clone());
        w.take_work();
        for c in label.chars() {
            assert!(w.hints.is_some());
            w.hints_char(c);
        }
        assert!(w.hints.is_none());
        assert_eq!(written(&mut w), vec![(1, text.into_bytes())]);
    }
}

#[test]
fn a_divider_without_room_stays() {
    let mut w = window(1);
    for i in 2..=5 {
        w.split(Dir::Row, term(i));
    }
    let d = w.layout().unwrap().dividers.last().unwrap().rect;
    let before = match &w.tabs[0].root {
        baduhan::pane_tree::Node::Split { fracs, .. } => fracs.clone(),
        _ => panic!(),
    };
    w.on_lbutton_down(d.x, 300 * DIP, &NONE, None);
    assert!(matches!(w.drag, Drag::Divider { .. }));
    w.on_mouse_move(d.x + 40 * DIP, 300 * DIP, true, &NONE);
    w.on_lbutton_up(d.x + 40 * DIP, 300 * DIP, &NONE, PixelPoint { x: 0, y: 0 }, None);
    assert!(matches!(w.drag, Drag::Idle));
    match &w.tabs[0].root {
        baduhan::pane_tree::Node::Split { fracs, .. } => assert_eq!(*fracs, before),
        _ => panic!(),
    }
}

#[test]
fn a_drag_of_a_tab_that_is_gone_does_nothing() {
    let mut w = window(1);
    w.drag = Drag::Tab { idx: 7, press: (0, 0), cur: (0, 0), live: true };
    w.on_mouse_move(50 * DIP, 10 * DIP, true, &NONE);
    w.on_lbutton_up(50 * DIP, 10 * DIP, &NONE, PixelPoint { x: 0, y: 0 }, None);
    assert_eq!(w.tabs.len(), 1);
    assert!(matches!(w.drag, Drag::Idle));
}
