use baduhan::browser_pane::BrowserPane;
use baduhan::config::{Config, Profile};
use baduhan::ctl::CtlReq;
use baduhan::dragdrop::{DropOp, EFFECT_COPY, EFFECT_LINK, EFFECT_MOVE, EFFECT_NONE};
use baduhan::pane_tree::{collect_leaves, Dir, PaneId, DIP};
use baduhan::restore::{restore_tab, restored_profile, restored_url, save_tab};
use baduhan::session::{saved_panes, LeafState, PaneType};
use baduhan::tabs::{CellSize, Pane, PaneKind, Tab};
use baduhan::term_pane::{ShellFlavor, TermPane};
use baduhan::window::{Act, Frame, Job, PixelPoint, Settings, TermWindow};

fn term(id: PaneId) -> Pane {
    let command = vec!["cmd.exe".to_string()];
    let t = TermPane::new(format!("shell {id}"), &command, 80, 24);
    Pane { id, kind: PaneKind::Term(t) }
}

fn page(id: PaneId, url: &str) -> Pane {
    Pane { id, kind: PaneKind::Browser(BrowserPane::new(url)) }
}

fn empty() -> TermWindow {
    TermWindow::new(
        Frame { width: 1180, height: 760, dpi: 96, custom: true },
        CellSize { w: 8 * DIP, h: 16 * DIP },
        Settings { font_size: 13000, profiles: 2 },
    )
}

fn window(tabs: u64) -> TermWindow {
    let mut w = empty();
    for i in 1..=tabs {
        w.tab_opened(term(i));
    }
    w.take_work();
    w
}

fn acts(w: &mut TermWindow) -> Vec<Act> {
    w.take_work()
        .into_iter()
        .filter_map(|j| match j {
            Job::Act(a) => Some(a),
            _ => None,
        })
        .collect()
}

fn titles(w: &TermWindow) -> Vec<String> {
    w.tabs.iter().map(|t| t.title()).collect()
}

#[test]
fn a_new_tab_is_shown() {
    let mut w = empty();
    assert_eq!(w.title(), None);
    w.new_tab();
    assert_eq!(acts(&mut w), vec![Act::NewTab(None)]);
    w.tab_opened(term(1));
    assert_eq!(w.tabs.len(), 1);
    assert_eq!(w.title().as_deref(), Some("shell 1"));
    assert_eq!(
        acts(&mut w),
        vec![Act::Relayout, Act::Title, Act::FocusWindow, Act::Invalidate]
    );
    assert_eq!(w.focus_pane, Some(1));
}

#[test]
fn a_tab_with_an_unknown_profile_is_not_opened() {
    let mut w = window(1);
    w.new_tab_with_profile(1);
    w.new_tab_with_profile(2);
    assert_eq!(acts(&mut w), vec![Act::NewTab(Some(1))]);
}

#[test]
fn splitting_puts_a_pane_beside_the_active_one() {
    let mut w = window(1);
    w.split(Dir::Row, term(2));
    assert_eq!(collect_leaves(&w.tabs[0].root), vec![1, 2]);
    assert_eq!(w.tabs[0].active, 2);
    assert!(w.is_multi());
    w.split(Dir::Col, page(3, "example.com"));
    assert_eq!(collect_leaves(&w.tabs[0].root), vec![1, 2, 3]);
    assert!(acts(&mut w).contains(&Act::FocusUrl(3)));
}

#[test]
fn closing_the_last_pane_closes_the_tab_after_the_session_is_saved() {
    let mut w = window(2);
    w.split(Dir::Row, term(3));
    w.take_work();
    w.close_active_pane();
    assert_eq!(collect_leaves(&w.tabs[1].root), vec![2]);
    assert!(acts(&mut w).contains(&Act::Discard(3)));
    w.close_active_pane();
    assert_eq!(acts(&mut w), vec![Act::SaveSession, Act::CloseTab(1)]);
    w.drop_tab(1);
    assert_eq!(titles(&w), vec!["shell 1"]);
    assert_eq!(w.active, 0);
    w.drop_tab(0);
    assert!(acts(&mut w).contains(&Act::Destroy));
}

#[test]
fn a_shell_that_ends_takes_its_pane_along() {
    let mut w = window(2);
    w.switch_tab(0);
    w.split(Dir::Row, term(7));
    w.switch_tab(1);
    w.take_work();
    w.close_pane_by_id(7);
    assert_eq!(collect_leaves(&w.tabs[0].root), vec![1]);
    assert_eq!(w.active, 1);
    w.close_pane_by_id(99);
    assert_eq!(w.tabs.len(), 2);
}

#[test]
fn tabs_move_round_and_back() {
    let mut w = window(3);
    assert_eq!(w.active, 2);
    w.move_tab(false);
    assert_eq!(titles(&w), vec!["shell 3", "shell 1", "shell 2"]);
    assert_eq!(w.active, 0);
    w.move_tab(true);
    assert_eq!(titles(&w), vec!["shell 1", "shell 2", "shell 3"]);
    assert_eq!(w.active, 2);
}

#[test]
fn zooming_twice_changes_nothing() {
    let mut w = window(1);
    w.split(Dir::Row, term(2));
    w.zoom_toggle();
    assert_eq!(w.tabs[0].zoomed, Some(2));
    assert!(!w.is_multi());
    assert_eq!(w.layout().unwrap().panes.len(), 1);
    w.zoom_toggle();
    assert_eq!(w.tabs[0].zoomed, None);
}

#[test]
fn focus_moves_to_the_neighbor() {
    let mut w = window(1);
    w.split(Dir::Row, term(2));
    w.focus_dir(-1, 0);
    assert_eq!(w.tabs[0].active, 1);
    w.focus_dir(-1, 0);
    assert_eq!(w.tabs[0].active, 1);
    w.focus_dir(1, 0);
    assert_eq!(w.tabs[0].active, 2);
}

#[test]
fn fonts_of_a_tab_are_its_own() {
    let mut w = window(1);
    w.set_font_size(99000);
    assert_eq!(w.tabs[0].font_size, 32000);
    assert!(acts(&mut w).contains(&Act::BuildFonts { tab: 0, size: 32000 }));
    w.fonts_built(0, CellSize { w: 20 * DIP, h: 40 * DIP });
    assert_eq!(w.cell_size(), CellSize { w: 20 * DIP, h: 40 * DIP });
    w.bump_font(-99000);
    assert_eq!(w.tabs[0].font_size, 7000);
    w.set_font_size(13000);
    assert_eq!(w.tabs[0].cell, None);
    assert_eq!(w.cell_size(), CellSize { w: 8 * DIP, h: 16 * DIP });
}

#[test]
fn a_pane_becomes_a_tab() {
    let mut w = window(1);
    w.pane_to_new_tab(1);
    assert_eq!(w.tabs.len(), 1);
    w.split(Dir::Row, term(2));
    w.pane_to_new_tab(2);
    assert_eq!(w.tabs.len(), 2);
    assert_eq!(w.active, 1);
    assert_eq!(titles(&w), vec!["shell 1", "shell 2"]);
}

#[test]
fn a_tab_goes_to_another_window() {
    let mut w = window(2);
    w.detach_tab(0, Some(PixelPoint { x: 5, y: 6 }));
    assert_eq!(acts(&mut w), vec![Act::TearOut { tab: 0, at: Some(PixelPoint { x: 5, y: 6 }) }]);
    let tab = w.take_tab(0);
    let mut other = window(2);
    other.adopt_tab(tab, Some(1));
    assert_eq!(other.tabs.len(), 3);
    assert_eq!(other.active, 1);
    // The only tab stays where it is.
    w.detach_tab(0, None);
    assert!(!acts(&mut w).iter().any(|a| matches!(a, Act::TearOut { .. })));
}

#[test]
fn a_request_opens_a_page_beside_its_pane() {
    let mut w = window(1);
    let req = CtlReq { pane: 1, verb: "browse".to_string(), arg: "a.b".to_string() };
    assert!(w.handle_ctl(&req));
    let jobs = w.take_work();
    assert!(jobs.iter().any(|j| matches!(j, Job::Browse(1, u) if u == "https://a.b")));
    let req = CtlReq { pane: 9, verb: "browse".to_string(), arg: "a.b".to_string() };
    assert!(!w.handle_ctl(&req));
    w.browse_beside(1, page(2, "a.b"));
    assert_eq!(collect_leaves(&w.tabs[0].root), vec![1, 2]);
    // The shell keeps the focus.
    assert_eq!(w.tabs[0].active, 1);
    // Now the page is there: it is reused.
    let req = CtlReq { pane: 1, verb: "browse".to_string(), arg: "c.d".to_string() };
    assert!(w.handle_ctl(&req));
    let jobs = w.take_work();
    assert!(jobs.iter().any(|j| matches!(j, Job::Navigate(2, u) if u == "c.d")));
    assert_eq!(w.navigate(2, "c.d"), Some(("https://c.d".to_string(), false)));
    assert_eq!(w.navigate(1, "c.d"), None);
}

#[test]
fn an_announcement_is_taken_away_after_a_while() {
    let mut w = window(1);
    w.show_toast("hello".to_string());
    assert_eq!(w.toast.as_deref(), Some("hello"));
    assert_eq!(acts(&mut w), vec![Act::ToastTimer, Act::Invalidate]);
}

fn leaf(profile: Option<&str>, cwd: Option<&str>) -> LeafState {
    LeafState {
        kind: PaneType::Term,
        profile: profile.map(String::from),
        cwd: cwd.map(String::from),
        url: None,
    }
}

fn config() -> Config {
    Config {
        font_family: String::new(),
        font_size: 13000,
        dim_inactive_panes: 0,
        scrollback_lines: 0,
        browser_debug_port: 0,
        default_profile: "Ubuntu".to_string(),
        profiles: vec![
            Profile { name: "cmd".to_string(), command: vec!["cmd.exe".to_string()], cwd: None },
            Profile {
                name: "Ubuntu".to_string(),
                command: ["wsl.exe", "-d", "Ubuntu", "--cd", "~", "-e"].map(String::from).into(),
                cwd: None,
            },
        ],
        quake_hotkey: String::new(),
        restore_session: true,
        theme: None,
        alt_passthrough: Vec::new(),
    }
}

#[test]
fn a_restored_shell_starts_where_it_was() {
    let c = config();
    let p = restored_profile(&c, &leaf(Some("cmd"), Some("C:\\x"))).unwrap();
    assert_eq!(p.name, "cmd");
    assert_eq!(p.cwd.as_deref(), Some("C:\\x"));
    // The default profile takes over for one that is gone; its own `--cd`
    // would override the directory.
    let p = restored_profile(&c, &leaf(Some("gone"), Some("\\\\wsl$\\Ubuntu\\x"))).unwrap();
    assert_eq!(p.command, vec!["wsl.exe", "-d", "Ubuntu", "-e"]);
    // Without a directory the command stays.
    let p = restored_profile(&c, &leaf(None, None)).unwrap();
    assert_eq!(p.command.len(), 6);
    let mut none = config();
    none.profiles.clear();
    assert!(restored_profile(&none, &leaf(None, None)).is_none());
    assert_eq!(restored_url(&leaf(None, None)), "about:blank");
}

#[test]
fn a_saved_tab_comes_back() {
    let mut w = window(1);
    w.split(Dir::Row, term(2));
    w.split(Dir::Col, page(3, "https://a.b"));
    w.activate(2);
    let dirs = vec![(1, "C:\\one".to_string()), (2, "C:\\two".to_string())];
    let s = save_tab(&w.tabs[0], &dirs);
    assert_eq!(s.font_size, 13000);
    assert_eq!(s.active_leaf, 1);
    let leaves = saved_panes(&s.tree);
    assert_eq!(leaves[0].profile.as_deref(), Some("shell 1"));
    assert_eq!(leaves[0].cwd.as_deref(), Some("C:\\one"));
    assert_eq!(leaves[2].kind, PaneType::Browser);
    assert_eq!(leaves[2].url.as_deref(), Some("https://a.b"));
    let t = restore_tab(&s, vec![Some(term(11)), Some(term(12)), Some(page(13, "x.y"))]).unwrap();
    assert_eq!(collect_leaves(&t.root), vec![11, 12, 13]);
    assert_eq!(t.active, 12);
    // A pane that cannot be started is left out.
    let t = restore_tab(&s, vec![None, Some(term(12)), None]).unwrap();
    assert_eq!(collect_leaves(&t.root), vec![12]);
    assert_eq!(t.active, 12);
    assert!(restore_tab(&s, vec![None, None, None]).is_none());
}

#[test]
fn a_window_is_saved_with_its_frame() {
    assert!(empty().snapshot(0, 0, 1, 1, &Vec::new()).is_none());
    let w = window(2);
    let s = w.snapshot(10, 20, 110, 220, &Vec::new()).unwrap();
    assert_eq!((s.x, s.y, s.w, s.h, s.active), (10, 20, 100, 200, 1));
    assert_eq!(s.tabs.len(), 2);
}

#[test]
fn restored_tabs_are_taken_in() {
    let mut w = empty();
    let mut big = Tab::single(term(2), 20000);
    big.font_size = 20000;
    w.restore_tabs(vec![Tab::single(term(1), 13000), big, Tab::single(term(3), 13010)], 1);
    assert_eq!(w.active, 1);
    let a = acts(&mut w);
    assert_eq!(a[0], Act::BuildFonts { tab: 1, size: 20000 });
    assert_eq!(a.iter().filter(|a| matches!(a, Act::BuildFonts { .. })).count(), 1);
    let mut w = empty();
    w.restore_tabs(vec![Tab::single(term(1), 13000)], 7);
    assert_eq!(w.active, 0);
    let mut w = empty();
    w.restore_tabs(Vec::new(), 0);
    assert_eq!(acts(&mut w), vec![Act::NewTab(None)]);
}

#[test]
fn dropped_files_go_to_the_pane_under_the_pointer() {
    let mut w = window(1);
    w.split(Dir::Row, page(2, "a.b"));
    w.take_work();
    let file = || vec!["C:\\a b.txt".to_string()];
    let dir = || Some("C:\\work".to_string());
    assert_eq!(w.drop_effect_at(10, 10, DropOp::Copy, None), EFFECT_NONE);
    assert_eq!(w.drop_effect_at(100, 300, DropOp::Copy, dir()), EFFECT_COPY);
    assert_eq!(w.drop_effect_at(100, 300, DropOp::Move, dir()), EFFECT_MOVE);
    assert_eq!(w.drop_effect_at(100, 300, DropOp::PastePath, dir()), EFFECT_LINK);
    assert_eq!(w.drop_effect_at(1000, 300, DropOp::Move, None), EFFECT_COPY);
    // Without a directory the path is typed, whatever is asked for.
    assert_eq!(w.drop_effect_at(100, 300, DropOp::Copy, None), EFFECT_LINK);
    w.do_drop(file(), DropOp::PastePath, 100, 300, None);
    assert_eq!(w.tabs[0].active, 1);
    let jobs = w.take_work();
    assert!(jobs.iter().any(|j| matches!(j, Job::Write(1, b) if b == b"\"C:\\a b.txt\" ")));
    w.do_drop(file(), DropOp::Move, 100, 300, Some("D:\\to".to_string()));
    let jobs = w.take_work();
    assert!(jobs.iter().any(|j| matches!(j, Job::Transfer { dest, cut: true, paths }
        if dest == "D:\\to" && paths.len() == 1)));
    // Without a directory the path is typed.
    w.do_drop(file(), DropOp::Move, 100, 300, None);
    assert!(w.take_work().iter().any(|j| matches!(j, Job::Write(1, _))));
    w.do_drop(file(), DropOp::Move, 1000, 300, None);
    let jobs = w.take_work();
    assert!(jobs.iter().any(|j| matches!(j, Job::Navigate(2, u) if u == "file:///C:/a b.txt")));
}

#[test]
fn new_settings_make_new_fonts() {
    let mut w = window(2);
    w.fonts_built(1, CellSize { w: DIP, h: DIP });
    let new = CellSize { w: 9 * DIP, h: 18 * DIP };
    let own = CellSize { w: 10 * DIP, h: 20 * DIP };
    let s = Settings { font_size: 14000, profiles: 5 };
    w.apply_config(s, Some(new), &vec![Some(own), Some(own)]);
    assert_eq!(w.cell, new);
    assert_eq!(w.tabs[0].cell, None);
    assert_eq!(w.tabs[1].cell, Some(own));
    assert_eq!(w.settings, s);
    // Fonts that cannot be made leave the default ones, and the tab falls back.
    w.apply_config(s, None, &vec![None, None]);
    assert_eq!(w.cell, new);
    assert_eq!(w.tabs[1].cell, None);
}

#[test]
fn panes_are_fitted_to_the_window() {
    let mut w = window(1);
    w.relayout();
    let a = acts(&mut w);
    // 1180 by 722 below the bar, less the padding, in cells of 8 by 16.
    assert_eq!(a, vec![Act::Resize { pane: 1, cols: 147, rows: 44 }]);
}

#[test]
fn a_wsl_shell_that_reported_its_directory_takes_copies() {
    let mut w = window(1);
    if let PaneKind::Term(t) = &mut w.tabs[0].panes.get_mut(&1).unwrap().kind {
        t.flavor = ShellFlavor::Wsl;
    }
    assert_eq!(w.drop_effect_at(100, 300, DropOp::Copy, None), EFFECT_LINK);
    let dir = "\\\\wsl$\\Ubuntu\\home";
    if let PaneKind::Term(t) = &mut w.tabs[0].panes.get_mut(&1).unwrap().kind {
        t.osc7_cwd = Some(dir.to_string());
    }
    assert_eq!(w.drop_effect_at(100, 300, DropOp::Copy, None), EFFECT_COPY);
    w.take_work();
    w.do_drop(vec!["C:\\a.txt".to_string()], DropOp::Copy, 100, 300, None);
    let jobs = w.take_work();
    assert!(jobs
        .iter()
        .any(|j| matches!(j, Job::Transfer { dest, cut: false, .. } if dest == dir)));
}
