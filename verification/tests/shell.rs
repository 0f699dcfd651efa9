use baduhan::ctl::{clamp_font, emit_inline, parse, parse_pane, request, theme_is_json, Command};
use baduhan::dragdrop::{drop_effect, quote_path, DropOn, DropOp, EFFECT_LINK, EFFECT_MOVE};
use baduhan::images::{b64_encode, Seg};
use baduhan::links::{link_in_row, LinkCell};
use baduhan::palette::Scheme;
use baduhan::pane_tree::{RectF, DIP};
use baduhan::pty::{launch, path_length_ok, tidy_cwd};
use baduhan::scrollback::{
    prompt_target, regex_escape, scroll_into_view, spot_at, visible_images, Screen,
};
use baduhan::chrome::CellSpot;
use baduhan::tabs::CellSize;
use baduhan::term_pane::{
    ctl_env, percent_decode, scan_osc7, EventEffect, ShellFlavor, TermEvent, TermPane,
};

fn words(v: &[&str]) -> Vec<String> {
    v.iter().map(|s| s.to_string()).collect()
}

fn screen() -> Screen {
    Screen {
        mode: 0,
        offset: 0,
        cols: 80,
        rows: 24,
        history: 1000,
        cursor_row: 10,
        selected: false,
    }
}

fn pane() -> TermPane {
    TermPane::new("bash".to_string(), &words(&["C:\\Git\\bin\\bash.exe"]), 80, 24)
}

#[test]
fn command_lines_are_read() {
    let read = |v: &[&str]| parse(&words(v));
    assert!(matches!(read(&["open", "a.b"]), Command::Send { verb, arg }
        if verb == "browse" && arg == "a.b"));
    assert!(matches!(read(&["reload"]), Command::Send { verb, arg }
        if verb == "reload" && arg.is_empty()));
    assert!(matches!(read(&["browse"]), Command::Usage));
    assert!(matches!(read(&["imgcat"]), Command::ViewStdin));
    assert!(matches!(read(&["view", "-"]), Command::ViewStdin));
    assert!(matches!(read(&["view", "a", "b"]), Command::ViewFiles(f) if f.len() == 2));
    assert!(matches!(read(&["font", "Cascadia", "Mono"]), Command::Font(f)
        if f == "Cascadia Mono"));
    assert!(matches!(read(&["font"]), Command::Usage));
    assert!(matches!(read(&["fontsize", "14"]), Command::FontSize(s) if s == "14"));
    assert!(matches!(read(&["theme", "x.json"]), Command::Theme(f) if f == "x.json"));
    assert!(matches!(read(&["cdp"]), Command::Cdp));
    assert!(matches!(read(&["fly"]), Command::Usage));
    assert!(matches!(read(&[]), Command::Usage));
}

#[test]
fn requests_name_the_pane_they_come_from() {
    let r = request("browse".to_string(), "a.b".to_string(), Some("17")).unwrap();
    assert_eq!((r.pane, r.verb.as_str(), r.arg.as_str()), (17, "browse", "a.b"));
    assert!(request("browse".to_string(), String::new(), None).is_none());
    assert_eq!(parse_pane("17"), Some(17));
    assert_eq!(parse_pane("x"), None);
    assert_eq!(parse_pane("18446744073709551616"), None);
    assert_eq!(clamp_font(1), 7000);
    assert_eq!(clamp_font(13500), 13500);
    assert_eq!(clamp_font(99000), 32000);
}

#[test]
fn themes_are_json_or_property_lists() {
    assert!(theme_is_json("  {\"name\": \"x\"}"));
    assert!(!theme_is_json("<?xml version=\"1.0\"?>"));
}

#[test]
fn images_are_sent_inline() {
    assert!(emit_inline(b"").is_none());
    let s = emit_inline(b"hello").unwrap();
    let text = String::from_utf8(s).unwrap();
    assert!(text.starts_with("\u{1b}]1337;File="));
    assert!(text.contains(&b64_encode(b"hello")));
    let segs = pane().split_output(text.as_bytes());
    assert!(segs.iter().any(|s| matches!(s, Seg::Unsized(d) if d == b"hello")));
}

#[test]
fn paths_are_quoted_for_the_shell() {
    assert_eq!(quote_path("C:\\a b", ShellFlavor::Windows), "\"C:\\a b\"");
    assert_eq!(quote_path("C:\\a b", ShellFlavor::Posix), "'C:/a b'");
    assert_eq!(quote_path("C:\\it's", ShellFlavor::Posix), "'C:/it'\\''s'");
    assert_eq!(quote_path("C:\\a b", ShellFlavor::Wsl), "'/mnt/c/a b'");
    let wsl = |known: bool| DropOn::Shell { flavor: ShellFlavor::Wsl, known };
    assert_eq!(drop_effect(&wsl(false), DropOp::Move), EFFECT_LINK);
    assert_eq!(drop_effect(&wsl(true), DropOp::Move), EFFECT_MOVE);
    assert_eq!(DropOp::from_keys(0x4), DropOp::Move);
    assert_eq!(DropOp::from_keys(0x8), DropOp::Copy);
    assert_eq!(DropOp::from_keys(0xc), DropOp::Move);
    assert_eq!(DropOp::from_keys(0), DropOp::PastePath);
}

#[test]
fn shells_are_told_apart() {
    assert_eq!(ShellFlavor::of(&words(&["C:\\W\\wsl.exe"])), ShellFlavor::Wsl);
    assert_eq!(ShellFlavor::of(&words(&["C:\\Git\\bin\\BASH.exe"])), ShellFlavor::Posix);
    assert_eq!(ShellFlavor::of(&words(&["pwsh.exe"])), ShellFlavor::Windows);
    assert_eq!(ShellFlavor::of(&[]), ShellFlavor::Windows);
}

#[test]
fn shells_are_started_as_terminals() {
    let extra = vec![("A".to_string(), "b".to_string())];
    let l = launch(&words(&["a.exe", "-x"]), None, Some("H".to_string()), extra).unwrap();
    assert_eq!(l.program, "a.exe");
    assert_eq!(l.args, vec!["-x"]);
    assert_eq!(l.cwd.as_deref(), Some("H"));
    assert_eq!(l.env[0], ("TERM".to_string(), "xterm-256color".to_string()));
    assert_eq!(l.env[2], ("A".to_string(), "b".to_string()));
    assert!(launch(&Vec::new(), None, None, Vec::new()).is_none());
}

#[test]
fn directories_of_processes_are_tidied() {
    assert_eq!(tidy_cwd("C:\\x\\"), "C:\\x");
    assert_eq!(tidy_cwd("C:\\"), "C:\\");
    assert!(!path_length_ok(0));
    assert!(path_length_ok(20));
}

#[test]
fn bytes_that_are_no_text_are_replaced() {
    assert_eq!(percent_decode("a%20b%zz%"), "a b%zz%");
    assert_eq!(percent_decode("%c3%a4"), "\u{e4}");
    assert_eq!(percent_decode("x%ffy"), "x\u{fffd}y");
    assert_eq!(scan_osc7(b"\x1b]7;a\xffb\x07").as_deref(), Some("a\u{fffd}b"));
}

#[test]
fn variables_reach_wsl() {
    let env = ctl_env(7, "C:\\b.exe".to_string(), "FOO/u".to_string(), 9333);
    let get = |k: &str| env.iter().find(|(n, _)| n == k).map(|(_, v)| v.as_str());
    assert_eq!(get("BADUHAN_PANE"), Some("7"));
    assert_eq!(get("BADUHAN_EXE"), Some("C:\\b.exe"));
    assert_eq!(get("BADUHAN_CDP"), Some("http://127.0.0.1:9333"));
    let wslenv = get("WSLENV").unwrap();
    assert!(wslenv.starts_with("FOO/u"));
    assert!(wslenv.contains("BADUHAN_PANE"));
    let env = ctl_env(7, "C:\\b.exe".to_string(), String::new(), 0);
    assert!(!env.iter().any(|(n, _)| n == "BADUHAN_CDP"));
}

#[test]
fn output_moves_the_line_clock_and_marks_prompts() {
    let mut p = pane();
    let chunk = b"\x1b]133;A\x07$ ls\na\nb\n\x1b]133;A\x07$ \x1b]7;file:///C:/x\x07";
    let segs = p.split_output(chunk);
    let none = vec![None; segs.len()];
    let ids = vec![0; segs.len()];
    let sent = p.absorb(segs, &none, &ids);
    assert_eq!(sent, chunk);
    assert_eq!(p.lines_seen, 3);
    assert_eq!(p.marks.iter().copied().collect::<Vec<u64>>(), vec![0, 3]);
    assert_eq!(p.cwd(None).as_deref(), Some("C:\\x"));
    assert!(!p.wants_process_cwd());
}

#[test]
fn a_shell_that_reports_nothing_is_asked_through_its_process() {
    let p = TermPane::new("cmd".to_string(), &words(&["cmd.exe"]), 80, 24);
    assert!(p.wants_process_cwd());
    assert_eq!(p.cwd(Some("D:\\y".to_string())).as_deref(), Some("D:\\y"));
    assert_eq!(pane().cwd(Some("D:\\y".to_string())), None);
}

#[test]
fn events_of_the_emulator() {
    let s = Scheme::campbell();
    let mut p = pane();
    assert!(matches!(p.on_event(TermEvent::Wakeup, &s), EventEffect::PostDirty));
    assert!(matches!(p.on_event(TermEvent::Wakeup, &s), EventEffect::Nothing));
    assert_eq!(p.title(), "bash");
    assert!(matches!(p.on_event(TermEvent::Title("vim".to_string()), &s), EventEffect::PostEvent));
    assert_eq!(p.title(), "vim");
    p.on_event(TermEvent::ResetTitle, &s);
    assert_eq!(p.title(), "bash");
    assert!(matches!(p.on_event(TermEvent::ColorRequest(257), &s),
        EventEffect::AnswerColor(c) if c == s.bg));
    // What runs in the terminal never reads the clipboard.
    assert!(matches!(p.on_event(TermEvent::ClipboardLoad, &s),
        EventEffect::AnswerEmptyClipboard));
    assert!(matches!(p.on_event(TermEvent::ClipboardStore("x".to_string()), &s),
        EventEffect::SetClipboard(t) if t == "x"));
}

#[test]
fn addresses_are_found_in_a_row() {
    let row: Vec<LinkCell> = "see https://x.io/a, ok"
        .chars()
        .map(|c| LinkCell { c, spacer: false, link: None })
        .collect();
    assert_eq!(link_in_row(&row, 6).as_deref(), Some("https://x.io/a"));
    assert_eq!(link_in_row(&row, 0), None);
    let mut tagged = row;
    tagged[0].link = Some("https://tag".to_string());
    assert_eq!(link_in_row(&tagged, 0).as_deref(), Some("https://tag"));
    assert_eq!(link_in_row(&tagged, 999), None);
}

#[test]
fn patterns_are_escaped() {
    assert_eq!(regex_escape("a.b*(c)"), "a\\.b\\*\\(c\\)");
    assert_eq!(regex_escape("plain"), "plain");
}

#[test]
fn prompts_are_jumped_to() {
    let marks = std::collections::VecDeque::from(vec![10, 50, 90]);
    let s = screen();
    // The clock is at 100, with the cursor in row 10: the top row is 90.
    let up = prompt_target(&marks, 100, &s, true).unwrap();
    assert!(up > 0);
    assert_eq!(prompt_target(&marks, 100, &s, false), None);
    assert_eq!(prompt_target(&std::collections::VecDeque::new(), 100, &s, true), None);
}

#[test]
fn a_match_is_scrolled_into_view() {
    let s = screen();
    assert_eq!(scroll_into_view(5, &s), 0);
    let by = scroll_into_view(-100, &s);
    assert!(by >= 100);
    let spot = spot_at(CellSpot { col: 999, row: 999, right: false }, &s);
    assert_eq!((spot.line, spot.col), (23, 79));
    let up = Screen { offset: 5, ..s };
    assert_eq!(spot_at(CellSpot { col: 0, row: 0, right: false }, &up).line, -5);
}

#[test]
fn images_scroll_with_the_text() {
    let mut p = pane();
    p.resize(80, 24, 8, 16);
    let png = {
        let mut p = vec![0x89, b'P', b'N', b'G', 0x0D, 0x0A, 0x1A, 0x0A];
        p.extend_from_slice(&13u32.to_be_bytes());
        p.extend_from_slice(b"IHDR");
        p.extend_from_slice(&64u32.to_be_bytes());
        p.extend_from_slice(&32u32.to_be_bytes());
        p.extend_from_slice(&[8, 6, 0, 0, 0]);
        p
    };
    let segs = p.split_output(&emit_inline(&png).unwrap());
    let none = vec![None; segs.len()];
    let ids = vec![5; segs.len()];
    let sent = p.absorb(segs, &none, &ids);
    // Two rows of 16 pixels are made for an image of 32.
    assert_eq!(sent.iter().filter(|b| **b == b'\n').count(), p.images[0].rows as usize);
    assert_eq!(p.images.len(), 1);
    assert_eq!(p.images[0].id, 5);
    let area = RectF { x: 0, y: 0, w: 640 * DIP, h: 384 * DIP };
    let cell = CellSize { w: 8 * DIP, h: 16 * DIP };
    let s = Screen { cursor_row: p.lines_seen as i32, ..screen() };
    let shown = visible_images(&p.images, p.lines_seen, &s, &area, cell);
    assert_eq!(shown.len(), 1);
    assert_eq!((shown[0].1.w, shown[0].1.h), (64 * DIP, 32 * DIP));
}
