use baduhan::config::{
    find_profile, next_theme, profile_label, theme_cycled, theme_missing, theme_picked, Config,
    Profile,
};
use baduhan::fonts::{cell_for, pick_family, window_title};
use baduhan::pane_tree::DIP;

fn profile(name: &str) -> Profile {
    Profile { name: name.to_string(), command: vec![format!("{name}.exe")], cwd: None }
}

fn config(default: &str) -> Config {
    Config {
        font_family: "Consolas".to_string(),
        font_size: 13000,
        dim_inactive_panes: 0,
        scrollback_lines: 0,
        browser_debug_port: 0,
        default_profile: default.to_string(),
        profiles: vec![profile("cmd"), profile("pwsh"), profile("pwsh")],
        quake_hotkey: String::new(),
        restore_session: false,
        theme: None,
        alt_passthrough: Vec::new(),
    }
}

#[test]
fn profiles_are_found_by_name() {
    let c = config("pwsh");
    assert_eq!(find_profile(&c.profiles, "pwsh"), Some(1));
    assert_eq!(find_profile(&c.profiles, "bash"), None);
    assert_eq!(c.default_profile(), Some(1));
    assert_eq!(config("bash").default_profile(), Some(0));
    let mut none = config("bash");
    none.profiles.clear();
    assert_eq!(none.default_profile(), None);
}

#[test]
fn the_first_nine_profiles_have_a_shortcut() {
    assert_eq!(profile_label(&profile("cmd"), 0), "cmd\tCtrl+Shift+1");
    assert_eq!(profile_label(&profile("cmd"), 8), "cmd\tCtrl+Shift+9");
    assert_eq!(profile_label(&profile("cmd"), 9), "cmd");
}

#[test]
fn themes_go_round() {
    let v: Vec<String> = ["a", "b", "c"].map(String::from).into();
    assert_eq!(next_theme(&v, &None), Some(0));
    assert_eq!(next_theme(&v, &Some("a".to_string())), Some(1));
    assert_eq!(next_theme(&v, &Some("c".to_string())), Some(0));
    assert_eq!(next_theme(&v, &Some("z".to_string())), Some(0));
    assert_eq!(next_theme(&Vec::new(), &None), None);
}

#[test]
fn themes_are_announced() {
    assert_eq!(theme_cycled("Dracula", 1, 12, true), "\u{1f3a8} Dracula  (2/12)");
    assert_eq!(theme_cycled("Dracula", 1, 12, false), "couldn't parse theme 'Dracula'");
    assert_eq!(theme_picked("Dracula", true), "\u{1f3a8} Dracula");
    assert_eq!(theme_picked("Dracula", false), "couldn't load theme 'Dracula'");
    assert_eq!(theme_missing("C:\\themes"), "no themes in C:\\themes");
}

#[test]
fn a_missing_family_falls_back() {
    let all = vec!["Iosevka".to_string(), "Cascadia Mono".to_string()];
    assert_eq!(pick_family("Iosevka", &all), "Iosevka");
    assert_eq!(pick_family("Hack", &all), "Cascadia Mono");
    assert_eq!(pick_family("Hack", &vec!["Consolas".to_string()]), "Consolas");
    assert_eq!(pick_family("Hack", &Vec::new()), "Consolas");
}

#[test]
fn cells_are_whole_pixels() {
    // 7.15 at 96 pixels to the inch is 7 pixels, 16.6 is 17.
    let c = cell_for(7322, 16998, 96);
    assert_eq!((c.w, c.h), (7 * DIP, 17 * DIP));
    // At twice the resolution, half pixels can be used.
    let c = cell_for(7322, 16998, 192);
    assert_eq!((c.w, c.h), (7 * DIP, 33 * DIP / 2));
    assert_eq!(cell_for(0, 0, 96).w, DIP);
}

#[test]
fn a_window_is_called_after_its_tab() {
    assert_eq!(window_title("bash"), "bash \u{2014} baduhan");
}
