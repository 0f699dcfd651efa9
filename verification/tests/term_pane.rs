use baduhan::term_pane::{osc7_to_windows_path, scan_osc7, wsl_distro_of, ShellFlavor};

#[test]
fn scan_osc7_finds_last_url() {
    let chunk = b"junk\x1b]7;file://host/c/old\x07more\x1b]7;file://host/c/Users/x\x07tail";
    assert_eq!(scan_osc7(chunk).as_deref(), Some("file://host/c/Users/x"));
    assert_eq!(scan_osc7(b"no osc here"), None);
    // ST (ESC \) terminator form.
    assert_eq!(scan_osc7(b"\x1b]7;file:///C:/x\x1b\\").as_deref(), Some("file:///C:/x"));
}

#[test]
fn osc7_native_and_msys_paths() {
    let f = ShellFlavor::Posix;
    assert_eq!(
        osc7_to_windows_path("file:///C:/Users/x", f, None).as_deref(),
        Some("C:\\Users\\x")
    );
    assert_eq!(
        osc7_to_windows_path("file://HOST/c/Users/ana%20k", f, None).as_deref(),
        Some("C:\\Users\\ana k")
    );
    assert_eq!(
        osc7_to_windows_path("file://h/cygdrive/d/work", f, None).as_deref(),
        Some("D:\\work")
    );
}

#[test]
fn osc7_wsl_becomes_unc() {
    assert_eq!(
        osc7_to_windows_path("file://pc/home/armen/src", ShellFlavor::Wsl, Some("Ubuntu"))
            .as_deref(),
        Some("\\\\wsl$\\Ubuntu\\home\\armen\\src")
    );
    // Linux path in a non-WSL pane: unusable.
    assert_eq!(osc7_to_windows_path("file://pc/home/armen", ShellFlavor::Posix, None), None);
}

#[test]
fn wsl_distro_parsing() {
    let cmd: Vec<String> =
        ["wsl.exe", "-d", "Ubuntu", "--cd", "~"].iter().map(|s| s.to_string()).collect();
    assert_eq!(wsl_distro_of(&cmd).as_deref(), Some("Ubuntu"));
    assert_eq!(wsl_distro_of(&["wsl.exe".to_string()]), None);
}

#[test]
fn a_report_that_is_cut_off_does_not_count() {
    let cut = b"\x1b]7;file:///a\x1b]7;file:///b\x07";
    assert_eq!(scan_osc7(cut).as_deref(), Some("file:///b"));
    assert_eq!(scan_osc7(b"\x1b]7;file:///a\x1bX"), None);
    assert_eq!(scan_osc7(b"\x1b]7;file:///a\x07\x1b]7;file:///b").as_deref(), Some("file:///a"));
}
