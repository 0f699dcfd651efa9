use baduhan::cheatsheet::{columns, released};
use baduhan::sheet_paint::sheet_columns;

#[test]
fn passthrough_hides_only_fully_released_rows() {
    let p: Vec<String> = ["d", "shift+t", "[", "]"].map(String::from).into();
    assert!(released("Alt+Shift+T", &p));
    assert!(released("Alt+[ / Alt+]", &p));
    // Alias rows survive: the Ctrl+Shift chord is still bound.
    assert!(!released("Alt+D / Ctrl+Shift+D", &p));
    assert!(!released("Ctrl+Shift+B", &p));
    assert!(!released("Alt+W / Ctrl+Shift+W", &p));
    assert!(!released("Alt+1\u{2026}9", &p));
}

#[test]
fn the_list_has_two_columns() {
    let (left, right) = columns();
    let titles: Vec<&str> = left.iter().chain(right.iter()).map(|s| s.title).collect();
    assert_eq!(titles, vec!["Tabs", "Panes", "Terminal", "Window & app"]);
    assert_eq!(left[0].entries.len(), 9);
    assert_eq!(left[0].entries[0].keys, "Alt+T / Ctrl+Shift+T");
    assert_eq!(left[0].entries[0].action, "new tab (same profile)");
    let last = right[0].entries.last().unwrap();
    assert_eq!((last.keys, last.action), ("Shift+Enter", "newline without submitting"));
}

#[test]
fn released_rows_leave_the_list_and_own_bindings_join_it() {
    let p: Vec<String> = vec![" Shift+T ".to_string()];
    let binds = vec!["ctrl+shift+g".to_string()];
    let (left, right) = sheet_columns(&binds, &p);
    assert_eq!(left[0].rows.len(), 8);
    assert!(left[0].rows.iter().all(|r| r.keys != "Alt+Shift+T"));
    assert_eq!(left.len(), 3);
    assert_eq!(left[2].title, "Yours (init.lua)");
    assert_eq!(left[2].rows[0].keys, "ctrl+shift+g");
    assert_eq!(left[2].rows[0].action, "init.lua keybinding");
    assert_eq!(right.len(), 2);
    let (left, _) = sheet_columns(&[], &[]);
    assert_eq!(left.len(), 2);
    assert_eq!(left[0].rows.len(), 9);
}
