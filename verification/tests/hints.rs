use baduhan::hints::{clean, interesting, labels, scan};

#[test]
fn interesting_classification() {
    assert!(interesting("https://example.com/x"));
    assert!(interesting("C:\\Users\\anaka\\file.txt"));
    assert!(interesting("C:/work/proj"));
    assert!(interesting("/etc/nginx/nginx.conf"));
    assert!(interesting("src/window.rs"));
    assert!(interesting("d92fdf1aabbcc"));
    assert!(interesting("\\\\wsl$\\Ubuntu\\home"));
    assert!(!interesting("hello"));
    assert!(!interesting("1234"));
    assert!(!interesting("a/b")); // too short
}

#[test]
fn scan_labels_and_positions() {
    let rows = vec![
        ("see https://x.io/a and C:\\tmp\\f.txt".to_string(), (0..40).collect()),
        ("hash d92fdf1 done".to_string(), (0..20).collect()),
    ];
    let m = scan(&rows);
    assert_eq!(m.len(), 3);
    assert_eq!(m[0].text, "https://x.io/a");
    assert_eq!(m[0].row, 0);
    assert_eq!(m[0].col, 4);
    assert_eq!(m[0].label, "a");
    assert_eq!(m[1].text, "C:\\tmp\\f.txt");
    assert_eq!(m[2].text, "d92fdf1");
    assert_eq!(m[2].row, 1);
}

#[test]
fn labels_unique_and_sufficient() {
    let l = labels(40);
    assert_eq!(l.len(), 40);
    let set: std::collections::HashSet<&String> = l.iter().collect();
    assert_eq!(set.len(), 40);
}

#[test]
fn punctuation_around_a_token_is_dropped() {
    assert_eq!(clean("(https://x.io/a),"), "https://x.io/a");
    assert_eq!(clean("plain"), "plain");
}

#[test]
fn columns_follow_the_cells_of_the_row() {
    // A wide character before the token takes two cells.
    let row = "\u{4e16} src/window.rs".to_string();
    let mut cells: Vec<usize> = vec![0, 2];
    cells.extend(3..20);
    let m = scan(&[(row, cells)]);
    assert_eq!(m.len(), 1);
    assert_eq!(m[0].text, "src/window.rs");
    assert_eq!(m[0].col, 3);
}

#[test]
fn everything_on_show_gets_a_label_that_no_other_begins_with() {
    let rows: Vec<(String, Vec<usize>)> = (0..900)
        .map(|i| {
            let s = format!("see src/file{i}.rs");
            let n = s.len();
            (s, (0..n).collect())
        })
        .collect();
    let m = scan(&rows);
    assert_eq!(m.len(), 900);
    assert_eq!(m[899].text, "src/file899.rs");
    for (i, a) in m.iter().enumerate() {
        for (j, b) in m.iter().enumerate() {
            assert!(i == j || !b.label.starts_with(&a.label));
        }
    }
    let few = scan(&rows[..27]);
    assert_eq!(few[26].label, "m");
    let more = scan(&rows[..28]);
    assert_eq!((more[0].label.as_str(), more[27].label.as_str()), ("aa", "sa"));
}
