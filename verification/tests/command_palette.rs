use baduhan::command_palette::{filter, items, score, Item, PaletteAction};
use baduhan::config::Profile;

fn mk(labels: &[&str]) -> Vec<Item> {
    labels
        .iter()
        .map(|l| Item { label: l.to_string(), hint: "", action: PaletteAction::Zoom })
        .collect()
}

#[test]
fn empty_query_keeps_order() {
    let items = mk(&["Alpha", "Beta"]);
    assert_eq!(filter(&items, ""), vec![0, 1]);
}

#[test]
fn subsequence_and_ranking() {
    let items = mk(&["Split Right", "Split Down", "Search Scrollback"]);
    // "spd" matches "Split Down" tightly, also "Split ... " others loosely.
    let f = filter(&items, "spd");
    assert_eq!(f[0], 1);
    // Compact contiguous match wins over scattered.
    let items = mk(&["Move Tab Left", "Font: Smaller"]);
    assert_eq!(filter(&items, "left")[0], 0);
    // No match filtered out.
    assert!(filter(&mk(&["Zoom"]), "xyz").is_empty());
}

#[test]
fn case_insensitive() {
    let items = mk(&["New Window"]);
    assert_eq!(filter(&items, "NEWWIN"), vec![0]);
}

#[test]
fn letters_beyond_ascii_match_without_regard_to_case() {
    assert_eq!(filter(&mk(&["\u{c4}RGER"]), "\u{e4}r"), vec![0]);
    assert!(score("\u{c4}RGER", "\u{e4}rger").is_some());
    assert!(score("abc", "abd").is_none());
}

#[test]
fn profiles_and_themes_have_items_of_their_own() {
    let profiles = vec![Profile {
        name: "Logs".to_string(),
        command: vec!["cmd.exe".to_string()],
        cwd: None,
    }];
    let themes = vec!["Dracula".to_string()];
    let v = items(&profiles, &themes);
    let plain = items(&[], &[]);
    assert_eq!(v.len(), plain.len() + 2);
    assert!(v.iter().any(|i| i.label.contains("Logs")
        && i.action == PaletteAction::NewTabProfile(0)));
    assert!(v.iter().any(|i| i.label.contains("Dracula")
        && i.action == PaletteAction::Theme("Dracula".to_string())));
}

#[test]
fn ties_keep_their_order() {
    let items = mk(&["ab", "ab", "a b"]);
    assert_eq!(filter(&items, "ab"), vec![0, 1, 2]);
}

#[test]
fn typing_on_narrows_and_case_does_not_matter() {
    let v = items(&[], &["Dracula".to_string()]);
    let mut q = String::new();
    let mut before = filter(&v, &q);
    for c in "split".chars() {
        q.push(c);
        let after = filter(&v, &q);
        assert!(after.iter().all(|i| before.contains(i)));
        assert_eq!(after, filter(&v, &q.to_ascii_uppercase()));
        before = after;
    }
    let labels: Vec<&str> = before.iter().map(|i| v[*i].label.as_str()).collect();
    assert!(labels.contains(&"Split Right"));
    assert!(labels.contains(&"Split Down"));
    assert!(!labels.contains(&"Theme: Dracula"));
}
