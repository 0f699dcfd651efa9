use baduhan::browser_pane::{
    environment_ready, normalize_url, request_controller, url_bar_key, BrowserPane, EnvState,
    EnvStep, UrlKey, Waiter,
};

#[test]
fn full_urls_pass_through() {
    assert_eq!(normalize_url("https://example.com/x"), "https://example.com/x");
    assert_eq!(normalize_url("about:blank"), "about:blank");
}

#[test]
fn localhost_gets_http() {
    assert_eq!(normalize_url("localhost:3000"), "http://localhost:3000");
    assert_eq!(normalize_url("127.0.0.1:8080"), "http://127.0.0.1:8080");
}

#[test]
fn domains_get_https() {
    assert_eq!(normalize_url("example.com"), "https://example.com");
}

#[test]
fn bare_words_become_searches() {
    assert!(normalize_url("rust lifetimes").contains("google.com/search"));
}

#[test]
fn empty_is_blank() {
    assert_eq!(normalize_url("  "), "about:blank");
}

#[test]
fn a_search_is_written_with_plus_signs() {
    assert_eq!(
        normalize_url(" rust lifetimes "),
        "https://www.google.com/search?q=rust+lifetimes"
    );
    assert_eq!(normalize_url("edge://settings"), "edge://settings");
    assert_eq!(normalize_url("0.0.0.0:1"), "http://0.0.0.0:1");
}

#[test]
fn a_page_waits_for_its_controller() {
    let mut b = BrowserPane::new("example.com");
    assert_eq!(b.url, "example.com");
    assert!(!b.ready);
    assert_eq!(b.navigate("localhost:1"), ("http://localhost:1".to_string(), false));
    assert_eq!(b.install(), "http://localhost:1");
    assert!(b.ready);
    assert_eq!(b.navigate("a.b"), ("https://a.b".to_string(), true));
    b.title_changed("Home".to_string());
    assert_eq!(b.title(), "Home");
    b.source_changed("https://a.b/c".to_string());
    assert_eq!(b.url, "https://a.b/c");
    b.show(false);
    assert!(!b.visible);
}

#[test]
fn requests_wait_in_order_until_the_environment_is_there() {
    let mut env = EnvState::NotStarted;
    let a: Waiter = (1, 10);
    let b: Waiter = (1, 11);
    assert_eq!(request_controller(&mut env, a), EnvStep::StartEnvironment);
    assert_eq!(request_controller(&mut env, b), EnvStep::Wait);
    assert_eq!(environment_ready(&mut env), vec![a, b]);
    assert_eq!(request_controller(&mut env, a), EnvStep::CreatePage);
    assert!(environment_ready(&mut env).is_empty());
}

#[test]
fn keys_of_the_url_bar() {
    assert_eq!(url_bar_key(true, 0x0d), UrlKey::Navigate);
    assert_eq!(url_bar_key(false, 0x0d), UrlKey::Swallow);
    assert_eq!(url_bar_key(true, 0x1b), UrlKey::LeaveBar);
    assert_eq!(url_bar_key(false, 0x1b), UrlKey::Edit);
    assert_eq!(url_bar_key(true, 0x41), UrlKey::Edit);
}
