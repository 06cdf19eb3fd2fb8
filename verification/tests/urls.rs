use webview_app::pattern::compile_patterns;
use webview_app::urls::{
    allows_notification_permission, app_url_for_selection, is_internal_url,
    is_listed_internal_url, listed_notification_origins, mailto_url, matches_internal_url_regex,
    origin_from_url, start_url_from_arg, AppUrl, UrlPolicy, FALLBACK_APP_URL,
};

fn policy(patterns: &[&str]) -> UrlPolicy {
    UrlPolicy {
        app_urls: vec![
            AppUrl { name: "home".to_string(), url: "https://app.example.com/home".to_string() },
            AppUrl { name: "admin".to_string(), url: "HTTPS://app.example.com/admin".to_string() },
            AppUrl { name: "home".to_string(), url: "https://other.example.com/".to_string() },
        ],
        internal_prefixes: vec![
            "https://api.example.com/v1".to_string(),
            "file:///local".to_string(),
            "https://app.example.com/".to_string(),
        ],
        internal_patterns: compile_patterns(&patterns.iter().map(|p| p.to_string()).collect()),
    }
}

#[test]
fn listed_prefixes_are_internal() {
    let p = policy(&[]);
    assert!(is_listed_internal_url(&p, "https://app.example.com/home/page"));
    assert!(is_listed_internal_url(&p, "https://api.example.com/v1/x"));
    assert!(is_listed_internal_url(&p, "file:///local/index.html"));
    assert!(!is_listed_internal_url(&p, "https://api.example.com/v2"));
    assert!(!is_listed_internal_url(&p, "http://app.example.com/home"));
    assert!(!is_internal_url(&p, "https://evil.example.net/"));
}

#[test]
fn patterns_mark_urls_internal_and_bad_patterns_are_dropped() {
    let p = policy(&[r"^https://[a-z]+\.example\.org/", "(", r"docs\.rs"]);
    assert_eq!(p.internal_patterns.len(), 2);
    assert_eq!(p.internal_patterns[0].as_str(), r"^https://[a-z]+\.example\.org/");
    assert_eq!(p.internal_patterns[1].as_str(), r"docs\.rs");
    assert!(matches_internal_url_regex(&p, "https://wiki.example.org/x"));
    assert!(matches_internal_url_regex(&p, "https://docs.rs/regex"));
    assert!(!matches_internal_url_regex(&p, "https://WIKI.example.org/x"));
    assert!(is_internal_url(&p, "https://wiki.example.org/x"));
    assert!(!is_listed_internal_url(&p, "https://wiki.example.org/x"));
    assert!(!is_internal_url(&p, "https://example.com/"));
}

#[test]
fn notification_permission_follows_internal_urls() {
    let p = policy(&[r"^https://[a-z]+\.example\.org/"]);
    for url in [
        "https://app.example.com/home",
        "https://wiki.example.org/",
        "https://elsewhere.com/",
        "",
    ] {
        assert_eq!(allows_notification_permission(&p, url), is_internal_url(&p, url));
    }
}

#[test]
fn origins_of_urls() {
    assert_eq!(
        origin_from_url("HTTPS://Example.com:8080/path?q#f").as_deref(),
        Some("https://Example.com:8080/")
    );
    assert_eq!(origin_from_url("http://host?x").as_deref(), Some("http://host/"));
    assert_eq!(origin_from_url("http://host#frag").as_deref(), Some("http://host/"));
    assert_eq!(origin_from_url("hTtP://h").as_deref(), Some("http://h/"));
    assert_eq!(origin_from_url("ftp://host/"), None);
    assert_eq!(origin_from_url("https:///path"), None);
    assert_eq!(origin_from_url("no scheme here"), None);
    assert_eq!(origin_from_url("https:/x"), None);
    assert_eq!(origin_from_url(""), None);
}

#[test]
fn origin_of_an_origin_is_itself() {
    for url in ["HTTPS://Example.com:8080/path?q#f", "http://a.b/c", "https://x?y"] {
        let o = origin_from_url(url).unwrap();
        assert_eq!(origin_from_url(&o), Some(o.clone()));
    }
}

#[test]
fn listed_origins_are_distinct_in_first_order() {
    let p = policy(&[]);
    assert_eq!(
        listed_notification_origins(&p),
        vec![
            "https://app.example.com/".to_string(),
            "https://other.example.com/".to_string(),
            "https://api.example.com/".to_string(),
        ]
    );
}

#[test]
fn selection_picks_first_named_page_or_default() {
    let p = policy(&[]);
    assert_eq!(app_url_for_selection(&p, None), "https://app.example.com/home");
    assert_eq!(app_url_for_selection(&p, Some("admin")), "HTTPS://app.example.com/admin");
    assert_eq!(app_url_for_selection(&p, Some("home")), "https://app.example.com/home");
    assert_eq!(app_url_for_selection(&p, Some("missing")), "https://app.example.com/home");
    let empty = UrlPolicy { app_urls: vec![], internal_prefixes: vec![], internal_patterns: vec![] };
    assert_eq!(app_url_for_selection(&empty, Some("x")), FALLBACK_APP_URL);
    assert_eq!(app_url_for_selection(&empty, None), "https://example.com/");
}

#[test]
fn mailto_links_fill_the_template() {
    let link = "  MAILTO:bob@example.com?subject=Hi there \n";
    let encoded = "MAILTO%3Abob%40example.com%3Fsubject%3DHi%20there";
    assert_eq!(
        mailto_url("https://mail.example.com/compose?to={}", link),
        Some(format!("https://mail.example.com/compose?to={encoded}"))
    );
    assert_eq!(
        mailto_url("https://m.example/?a=%s&b=%s", link),
        Some(format!("https://m.example/?a={encoded}&b={encoded}"))
    );
    assert_eq!(
        mailto_url("https://m.example/?a={}&b=%s", link),
        Some(format!("https://m.example/?a={encoded}&b=%s"))
    );
    assert_eq!(
        mailto_url("https://m.example/?to=", "mailto:a@b"),
        Some("https://m.example/?to=mailto%3Aa%40b".to_string())
    );
    assert_eq!(mailto_url("x{}", "mailto:"), Some("xmailto%3A".to_string()));
    assert_eq!(mailto_url("x{}", "mailto"), None);
    assert_eq!(mailto_url("x{}", "https://example.com"), None);
    assert_eq!(mailto_url("x{}", "mailtoo:a"), None);
    assert_eq!(mailto_url("x{}", "\u{a0}mailto:é"), Some("xmailto%3A%C3%A9".to_string()));
}

#[test]
fn start_url_prefers_mailto_then_named_page() {
    let p = policy(&[]);
    let t = "https://mail.example.com/?to={}";
    assert_eq!(start_url_from_arg(&p, t, None), "https://app.example.com/home");
    assert_eq!(start_url_from_arg(&p, t, Some("admin")), "HTTPS://app.example.com/admin");
    assert_eq!(start_url_from_arg(&p, t, Some("unknown")), "https://app.example.com/home");
    assert_eq!(
        start_url_from_arg(&p, t, Some("mailto:x@y")),
        "https://mail.example.com/?to=mailto%3Ax%40y"
    );
}
