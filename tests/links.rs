use gar_crawl::{absolute_url, attribute_link, is_allowed, is_visited, CrawlError, Url, VisitedSet};

#[test]
fn abs_url() {
    let base_url = Url::parse("https://github.com/garlic0x1/").unwrap();
    let href = "gar-crawl/";
    let abs_url = absolute_url(&base_url, href).unwrap();
    assert_eq!(abs_url.as_str(), "https://github.com/garlic0x1/gar-crawl/");

    let base_url = Url::parse("https://github.com/garlic0x1").unwrap();
    let href = "gar-crawl/";
    let abs_url = absolute_url(&base_url, href).unwrap();
    assert_eq!(abs_url.as_str(), "https://github.com/gar-crawl/");

    let base_url = Url::parse("https://github.com/garlic0x1/").unwrap();
    let href = "https://google.com";
    let abs_url = absolute_url(&base_url, href).unwrap();
    assert_eq!(abs_url.as_str(), "https://google.com/");
}

#[test]
fn parse_serializes_and_rejects() {
    let u = Url::parse("HTTP://Example.COM/a/../b").unwrap();
    assert_eq!(u.as_str(), "http://example.com/b");
    assert_eq!(u.to_string(), "http://example.com/b".to_string());
    assert!(Url::parse("no scheme here").is_none());
    assert!(Url::parse("").is_none());
}

#[test]
fn join_resolves_relative_references() {
    let base = Url::parse("https://alice.com/a/b").unwrap();
    assert_eq!(base.join("c.png").unwrap().as_str(), "https://alice.com/a/c.png");
    assert_eq!(base.join("/v1/meta").unwrap().as_str(), "https://alice.com/v1/meta");
    assert_eq!(base.join("//eve.com/b").unwrap().as_str(), "https://eve.com/b");
    assert_eq!(base.join("?q=1").unwrap().as_str(), "https://alice.com/a/b?q=1");
}

#[test]
fn invalid_link_is_reported() {
    let base = Url::parse("https://alice.com/").unwrap();
    match absolute_url(&base, "http://[") {
        Err(CrawlError::InvalidLink(s)) => assert_eq!(s, "http://["),
        other => panic!("unexpected {:?}", other),
    }
    let e = absolute_url(&base, "http://[").unwrap_err();
    assert_eq!(e.describe(), "invalid link: http://[");
}

#[test]
fn absolute_url_is_idempotent() {
    let base = Url::parse("https://github.com/garlic0x1/").unwrap();
    for href in ["gar-crawl/", "../x?y=1#z", "https://google.com", "/root", "a b"] {
        let first = absolute_url(&base, href).unwrap();
        let second = absolute_url(&base, first.as_str()).unwrap();
        assert_eq!(first.as_str(), second.as_str());
    }
}

#[test]
fn attribute_link_yields_at_most_one() {
    let page = Url::parse("https://host/dir/").unwrap();
    let v = attribute_link(&page, Some("x.php"));
    assert_eq!(v.len(), 1);
    assert_eq!(v[0].as_str(), "https://host/dir/x.php");
    assert_eq!(attribute_link(&page, None).len(), 0);
    assert_eq!(attribute_link(&page, Some("http://[")).len(), 0);
}

fn list(v: &[&str]) -> Vec<String> {
    v.iter().map(|s| s.to_string()).collect()
}

#[test]
fn empty_whitelist_passes_everything_not_blacklisted() {
    let u = Url::parse("https://host/plugins/qiwi-button/trunk/").unwrap();
    assert!(is_allowed(&u, &list(&[]), &list(&[])));
    assert!(is_allowed(&u, &list(&[]), &list(&["nothing"])));
    assert!(!is_allowed(&u, &list(&[]), &list(&["trunk"])));
}

#[test]
fn whitelist_needs_one_entry_contained() {
    let u = Url::parse("https://host/plugins/qiwi-button/trunk/").unwrap();
    assert!(is_allowed(&u, &list(&["qiwi-button"]), &list(&[])));
    assert!(is_allowed(&u, &list(&["zzz", "qiwi"]), &list(&[])));
    assert!(!is_allowed(&u, &list(&["zzz"]), &list(&[])));
    assert!(!is_allowed(&u, &list(&["QIWI"]), &list(&[])));
    assert!(!is_allowed(&u, &list(&["qiwi"]), &list(&["trunk"])));
}

#[test]
fn is_allowed_ignores_call_and_list_order() {
    let u = Url::parse("https://host/a/b.php").unwrap();
    let wl1 = list(&["x", ".php"]);
    let wl2 = list(&[".php", "x", ".php"]);
    let bl1 = list(&["/c/", "q"]);
    let bl2 = list(&["q", "/c/"]);
    let first = is_allowed(&u, &wl1, &bl1);
    assert_eq!(first, is_allowed(&u, &wl2, &bl2));
    assert_eq!(first, is_allowed(&u, &wl1, &bl1));
    assert!(first);
}

#[test]
fn visited_set_marks_once() {
    let mut seen = VisitedSet::new();
    let a = Url::parse("https://host/a").unwrap();
    let b = Url::parse("https://host/b").unwrap();
    assert!(!is_visited(&a, &mut seen));
    assert!(is_visited(&a, &mut seen));
    assert!(!is_visited(&b, &mut seen));
    assert!(seen.contains(&"https://host/a".to_string()));
    assert!(!seen.contains(&"https://host/c".to_string()));
    assert!(!seen.insert("https://host/b".to_string()));
    assert!(seen.insert("https://host/c".to_string()));
}
