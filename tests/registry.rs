use gar_crawl::config::{DEFAULT_DEPTH, DEFAULT_WORKERS};
use gar_crawl::{attribute_link, compile_selectors, CrawlConfig, CrawlError, HandlerEvent, Page, Registry, Url};

#[test]
fn registry_keeps_key_and_insertion_order() {
    let mut r: Registry<u32> = Registry::new();
    r.add(HandlerEvent::OnSelector("*[href]".to_string()), 1);
    r.add(HandlerEvent::OnPage, 2);
    r.add(HandlerEvent::OnSelector("*[href]".to_string()), 3);
    r.add(HandlerEvent::OnSelector("*[src]".to_string()), 4);
    r.add(HandlerEvent::OnPage, 5);
    assert_eq!(r.len(), 3);
    let (events, lists) = r.into_parts();
    assert_eq!(
        events,
        vec![
            HandlerEvent::OnSelector("*[href]".to_string()),
            HandlerEvent::OnPage,
            HandlerEvent::OnSelector("*[src]".to_string())
        ]
    );
    assert_eq!(lists, vec![vec![1, 3], vec![2, 5], vec![4]]);
}

#[test]
fn handler_events_compare_by_tag_and_selector() {
    assert_eq!(HandlerEvent::OnPage, HandlerEvent::OnPage);
    assert_eq!(HandlerEvent::OnSelector("a".to_string()), HandlerEvent::OnSelector("a".to_string()));
    assert_ne!(HandlerEvent::OnSelector("a".to_string()), HandlerEvent::OnSelector("b".to_string()));
    assert_ne!(HandlerEvent::OnSelector("a".to_string()), HandlerEvent::OnPage);
}

#[test]
fn invalid_selector_is_named() {
    let mut r: Registry<()> = Registry::new();
    r.add(HandlerEvent::OnPage, ());
    r.add(HandlerEvent::OnSelector("*[href]".to_string()), ());
    r.add(HandlerEvent::OnSelector("a[[".to_string()), ());
    r.add(HandlerEvent::OnSelector("p[[[".to_string()), ());
    let (events, _) = r.into_parts();
    match compile_selectors(&events) {
        Err(CrawlError::InvalidSelector(s)) => assert_eq!(s, "a[["),
        _ => panic!("the selector a[[ must be refused"),
    }
    let e = compile_selectors(&events).unwrap_err();
    assert_eq!(e.describe(), "invalid selector a[[");
}

#[test]
fn valid_selectors_compile_in_order() {
    let mut r: Registry<()> = Registry::new();
    r.add(HandlerEvent::OnSelector("*[src]".to_string()), ());
    r.add(HandlerEvent::OnPage, ());
    let (events, _) = r.into_parts();
    let compiled = compile_selectors(&events).unwrap();
    assert_eq!(compiled.len(), 2);
    assert!(compiled[0].is_some());
    assert!(compiled[1].is_none());
}

const FIVE_LINKS: &str = r#"<html><body>
<a href="a.html">a</a><a href="b.html">b</a><a href="/c">c</a>
<div href="d/">d</div><a href="https://host/e">e</a><img src="i.png">
</body></html>"#;

#[test]
fn single_page_default_propagation() {
    let url = Url::parse("https://host/dir/").unwrap();
    let page = Page::new(url, FIVE_LINKS.to_string(), 0);
    assert_eq!(page.depth, 0);
    assert_eq!(page.text, FIVE_LINKS);
    let mut r: Registry<()> = Registry::new();
    r.add(HandlerEvent::OnSelector("*[href]".to_string()), ());
    let (events, _) = r.into_parts();
    let compiled = compile_selectors(&events).unwrap();
    let sel = compiled[0].as_ref().unwrap();
    let mut fired = 0;
    let mut found = std::collections::HashSet::new();
    for el in page.doc.select(sel) {
        fired += 1;
        for u in attribute_link(&page.url, el.value().attr("href")) {
            found.insert(u.to_string());
        }
    }
    assert_eq!(fired, 5);
    assert_eq!(found.len(), 5);
    assert!(found.contains("https://host/dir/a.html"));
    assert!(found.contains("https://host/c"));
    assert!(found.contains("https://host/dir/d/"));
}

#[test]
fn config_defaults_and_setters() {
    let c = CrawlConfig::new();
    assert_eq!(c.depth, DEFAULT_DEPTH);
    assert_eq!(c.workers, DEFAULT_WORKERS);
    assert_eq!(c.depth, 2);
    assert_eq!(c.workers, 40);
    assert!(!c.revisit);
    let c = c.depth(3).workers(7).revisit(true).whitelist("qiwi").blacklist(".zip").whitelist("x");
    assert_eq!(c.depth, 3);
    assert_eq!(c.workers, 7);
    assert!(c.revisit);
    assert_eq!(c.whitelist, vec!["qiwi".to_string(), "x".to_string()]);
    assert_eq!(c.blacklist, vec![".zip".to_string()]);
    assert!(c.validate().is_ok());
}

#[test]
fn zero_workers_is_refused() {
    let c = CrawlConfig::new().workers(0);
    match c.validate() {
        Err(CrawlError::NoWorkers) => {}
        _ => panic!("zero workers must be refused"),
    }
}
