use std::collections::{HashMap, VecDeque};

use gar_crawl::{CrawlConfig, CrawlEngine, CrawlError, FuzzEngine, Url};

/// A canned site: each URL maps to the links on its page; a URL missing
/// from the map is unreachable.
struct Site {
    pages: HashMap<String, Vec<String>>,
}

impl Site {
    fn new(pages: &[(&str, &[&str])]) -> Site {
        let mut map = HashMap::new();
        for (u, links) in pages {
            map.insert(u.to_string(), links.iter().map(|l| l.to_string()).collect());
        }
        Site { pages: map }
    }
}

struct Run {
    fetched: Vec<(String, usize)>,
    completed: Vec<String>,
    errors: Vec<String>,
    propagator_calls: usize,
    peak_in_flight: usize,
}

/// Drives the engine the way the asynchronous driver does, with fetches
/// completing in the order they were started.
fn crawl(site: &Site, seed: &str, config: CrawlConfig) -> Run {
    let mut engine: CrawlEngine<String> = CrawlEngine::new(seed, config).unwrap();
    let mut in_flight: VecDeque<(Url, usize)> = VecDeque::new();
    let mut run = Run {
        fetched: vec![],
        completed: vec![],
        errors: vec![],
        propagator_calls: 0,
        peak_in_flight: 0,
    };
    while engine.has_work() {
        for (u, d) in engine.fill() {
            run.fetched.push((u.to_string(), d));
            in_flight.push_back((u, d));
        }
        run.peak_in_flight = run.peak_in_flight.max(engine.in_flight_count());
        assert!(engine.in_flight_count() > 0);
        let (u, d) = in_flight.pop_front().unwrap();
        run.completed.push(u.to_string());
        match site.pages.get(u.as_str()) {
            None => engine.record_failure(format!("unreachable {}", u.as_str())),
            Some(links) => {
                if engine.record_page(d) {
                    run.propagator_calls += 1;
                    let found: Vec<Url> = links
                        .iter()
                        .filter_map(|l| gar_crawl::absolute_url(&u, l).ok())
                        .collect();
                    engine.propagate(d, &found);
                }
            }
        }
    }
    assert_eq!(engine.queue_len(), 0);
    assert_eq!(engine.in_flight_count(), 0);
    run.errors = engine.into_errors();
    run
}

fn count(run: &Run, u: &str) -> usize {
    run.fetched.iter().filter(|(x, _)| x == u).count()
}

#[test]
fn revisit_flag_off_fetches_each_once() {
    let site = Site::new(&[("http://h/a", &["/b"]), ("http://h/b", &["/a"])]);
    let run = crawl(&site, "http://h/a", CrawlConfig::new().depth(5));
    assert_eq!(count(&run, "http://h/a"), 1);
    assert_eq!(count(&run, "http://h/b"), 1);
    assert_eq!(run.errors.len(), 0);
}

#[test]
fn revisit_flag_on_refetches_up_to_the_depth_cap() {
    let site = Site::new(&[("http://h/a", &["/b"]), ("http://h/b", &["/a"])]);
    let run = crawl(&site, "http://h/a", CrawlConfig::new().depth(2).revisit(true));
    // a at depth 0, b at depth 1, a again at depth 2 (not propagated from).
    assert_eq!(count(&run, "http://h/a"), 2);
    assert_eq!(count(&run, "http://h/b"), 1);
    assert_eq!(
        run.fetched,
        vec![("http://h/a".to_string(), 0), ("http://h/b".to_string(), 1), ("http://h/a".to_string(), 2)]
    );
}

#[test]
fn zero_depth_fetches_only_the_seed() {
    let site = Site::new(&[("http://h/a", &["/b", "/c"]), ("http://h/b", &[]), ("http://h/c", &[])]);
    let run = crawl(&site, "http://h/a", CrawlConfig::new().depth(0));
    assert_eq!(run.fetched, vec![("http://h/a".to_string(), 0)]);
    assert_eq!(run.propagator_calls, 0);
}

#[test]
fn depths_never_exceed_the_cap() {
    let site = Site::new(&[
        ("http://h/0", &["/1"]),
        ("http://h/1", &["/2"]),
        ("http://h/2", &["/3"]),
        ("http://h/3", &["/4"]),
        ("http://h/4", &[]),
    ]);
    let run = crawl(&site, "http://h/0", CrawlConfig::new().depth(3));
    assert_eq!(run.fetched.len(), 4);
    assert!(run.fetched.iter().all(|(_, d)| *d <= 3));
    assert_eq!(run.fetched[3], ("http://h/3".to_string(), 3));
}

#[test]
fn filtered_links_are_never_fetched() {
    let site = Site::new(&[
        ("http://h/plugins/qiwi-button/", &["a.php", "/other/x.php", "b.zip", "c.php"]),
        ("http://h/plugins/qiwi-button/a.php", &[]),
        ("http://h/plugins/qiwi-button/c.php", &["/other/y"]),
        ("http://h/plugins/qiwi-button/b.zip", &[]),
        ("http://h/other/x.php", &[]),
    ]);
    let config = CrawlConfig::new().depth(3).whitelist("qiwi-button").blacklist(".zip");
    let run = crawl(&site, "http://h/plugins/qiwi-button/", config);
    let urls: Vec<&str> = run.fetched.iter().map(|(u, _)| u.as_str()).collect();
    assert_eq!(
        urls,
        vec![
            "http://h/plugins/qiwi-button/",
            "http://h/plugins/qiwi-button/a.php",
            "http://h/plugins/qiwi-button/c.php"
        ]
    );
}

#[test]
fn seed_is_fetched_even_when_filtered() {
    let site = Site::new(&[("http://h/seed", &["/seed", "/ok"]), ("http://h/ok", &[])]);
    let config = CrawlConfig::new().whitelist("ok");
    let run = crawl(&site, "http://h/seed", config);
    assert_eq!(count(&run, "http://h/seed"), 1);
    assert_eq!(count(&run, "http://h/ok"), 1);
}

#[test]
fn empty_propagation_enqueues_nothing_and_ends() {
    let site = Site::new(&[("http://h/a", &[])]);
    let run = crawl(&site, "http://h/a", CrawlConfig::new().depth(4));
    assert_eq!(run.fetched.len(), 1);
    assert_eq!(run.propagator_calls, 1);

    let mut engine: CrawlEngine<String> = CrawlEngine::new("http://h/a", CrawlConfig::new()).unwrap();
    let batch = engine.fill();
    assert_eq!(batch.len(), 1);
    assert!(engine.record_page(0));
    engine.propagate(0, &vec![]);
    assert_eq!(engine.queue_len(), 0);
    assert!(!engine.has_work());
}

#[test]
fn duplicates_within_one_page_are_suppressed() {
    let site = Site::new(&[("http://h/a", &["/b", "/b", "/a", "/b"]), ("http://h/b", &[])]);
    let run = crawl(&site, "http://h/a", CrawlConfig::new());
    assert_eq!(run.fetched.len(), 2);
}

#[test]
fn bounded_concurrency() {
    let links: Vec<String> = (0..100).map(|i| format!("/p{}", i)).collect();
    let link_refs: Vec<&str> = links.iter().map(|s| s.as_str()).collect();
    let mut pages: Vec<(String, Vec<&str>)> = vec![("http://h/".to_string(), link_refs)];
    for i in 0..100 {
        pages.push((format!("http://h/p{}", i), vec![]));
    }
    let borrowed: Vec<(&str, &[&str])> = pages.iter().map(|(u, l)| (u.as_str(), l.as_slice())).collect();
    let site = Site::new(&borrowed);
    let run = crawl(&site, "http://h/", CrawlConfig::new().workers(10));
    assert_eq!(run.fetched.len(), 101);
    assert_eq!(run.peak_in_flight, 10);
    assert_eq!(run.errors.len(), 0);
}

#[test]
fn single_worker_completes_in_enqueue_order() {
    let site = Site::new(&[
        ("http://h/a", &["/b", "/c"]),
        ("http://h/b", &["/d"]),
        ("http://h/c", &[]),
        ("http://h/d", &[]),
    ]);
    let run = crawl(&site, "http://h/a", CrawlConfig::new().workers(1).depth(3));
    assert_eq!(run.peak_in_flight, 1);
    let fetched: Vec<String> = run.fetched.iter().map(|(u, _)| u.clone()).collect();
    assert_eq!(fetched, run.completed);
    assert_eq!(fetched, vec!["http://h/a", "http://h/b", "http://h/c", "http://h/d"]);
}

#[test]
fn fetch_errors_are_collected() {
    let site = Site::new(&[("http://h/a", &["http://unreachable.invalid/"])]);
    let run = crawl(&site, "http://h/a", CrawlConfig::new());
    assert_eq!(run.errors.len(), 1);
    assert_eq!(run.errors[0], "unreachable http://unreachable.invalid/");
    assert_eq!(run.fetched.len(), 2);
}

#[test]
fn bad_seed_and_zero_workers_are_refused() {
    match CrawlEngine::<String>::new("not a url", CrawlConfig::new()) {
        Err(CrawlError::InvalidSeed(s)) => assert_eq!(s, "not a url"),
        _ => panic!("the seed must be refused"),
    }
    match CrawlEngine::<String>::new("http://h/", CrawlConfig::new().workers(0)) {
        Err(CrawlError::NoWorkers) => {}
        _ => panic!("zero workers must be refused"),
    }
}

/// Drives the fuzz engine; `reachable` decides each request's fate.
fn fuzz(inputs: &[&str], workers: usize, reachable: impl Fn(&str) -> bool) -> (usize, Vec<String>, usize) {
    let mut engine: FuzzEngine<String> = FuzzEngine::new(workers).unwrap();
    let mut iter = inputs.iter();
    let mut pending: VecDeque<Url> = VecDeque::new();
    let mut responses = 0;
    let mut peak = 0;
    while engine.has_work() {
        while engine.wants_input() {
            if let Some(u) = engine.offer(iter.next().copied()) {
                pending.push_back(u);
            }
        }
        peak = peak.max(engine.in_flight_count());
        if engine.awaiting() {
            let u = pending.pop_front().unwrap();
            if reachable(u.as_str()) {
                engine.record_response();
                responses += 1;
            } else {
                engine.record_failure(format!("failed {}", u.as_str()));
            }
        }
    }
    (responses, engine.into_errors(), peak)
}

#[test]
fn fuzzer_counts_responses_and_errors() {
    let inputs = ["https://g/", "https://m/", "https://a/", "https://nx/"];
    let (responses, errors, _) = fuzz(&inputs, 40, |u| u != "https://nx/");
    assert_eq!(responses, 3);
    assert_eq!(errors.len(), 1);
    assert_eq!(errors[0], "failed https://nx/");
}

#[test]
fn fuzzer_skips_unparsable_input_and_respects_the_bound() {
    let inputs = ["nope", "https://a/", "also nope", "https://b/", "https://c/"];
    let (responses, errors, peak) = fuzz(&inputs, 2, |_| true);
    assert_eq!(responses, 3);
    assert_eq!(errors.len(), 0);
    assert_eq!(peak, 2);
    let (responses, errors, peak) = fuzz(&["junk"], 2, |_| true);
    assert_eq!((responses, errors.len(), peak), (0, 0, 0));
    assert!(FuzzEngine::<String>::new(0).is_err());
}
