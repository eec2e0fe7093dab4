use combo_crawler::cache::CacheEvent;
use combo_crawler::cache::CacheRequest;
use combo_crawler::cache::CacheStep;
use combo_crawler::cache::PageFetch;
use combo_crawler::cache::RetryPolicy;
use combo_crawler::crawl::Crawl;
use combo_crawler::error::CrawlError;
use combo_crawler::web_page::PageCache;
use combo_crawler::web_page::WebPage;

const POLICY: RetryPolicy = RetryPolicy { retries: 3, first_delay_ms: 10, max_delay_ms: 35 };

struct Web {
    pages: Vec<(String, String)>,
    calls: Vec<String>,
}

impl Web {
    fn new(pages: &[(&str, &str)]) -> Web {
        Web {
            pages: pages.iter().map(|(url, body)| (url.to_string(), body.to_string())).collect(),
            calls: vec![],
        }
    }

    fn get(&mut self, url: &str) -> CacheEvent {
        self.calls.push(url.to_string());
        match self.pages.iter().find(|(known, _)| known == url) {
            Some((_, body)) => CacheEvent::Fetched(body.clone()),
            None => CacheEvent::FetchFailed,
        }
    }
}

fn fetch_or_store(cache: &mut PageCache, web: &mut Web, url: &str) -> Result<WebPage, CrawlError> {
    let mut state = WebPage::fetch(url, POLICY);
    loop {
        let event = match state.request() {
            CacheRequest::Fetch => web.get(state.url()),
            CacheRequest::Wait { .. } => CacheEvent::Waited,
            CacheRequest::Lookup | CacheRequest::Store => cache.answer(&state).unwrap(),
        };
        match state.step(event) {
            CacheStep::Ask(next) => state = next,
            CacheStep::Served(page) => return Ok(page),
            CacheStep::Failed(error) => return Err(error),
        }
    }
}

fn ask(step: CacheStep) -> PageFetch {
    match step {
        CacheStep::Ask(state) => state,
        other => panic!("the operation is over: {other:?}"),
    }
}

fn failure(step: CacheStep) -> CrawlError {
    match step {
        CacheStep::Failed(error) => error,
        other => panic!("the operation has not failed: {other:?}"),
    }
}

#[test]
fn second_fetch_is_served_from_the_store() {
    let mut cache = PageCache::new();
    let mut web = Web::new(&[("https://a", "<p>first</p>")]);
    let first = fetch_or_store(&mut cache, &mut web, "https://a").unwrap();
    web.pages[0].1 = "<p>changed</p>".to_string();
    let second = fetch_or_store(&mut cache, &mut web, "https://a").unwrap();
    assert_eq!(web.calls, vec!["https://a"]);
    assert_eq!(first.html_body, "<p>first</p>");
    assert_eq!(second.html_body.as_bytes(), first.html_body.as_bytes());
    assert_eq!(second.url, "https://a");
    assert_eq!(second.id, first.id);
    assert_eq!(cache.len(), 1);
}

#[test]
fn network_failure_stores_nothing() {
    let mut cache = PageCache::new();
    let mut web = Web::new(&[]);
    assert_eq!(
        fetch_or_store(&mut cache, &mut web, "https://gone").unwrap_err(),
        CrawlError::Network
    );
    assert_eq!(cache.len(), 0);
    assert_eq!(web.calls.len(), 1);
    assert!(cache.lookup("https://gone").is_none());
}

#[test]
fn store_numbers_rows_from_one_and_never_overwrites() {
    let mut cache = PageCache::new();
    assert_eq!(cache.store("u1", "one"), Ok(()));
    assert_eq!(cache.store("u2", "two"), Ok(()));
    assert_eq!(cache.store("u1", "other"), Ok(()));
    assert_eq!(cache.len(), 2);
    let first = cache.lookup("u1").unwrap();
    assert_eq!((first.id, first.url.as_str(), first.html_body.as_str()), (1, "u1", "one"));
    let second = cache.lookup("u2").unwrap();
    assert_eq!((second.id, second.html_body.as_str()), (2, "two"));
    assert!(cache.lookup("u3").is_none());
    assert!(cache.lookup("").is_none());
}

#[test]
fn overlapping_crawls_fetch_each_url_once() {
    let page = |names: &[&str], next: bool| {
        let combos: String = names
            .iter()
            .map(|n| format!(r#"<div class="py-1"><div class="card-name"><span>{n}</span></div></div>"#))
            .collect();
        let button = if next { r#"<button class="forward-button"></button>"# } else { "" };
        format!("<html><body>{combos}{button}</body></html>")
    };
    let ring = "https://commanderspellbook.com/search/?q=card%3A%22Ring%22";
    let vault = "https://commanderspellbook.com/search/?q=card%3A%22Vault%22";
    let mut web = Web::new(&[]);
    web.pages = vec![
        (format!("{ring}&page=1"), page(&["Ring", "A"], true)),
        (format!("{ring}&page=2"), page(&["Ring"], false)),
        (format!("{vault}&page=1"), page(&["Vault", "B"], false)),
    ];
    let mut cache = PageCache::new();
    let mut crawls: Vec<Crawl> = ["Ring", "Vault", "Ring", "Ring", "Vault"]
        .iter()
        .map(|card| Crawl::new(vec![], Some(card.to_string()), None))
        .collect();
    let mut running = true;
    while running {
        running = false;
        for crawl in crawls.iter_mut() {
            if let Some(url) = crawl.next_fetch() {
                running = true;
                let page = fetch_or_store(&mut cache, &mut web, &url).unwrap();
                crawl.accept_body(&page.html_body);
            }
        }
    }
    let results: Vec<_> = crawls.iter_mut().map(|c| c.finish().unwrap().unwrap()).collect();
    for i in [0, 2, 3] {
        assert_eq!(
            results[i].cards,
            vec![("Ring".to_string(), 2), ("A".to_string(), 1)]
        );
        assert_eq!(
            results[i].combos,
            vec![vec!["Ring".to_string()], vec!["A".to_string()]]
        );
    }
    for i in [1, 4] {
        assert_eq!(
            results[i].cards,
            vec![("Vault".to_string(), 1), ("B".to_string(), 1)]
        );
    }
    assert_eq!(cache.len(), 3);
    let mut calls = web.calls.clone();
    calls.sort();
    calls.dedup();
    assert_eq!(calls.len(), web.calls.len());
    assert_eq!(calls.len(), 3);
}

#[test]
fn busy_store_is_waited_for_twice_as_long_each_time() {
    let mut state = WebPage::fetch("u", POLICY);
    let mut waits = vec![];
    for _ in 0..3 {
        assert_eq!(state.request(), CacheRequest::Lookup);
        state = ask(state.step(CacheEvent::Busy));
        match state.request() {
            CacheRequest::Wait { millis } => waits.push(millis),
            other => panic!("asked for {other:?}"),
        }
        state = ask(state.step(CacheEvent::Waited));
    }
    assert_eq!(waits, vec![10, 20, 35]);
    assert_eq!(state.request(), CacheRequest::Lookup);
    assert_eq!(failure(state.step(CacheEvent::Busy)), CrawlError::StoreContention);
}

#[test]
fn busy_store_after_the_fetch_does_not_fetch_again() {
    let mut state = WebPage::fetch("u", POLICY);
    state = ask(state.step(CacheEvent::Miss));
    assert_eq!(state.request(), CacheRequest::Fetch);
    state = ask(state.step(CacheEvent::Fetched("body".to_string())));
    assert_eq!(state.request(), CacheRequest::Store);
    assert_eq!(state.body(), Some("body"));
    state = ask(state.step(CacheEvent::Busy));
    assert_eq!(state.request(), CacheRequest::Wait { millis: 10 });
    state = ask(state.step(CacheEvent::Waited));
    assert_eq!(state.request(), CacheRequest::Lookup);
    state = ask(state.step(CacheEvent::Miss));
    assert_eq!(state.request(), CacheRequest::Store);
    state = ask(state.step(CacheEvent::Stored));
    assert_eq!(state.request(), CacheRequest::Lookup);
    let page = WebPage { id: 7, url: "u".to_string(), html_body: "body".to_string() };
    match state.step(CacheEvent::Hit(page)) {
        CacheStep::Served(page) => assert_eq!((page.id, page.html_body.as_str()), (7, "body")),
        other => panic!("not served: {other:?}"),
    }
}

#[test]
fn each_failure_has_its_error() {
    let start = || WebPage::fetch("u", POLICY);
    assert_eq!(failure(start().step(CacheEvent::StoreFailed)), CrawlError::StoreIo);
    let fetching = ask(start().step(CacheEvent::Miss));
    assert_eq!(failure(fetching.step(CacheEvent::FetchFailed)), CrawlError::Network);
    let storing = || ask(ask(start().step(CacheEvent::Miss)).step(CacheEvent::Fetched(String::new())));
    assert_eq!(failure(storing().step(CacheEvent::StoreFailed)), CrawlError::StoreIo);
    let confirming = ask(storing().step(CacheEvent::Stored));
    assert_eq!(failure(confirming.step(CacheEvent::Miss)), CrawlError::StoreIo);
    let patient = RetryPolicy { retries: 0, first_delay_ms: 1, max_delay_ms: 1 };
    assert_eq!(
        failure(WebPage::fetch("u", patient).step(CacheEvent::Busy)),
        CrawlError::StoreContention
    );
}

#[test]
fn event_that_answers_nothing_changes_nothing() {
    let state = ask(WebPage::fetch("u", POLICY).step(CacheEvent::Stored));
    assert_eq!(state.request(), CacheRequest::Lookup);
    assert_eq!(state.url(), "u");
    assert_eq!(state.body(), None);
    let state = ask(ask(state.step(CacheEvent::Miss)).step(CacheEvent::Hit(WebPage {
        id: 1,
        url: "u".to_string(),
        html_body: String::new(),
    })));
    assert_eq!(state.request(), CacheRequest::Fetch);
}
