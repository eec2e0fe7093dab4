use combo_crawler::color::Color;
use combo_crawler::color::Format;
use combo_crawler::crawl::Crawl;
use combo_crawler::crawl::CrawlPhase;
use combo_crawler::error::CrawlError;
use combo_crawler::extract::PageContent;

fn combo(names: &[&str]) -> Vec<String> {
    names.iter().map(|name| name.to_string()).collect()
}

fn page(combos: Vec<Vec<String>>, has_next_page: bool) -> PageContent {
    PageContent { combos, has_next_page }
}

const BASE: &str = "https://commanderspellbook.com/search/?q=card%3A%22Sol%20Ring%22";

fn sol_ring() -> Crawl {
    Crawl::new(vec![], Some("Sol Ring".to_string()), None)
}

#[test]
fn search_without_results_finishes_empty() {
    let mut crawl = sol_ring();
    assert_eq!(crawl.phase(), CrawlPhase::Running);
    assert_eq!(crawl.next_fetch(), Some(format!("{BASE}&page=1")));
    assert_eq!(crawl.accept_page(&page(vec![], false)), 0);
    assert_eq!(crawl.phase(), CrawlPhase::Stopping);
    assert_eq!(crawl.next_fetch(), None);
    let result = crawl.finish().unwrap().unwrap();
    assert!(result.combos.is_empty());
    assert!(result.cards.is_empty());
    assert_eq!(crawl.phase(), CrawlPhase::Finished);
}

#[test]
fn two_pages_are_fetched_in_order() {
    let mut crawl = sol_ring();
    let mut fetched = vec![];
    let pages = [
        page(vec![combo(&["Sol Ring", "Mana Vault"])], true),
        page(vec![combo(&["Sol Ring", "Grim Monolith"])], false),
    ];
    let mut next = 0;
    while let Some(url) = crawl.next_fetch() {
        fetched.push(url);
        crawl.accept_page(&pages[next]);
        next += 1;
    }
    assert_eq!(fetched, vec![format!("{BASE}&page=1"), format!("{BASE}&page=2")]);
    assert_ne!(fetched[0], fetched[1]);
    let result = crawl.finish().unwrap().unwrap();
    assert_eq!(
        result.combos,
        vec![combo(&["Sol Ring", "Mana Vault"]), combo(&["Sol Ring", "Grim Monolith"])]
    );
    assert_eq!(result.cards[0], ("Sol Ring".to_string(), 2));
}

#[test]
fn cancel_before_the_first_fetch_fetches_nothing() {
    let mut crawl = sol_ring();
    crawl.cancel();
    assert_eq!(crawl.phase(), CrawlPhase::Running);
    assert_eq!(crawl.next_fetch(), None);
    assert_eq!(crawl.phase(), CrawlPhase::Stopping);
    let result = crawl.finish().unwrap().unwrap();
    assert!(result.combos.is_empty());
    assert!(result.cards.is_empty());
    assert_eq!(crawl.next_fetch(), None);
}

#[test]
fn cancel_during_a_fetch_keeps_the_page_in_flight() {
    let mut crawl = sol_ring();
    assert!(crawl.next_fetch().is_some());
    crawl.accept_page(&page(vec![combo(&["a"])], true));
    assert!(crawl.next_fetch().is_some());
    crawl.cancel();
    crawl.cancel();
    assert_eq!(crawl.accept_page(&page(vec![combo(&["b"]), combo(&["c"])], true)), 2);
    assert_eq!(crawl.combos_found(), 3);
    assert_eq!(crawl.next_fetch(), None);
    let result = crawl.finish().unwrap().unwrap();
    assert_eq!(result.combos, vec![combo(&["a"]), combo(&["b"]), combo(&["c"])]);
}

#[test]
fn combos_without_cards_are_not_kept() {
    let mut crawl = sol_ring();
    let found = crawl.accept_page(&page(vec![combo(&[]), combo(&["a", "b"]), combo(&[])], false));
    assert_eq!(found, 1);
    assert_eq!(crawl.combos_found(), 1);
}

#[test]
fn outcome_is_handed_out_once() {
    let mut crawl = sol_ring();
    assert!(crawl.finish().is_none());
    assert_eq!(crawl.phase(), CrawlPhase::Running);
    crawl.accept_page(&page(vec![combo(&["a"])], false));
    assert!(crawl.finish().is_some());
    assert!(crawl.finish().is_none());
    assert_eq!(crawl.phase(), CrawlPhase::Finished);
}

#[test]
fn stopped_crawl_ignores_pages() {
    let mut crawl = sol_ring();
    crawl.accept_page(&page(vec![combo(&["a"])], false));
    assert_eq!(crawl.accept_page(&page(vec![combo(&["b"])], true)), 0);
    assert_eq!(crawl.combos_found(), 1);
    assert_eq!(crawl.next_fetch(), None);
}

#[test]
fn failure_is_not_an_empty_result() {
    for error in [CrawlError::Network, CrawlError::StoreIo, CrawlError::StoreContention] {
        let mut crawl = sol_ring();
        crawl.accept_page(&page(vec![combo(&["a"])], true));
        crawl.fail(error);
        assert_eq!(crawl.phase(), CrawlPhase::Stopping);
        assert_eq!(crawl.next_fetch(), None);
        assert_eq!(crawl.finish().unwrap().unwrap_err(), error);
    }
    let mut crawl = sol_ring();
    crawl.accept_page(&page(vec![], false));
    crawl.fail(CrawlError::Network);
    assert!(crawl.finish().unwrap().is_ok());
}

#[test]
fn accept_body_reads_the_page() {
    let mut crawl = Crawl::new(vec![Color::Green], None, Some(Format::Commander));
    assert_eq!(
        crawl.next_fetch().as_deref(),
        Some("https://commanderspellbook.com/search/?q=ci%3A%22g%22%20legal%3Acommander&page=1")
    );
    let first = r#"<div class="py-1"><div class="card-name"><span>One</span></div></div>
        <div class="py-1"></div><button class="forward-button"></button>"#;
    assert_eq!(crawl.accept_body(first), 1);
    assert_eq!(
        crawl.next_fetch().as_deref(),
        Some("https://commanderspellbook.com/search/?q=ci%3A%22g%22%20legal%3Acommander&page=2")
    );
    let second = r#"<div class="py-1"><div class="card-name"><span>Two</span></div>
        <div class="card-name"><span>One</span></div></div>"#;
    assert_eq!(crawl.accept_body(second), 1);
    assert_eq!(crawl.next_fetch(), None);
    let result = crawl.finish().unwrap().unwrap();
    assert_eq!(result.colors, vec![Color::Green]);
    assert_eq!(result.format, Some(Format::Commander));
    assert_eq!(result.combos, vec![combo(&["One"]), combo(&["Two", "One"])]);
    assert_eq!(result.cards, vec![("One".to_string(), 2), ("Two".to_string(), 1)]);
}
