use combo_crawler::aggregate::aggregate;
use combo_crawler::crawl::CrawlPhase;
use combo_crawler::error::CrawlError;
use combo_crawler::task::CrawlerMsg;
use combo_crawler::task::CrawlerTask;
use combo_crawler::task::CrawlerThreadMsg;

fn finished(names: &[&str]) -> CrawlerMsg {
    let combos = vec![names.iter().map(|name| name.to_string()).collect::<Vec<String>>()];
    CrawlerMsg::Finished { result: Ok(aggregate(vec![], None, None, &combos)) }
}

#[test]
fn new_task_has_nothing_to_show() {
    let (mut task, mut crawl) = CrawlerTask::new(vec![], Some("Sol Ring".to_string()), None);
    assert_eq!(task.combos_found(), 0);
    assert!(!task.is_finished());
    assert!(!task.has_result());
    assert!(task.poll_result().is_none());
    assert_eq!(crawl.phase(), CrawlPhase::Running);
    assert_eq!(
        crawl.next_fetch().as_deref(),
        Some("https://commanderspellbook.com/search/?q=card%3A%22Sol%20Ring%22&page=1")
    );
}

#[test]
fn update_counts_combos_and_holds_the_result() {
    let (mut task, _) = CrawlerTask::new(vec![], None, None);
    task.update(vec![CrawlerMsg::FoundCombo, CrawlerMsg::FoundCombo]);
    assert_eq!(task.combos_found(), 2);
    task.update(vec![]);
    assert_eq!(task.combos_found(), 2);
    task.update(vec![CrawlerMsg::FoundCombo, finished(&["a", "b"])]);
    assert_eq!(task.combos_found(), 3);
    assert!(task.is_finished());
    assert!(task.has_result());
    let result = task.poll_result().unwrap().unwrap();
    assert_eq!(result.cards, vec![("b".to_string(), 1), ("a".to_string(), 1)]);
}

#[test]
fn result_is_taken_once() {
    let (mut task, _) = CrawlerTask::new(vec![], None, None);
    task.apply(finished(&["a"]));
    assert!(task.poll_result().is_some());
    assert!(task.poll_result().is_none());
    assert!(!task.has_result());
    assert!(task.is_finished());
}

#[test]
fn second_outcome_is_dropped() {
    let (mut task, _) = CrawlerTask::new(vec![], None, None);
    task.update(vec![
        CrawlerMsg::Finished { result: Err(CrawlError::Network) },
        finished(&["a"]),
    ]);
    assert_eq!(task.poll_result().unwrap().unwrap_err(), CrawlError::Network);
    task.apply(finished(&["b"]));
    assert!(task.poll_result().is_none());
}

#[test]
fn stop_is_signalled_once() {
    let (mut task, _) = CrawlerTask::new(vec![], None, None);
    assert_eq!(task.stop(), Some(CrawlerThreadMsg::Stop));
    assert_eq!(task.stop(), None);
    task.apply(CrawlerMsg::FoundCombo);
    assert_eq!(task.stop(), None);
    assert_eq!(task.combos_found(), 1);
}

#[test]
fn stop_after_the_end_signals_nothing() {
    let (mut task, _) = CrawlerTask::new(vec![], None, None);
    task.apply(finished(&[]));
    assert_eq!(task.stop(), None);
    assert!(task.has_result());
}
