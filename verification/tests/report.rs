use combo_crawler::aggregate::aggregate;
use combo_crawler::aggregate::CrawlerResult;
use combo_crawler::report::follow_up_cards;
use combo_crawler::report::gather;
use combo_crawler::report::holds_name;
use combo_crawler::report::make_report;
use combo_crawler::report::render_report;
use combo_crawler::report::ComboReport;
use combo_crawler::report::ReportRules;
use std::collections::HashMap;
use std::collections::HashSet;

fn combo(names: &[&str]) -> Vec<String> {
    names.iter().map(|name| name.to_string()).collect()
}

fn result(combos: Vec<Vec<String>>) -> CrawlerResult {
    CrawlerResult { colors: vec![], card: None, format: None, cards: vec![], combos }
}

fn by_hand(
    results: &[CrawlerResult],
    card: &Option<String>,
    rules: ReportRules,
) -> (HashSet<String>, Vec<Vec<String>>) {
    let mut card_counts: HashMap<String, u32> = HashMap::new();
    let mut total_combos = vec![];
    for result in results {
        let mut combos = result.combos.clone();
        for i in (0..combos.len()).rev() {
            if combos[i].len() > rules.max_cards {
                combos.remove(i);
            }
        }
        for combo in combos.iter() {
            for card in combo.iter() {
                *card_counts.entry(card.clone()).or_insert(0) += 1;
            }
            if !combo.is_empty() {
                total_combos.push(combo.clone());
            }
        }
    }
    for (card_to_check, count) in card_counts.iter() {
        if *count < rules.min_count && *card != Some(card_to_check.clone()) {
            total_combos.retain(|combo| !combo.contains(card_to_check));
        }
    }
    total_combos.dedup();
    let mut cards = HashSet::new();
    if let Some(card) = card.clone() {
        cards.insert(card);
    }
    for combo in total_combos.iter() {
        for card in combo.iter() {
            cards.insert(card.clone());
        }
    }
    let filtered = total_combos
        .into_iter()
        .filter(|combo| card.as_ref().map_or(true, |card| combo.contains(card)))
        .collect();
    (cards, filtered)
}

fn samples() -> Vec<CrawlerResult> {
    vec![
        result(vec![
            combo(&["Ring", "Vault"]),
            combo(&["Ring", "Vault"]),
            combo(&["Ring", "Vault", "Monolith", "Key"]),
            combo(&[]),
            combo(&["Ring", "Key"]),
        ]),
        result(vec![]),
        result(vec![
            combo(&["Ring", "Key"]),
            combo(&["Vault", "Key"]),
            combo(&["Ring", "Vault"]),
            combo(&["Orb"]),
            combo(&["Ring", "Ring", "Vault"]),
        ]),
    ]
}

#[test]
fn report_agrees_with_the_rules_applied_by_hand() {
    let results = samples();
    for card in [None, Some("Ring".to_string()), Some("Orb".to_string()), Some("Nothing".to_string())] {
        for max_cards in [0, 1, 2, 3, 4] {
            for min_count in [0, 1, 2, 3, 4, 5, 20] {
                let rules = ReportRules { max_cards, min_count };
                let made = make_report(&results, &card, rules);
                let (cards, combos) = by_hand(&results, &card, rules);
                assert_eq!(made.combos, combos, "{card:?} {rules:?}");
                let listed: HashSet<String> = made.cards.iter().cloned().collect();
                assert_eq!(listed.len(), made.cards.len(), "{card:?} {rules:?}");
                assert_eq!(listed, cards, "{card:?} {rules:?}");
            }
        }
    }
}

#[test]
fn report_of_a_concrete_search() {
    let rules = ReportRules { max_cards: 3, min_count: 3 };
    let made = make_report(&samples(), &Some("Key".to_string()), rules);
    assert_eq!(
        made.combos,
        vec![combo(&["Ring", "Key"]), combo(&["Vault", "Key"])]
    );
    assert_eq!(made.cards, combo(&["Key", "Ring", "Vault"]));
}

#[test]
fn gather_takes_the_small_combos_of_all_results() {
    let small = gather(&samples(), ReportRules { max_cards: 1, min_count: 0 });
    assert_eq!(small, vec![combo(&[]), combo(&["Orb"])]);
}

#[test]
fn report_text_has_the_shape_of_the_file() {
    let report = ComboReport {
        cards: combo(&["Key", "Ring", "Vault"]),
        combos: vec![combo(&["Ring", "Key"]), combo(&["Vault", "Key", "Ring"])],
    };
    assert_eq!(
        render_report(&report),
        "-----\nCards: 3\n-----\nKey\nRing\nVault\n\n\n\n-----\nCombos: 2\n-----\nRing, Key\nVault, Key, Ring"
    );
    let empty = ComboReport { cards: vec![], combos: vec![] };
    assert_eq!(render_report(&empty), "-----\nCards: 0\n-----\n\n\n\n\n-----\nCombos: 0\n-----\n");
}

#[test]
fn report_text_counts_past_nine() {
    let names: Vec<String> = (0..12).map(|i| format!("c{i}")).collect();
    let report = ComboReport { cards: names.clone(), combos: vec![] };
    let text = render_report(&report);
    assert!(text.starts_with("-----\nCards: 12\n-----\nc0\nc1\n"));
    assert!(text.ends_with("c11\n\n\n\n-----\nCombos: 0\n-----\n"));
}

#[test]
fn follow_up_cards_leave_out_the_card_asked_for() {
    let found = vec![combo(&["Ring", "Vault"]), combo(&["Ring", "Key"])];
    let result = aggregate(vec![], Some("Ring".to_string()), None, &found);
    assert_eq!(follow_up_cards(&result, &result.card), combo(&["Vault", "Key"]));
    assert_eq!(follow_up_cards(&result, &None), combo(&["Ring", "Vault", "Key"]));
    assert_eq!(
        follow_up_cards(&result, &Some("ring".to_string())),
        combo(&["Ring", "Vault", "Key"])
    );
}

#[test]
fn holds_name_looks_for_the_whole_name() {
    let held = combo(&["Sol Ring", "Mana Vault"]);
    assert!(holds_name(&held, "Sol Ring"));
    assert!(!holds_name(&held, "Sol"));
    assert!(!holds_name(&combo(&[]), ""));
}
