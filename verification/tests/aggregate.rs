use combo_crawler::aggregate::aggregate;
use combo_crawler::aggregate::dedup_combos;
use combo_crawler::aggregate::rank_cards;
use combo_crawler::aggregate::same_combo;
use combo_crawler::aggregate::tally_cards;
use combo_crawler::color::Color;
use combo_crawler::color::Format;
use combo_crawler::text::name_precedes;

fn combo(names: &[&str]) -> Vec<String> {
    names.iter().map(|name| name.to_string()).collect()
}

fn entry(name: &str, count: u32) -> (String, u32) {
    (name.to_string(), count)
}

#[test]
fn repeated_combo_is_listed_once_but_counted_twice() {
    let found = vec![combo(&["Card A", "Card B"]), combo(&["Card A", "Card B"]), combo(&["Card C"])];
    let result = aggregate(vec![], None, None, &found);
    assert_eq!(result.combos.len(), 2);
    assert_eq!(result.combos, vec![combo(&["Card A", "Card B"]), combo(&["Card C"])]);
    let count = |name: &str| result.cards.iter().find(|(card, _)| card == name).map(|(_, n)| *n);
    assert_eq!(count("Card A"), Some(2));
    assert_eq!(count("Card B"), Some(2));
    assert_eq!(count("Card C"), Some(1));
    assert_eq!(
        result.cards,
        vec![entry("Card B", 2), entry("Card A", 2), entry("Card C", 1)]
    );
}

#[test]
fn equal_counts_are_listed_from_the_last_name_down() {
    let ranked = rank_cards(vec![entry("Zebra", 3), entry("Apple", 3), entry("Mango", 5)]);
    assert_eq!(ranked, vec![entry("Mango", 5), entry("Zebra", 3), entry("Apple", 3)]);
}

#[test]
fn ranking_is_the_reverse_of_std_sort_by_count_then_name() {
    let cards = vec![
        entry("b", 2),
        entry("", 2),
        entry("ab", 7),
        entry("a", 7),
        entry("Éclair", 1),
        entry("z", 1),
        entry("\u{10FFFF}", 1),
        entry("B", 2),
    ];
    let mut expected = cards.clone();
    expected.sort_unstable_by_key(|a| (a.1, a.0.clone()));
    expected.reverse();
    assert_eq!(rank_cards(cards), expected);
}

#[test]
fn ranking_of_nothing_is_nothing() {
    assert_eq!(rank_cards(vec![]), Vec::<(String, u32)>::new());
}

#[test]
fn names_are_ordered_as_std_orders_strings() {
    let names = ["", "a", "A", "ab", "b", "é", "z", "\u{800}", "\u{ffff}", "\u{10000}", "a\u{0}"];
    for a in names {
        for b in names {
            assert_eq!(name_precedes(a, b), a <= b, "{a:?} against {b:?}");
        }
    }
}

#[test]
fn tally_counts_every_occurrence_in_order_of_first_occurrence() {
    let found = vec![combo(&["x", "y", "x"]), combo(&[]), combo(&["y", "z"]), combo(&["x"])];
    assert_eq!(tally_cards(&found), vec![entry("x", 3), entry("y", 2), entry("z", 1)]);
    assert_eq!(tally_cards(&vec![]), Vec::<(String, u32)>::new());
}

#[test]
fn dedup_keeps_first_occurrences_wherever_the_repetition_stands() {
    let found = vec![
        combo(&["a", "b"]),
        combo(&["c"]),
        combo(&["a", "b"]),
        combo(&["b", "a"]),
        combo(&["c"]),
    ];
    assert_eq!(
        dedup_combos(&found),
        vec![combo(&["a", "b"]), combo(&["c"]), combo(&["b", "a"])]
    );
}

#[test]
fn combos_that_differ_in_order_are_different_combos() {
    assert!(same_combo(&combo(&["a", "b"]), &combo(&["a", "b"])));
    assert!(!same_combo(&combo(&["a", "b"]), &combo(&["b", "a"])));
    assert!(!same_combo(&combo(&["a"]), &combo(&["a", "a"])));
    assert!(same_combo(&combo(&[]), &combo(&[])));
}

#[test]
fn result_echoes_the_search() {
    let colors = vec![Color::Blue, Color::Red];
    let result = aggregate(
        colors.clone(),
        Some("Sol Ring".to_string()),
        Some(Format::Brawl),
        &vec![],
    );
    assert_eq!(result.colors, colors);
    assert_eq!(result.card.as_deref(), Some("Sol Ring"));
    assert_eq!(result.format, Some(Format::Brawl));
    assert!(result.cards.is_empty());
    assert!(result.combos.is_empty());
}
