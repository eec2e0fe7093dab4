use combo_crawler::color::Color;
use combo_crawler::selection::card_name;
use combo_crawler::selection::related_cards;
use combo_crawler::selection::remove_card;
use combo_crawler::selection::selected_cards;
use combo_crawler::selection::selected_colors;
use combo_crawler::selection::unselect_all;

fn row(name: &str, shown: bool, pooled: bool) -> (String, bool, bool) {
    (name.to_string(), shown, pooled)
}

fn combo(names: &[&str]) -> Vec<String> {
    names.iter().map(|name| name.to_string()).collect()
}

#[test]
fn selected_colors_are_the_ticked_ones() {
    let mut list = Color::check_list();
    assert_eq!(selected_colors(&list), vec![]);
    list[1].1 = true;
    list[4].1 = true;
    assert_eq!(selected_colors(&list), vec![Color::Blue, Color::Green]);
    for entry in list.iter_mut() {
        entry.1 = true;
    }
    assert_eq!(selected_colors(&list), Color::all());
}

#[test]
fn selected_cards_are_those_to_be_shown() {
    let cards = vec![row("a", false, true), row("b", true, false), row("c", true, true)];
    assert_eq!(selected_cards(&cards), vec!["b".to_string(), "c".to_string()]);
    assert_eq!(selected_cards(&vec![]), Vec::<String>::new());
}

#[test]
fn card_name_of_nothing_typed_is_none() {
    assert_eq!(card_name(""), None);
    assert_eq!(card_name("Sol Ring"), Some("Sol Ring".to_string()));
    assert_eq!(card_name(" "), Some(" ".to_string()));
}

#[test]
fn unselect_all_clears_both_marks() {
    let mut cards = vec![row("a", false, true), row("b", true, false), row("c", true, true)];
    unselect_all(&mut cards);
    assert_eq!(cards, vec![row("a", false, false), row("b", false, false), row("c", false, false)]);
}

#[test]
fn remove_card_removes_every_card_of_that_name() {
    let mut cards = vec![row("a", false, true), row("b", true, false), row("a", true, true)];
    remove_card(&mut cards, "a");
    assert_eq!(cards, vec![row("b", true, false)]);
    remove_card(&mut cards, "zz");
    assert_eq!(cards, vec![row("b", true, false)]);
}

#[test]
fn related_cards_count_within_the_combos_of_the_card() {
    let combos = vec![
        combo(&["Ring", "Vault"]),
        combo(&["Key", "Vault"]),
        combo(&["Ring", "Key"]),
        combo(&["Ring", "Vault", "Orb"]),
    ];
    assert_eq!(
        related_cards(&combos, "Ring"),
        vec![
            ("Ring".to_string(), 3),
            ("Vault".to_string(), 2),
            ("Orb".to_string(), 1),
            ("Key".to_string(), 1),
        ]
    );
    assert_eq!(related_cards(&combos, "None"), vec![]);
}
