use combo_crawler::color::Color;
use combo_crawler::color::Format;

#[test]
fn all_lists_the_six_colors_in_order() {
    assert_eq!(
        Color::all(),
        vec![
            Color::White,
            Color::Blue,
            Color::Black,
            Color::Red,
            Color::Green,
            Color::Colorless,
        ]
    );
}

#[test]
fn check_list_has_every_color_unticked() {
    let list = Color::check_list();
    assert_eq!(list.len(), 6);
    for (entry, color) in list.iter().zip(Color::all()) {
        assert_eq!(*entry, (color, false));
    }
}

#[test]
fn letters_are_those_of_a_query() {
    let letters: String = Color::all().into_iter().map(Color::letter).collect();
    assert_eq!(letters, "wubrgc");
}

#[test]
fn format_keywords() {
    assert_eq!(Format::Brawl.keyword(), "brawl");
    assert_eq!(Format::Commander.keyword(), "commander");
}
