use combo_crawler::color::Color;
use combo_crawler::color::Format;
use combo_crawler::query::commander_spellbook_search;
use combo_crawler::query::page_url;

#[test]
fn commander_spellbook_search_ghave() {
    let cases = vec![
        (
            vec![],
            Some("Ghave, Guru of Spores".to_string()),
            None,
            "https://commanderspellbook.com/search/?q=card%3A%22Ghave%2C%20Guru%20of%20Spores%22",
        ),
        (
            vec![],
            None,
            Some(Format::Commander),
            "https://commanderspellbook.com/search/?q=legal%3Acommander",
        ),
        (
            vec![],
            None,
            Some(Format::Brawl),
            "https://commanderspellbook.com/search/?q=legal%3Abrawl",
        ),
        (
            vec![],
            Some("Ashnod's Altar".to_string()),
            None,
            "https://commanderspellbook.com/search/?q=card%3A%22Ashnod%27s%20Altar%22",
        ),
        (
            vec![Color::White, Color::Green, Color::Black],
            Some("Ashnod's Altar".to_string()),
            None,
            "https://commanderspellbook.com/search/?q=card%3A%22Ashnod%27s%20Altar%22%20ci%3A%22wgb%22",
        ),
        (
            vec![Color::White, Color::Green, Color::Black],
            Some("Ashnod's Altar".to_string()),
            Some(Format::Commander),
            "https://commanderspellbook.com/search/?q=card%3A%22Ashnod%27s%20Altar%22%20ci%3A%22wgb%22%20legal%3Acommander",
        ),
        (
            vec![Color::White, Color::Green, Color::Black],
            None,
            None,
            "https://commanderspellbook.com/search/?q=ci%3A%22wgb%22",
        ),
    ];

    for (colors, card, format, expected) in cases {
        let actual = commander_spellbook_search(&colors, card, format);
        assert_eq!(expected, actual);
    }
}

#[test]
fn search_without_terms_is_the_bare_address() {
    let url = commander_spellbook_search(&vec![], None, None);
    assert_eq!(url, "https://commanderspellbook.com/search/?q=");
}

#[test]
fn card_name_is_trimmed_like_std_trims() {
    for name in ["  Sol Ring \t", "\u{a0}Sol Ring\u{3000}", "\nSol Ring\r\n", "Sol Ring"] {
        let url = commander_spellbook_search(&vec![], Some(name.to_string()), None);
        assert_eq!(url, "https://commanderspellbook.com/search/?q=card%3A%22Sol%20Ring%22");
    }
    let blank = commander_spellbook_search(&vec![], Some(" \t ".to_string()), None);
    assert_eq!(blank, "https://commanderspellbook.com/search/?q=card%3A%22%22");
}

#[test]
fn inner_white_space_other_than_a_space_is_kept() {
    let url = commander_spellbook_search(&vec![], Some("a\tb, c'd".to_string()), None);
    assert_eq!(url, "https://commanderspellbook.com/search/?q=card%3A%22a\tb%2C%20c%27d%22");
}

#[test]
fn page_url_appends_the_page_number() {
    assert_eq!(page_url("https://x/?q=a", 1), "https://x/?q=a&page=1");
    assert_eq!(page_url("https://x/?q=a", 10), "https://x/?q=a&page=10");
    assert_eq!(page_url("", 0), "&page=0");
    assert_eq!(page_url("b", 4294967295), "b&page=4294967295");
    assert_eq!(page_url("b", 1203), "b&page=1203");
}
