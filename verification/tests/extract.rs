use combo_crawler::error::CrawlError;
use combo_crawler::extract::assemble_page;
use combo_crawler::extract::extract;
use combo_crawler::extract::extract_with;

const PAGE: &str = r#"<!DOCTYPE html>
<html><body>
<div class="py-1">
  <div class="card-name"><span>Ashnod's Altar</span></div>
  <div class="card-name"><span>Ghave, <b>Guru</b> of Spores</span></div>
</div>
<div class="py-1"><p>no cards here</p></div>
<div class="py-1 other">
  <div class="card-name"><span>Sol Ring</span><span>Mana Vault</span></div>
</div>
<div class="card-name"><span>Outside any combo</span></div>
<button class="forward-button">next</button>
</body></html>"#;

fn combo(names: &[&str]) -> Vec<String> {
    names.iter().map(|name| name.to_string()).collect()
}

#[test]
fn extract_reads_combos_and_next_button() {
    let page = extract(PAGE).unwrap();
    assert_eq!(
        page.combos,
        vec![
            combo(&["Ashnod's Altar", "Ghave, Guru of Spores"]),
            combo(&[]),
            combo(&["Sol Ring", "Mana Vault"]),
        ]
    );
    assert!(page.has_next_page);
}

#[test]
fn extract_without_button_is_the_last_page() {
    let body = r#"<div class="py-1"><div class="card-name"><span>Only</span></div></div>"#;
    let page = extract(body).unwrap();
    assert_eq!(page.combos, vec![combo(&["Only"])]);
    assert!(!page.has_next_page);
}

#[test]
fn extract_of_text_without_markup_finds_nothing() {
    for body in ["", "plain text", "<<<>>>"] {
        let page = extract(body).unwrap();
        assert!(page.combos.is_empty());
        assert!(!page.has_next_page);
    }
}

#[test]
fn assemble_joins_text_nodes_and_counts_buttons() {
    let texts = vec![
        vec![combo(&["Gha", "ve"]), combo(&[]), combo(&["x"])],
        vec![],
    ];
    let page = assemble_page(&texts, 2);
    assert_eq!(page.combos, vec![combo(&["Ghave", "", "x"]), combo(&[])]);
    assert!(page.has_next_page);
    assert!(!assemble_page(&texts, 0).has_next_page);
}

#[test]
fn extract_with_other_selectors_reads_other_pages() {
    let body = "<ul><li><i>a</i><i>b</i></li><li><i>c</i></li></ul><a href=x>more</a>";
    let page = extract_with(body, "li", "i", "a").unwrap();
    assert_eq!(page.combos, vec![combo(&["a", "b"]), combo(&["c"])]);
    assert!(page.has_next_page);
    let page = extract_with(body, "li", "b", "ul > a").unwrap();
    assert_eq!(page.combos, vec![combo(&[]), combo(&[])]);
    assert!(!page.has_next_page);
}

#[test]
fn selector_that_cannot_be_read_is_an_extraction_error() {
    for (combo, name, next) in [("div[", "i", "a"), ("li", "", "a"), ("li", "i", "a >")] {
        assert_eq!(
            extract_with("<li><i>a</i></li>", combo, name, next).unwrap_err(),
            CrawlError::Extraction
        );
    }
    assert_eq!(CrawlError::Extraction.message(), "the page could not be read");
    assert_eq!(CrawlError::Network.message(), "the page could not be fetched");
    assert_eq!(CrawlError::StoreIo.message(), "the page store cannot be used");
    assert_eq!(CrawlError::StoreContention.message(), "the page store is busy");
}
