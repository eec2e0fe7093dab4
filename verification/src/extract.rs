//! Reading a page of search results: which combos it lists, and whether
//! another page follows.
//!
//! The page is parsed and queried by the `scraper` crate. What `scraper`
//! finds is taken as given; how the combos are put together from it is
//! stated and proved here.

use vstd::prelude::*;
use crate::error::CrawlError;
use crate::text::concat;

verus! {

/// What a page of search results holds.
#[derive(Debug, Clone)]
pub struct PageContent {
    /// The combos listed on the page, in the order found; each is the list
    /// of its cards' names. A combo may be empty.
    pub combos: Vec<Vec<String>>,
    /// Whether the page links to a further page of results.
    pub has_next_page: bool,
}

/// A page's content, as contracts see it.
pub struct PageView {
    pub combos: Seq<Seq<Seq<char>>>,
    pub has_next_page: bool,
}

impl View for PageContent {
    type V = PageView;

    open spec fn view(&self) -> PageView {
        PageView { combos: self.combos.deep_view(), has_next_page: self.has_next_page }
    }
}

/// The selector of the element that holds one combo.
pub open spec fn combo_selector() -> Seq<char> {
    "div.py-1"@
}

/// The selector, within a combo's element, of the elements that hold a
/// card's name.
pub open spec fn name_selector() -> Seq<char> {
    "div.card-name span"@
}

/// The selector of the button that leads to the next page.
pub open spec fn next_selector() -> Seq<char> {
    "button.forward-button"@
}

/// What `scraper` finds in the HTML document `body`: for each element that
/// matches `group`, in the order in which `scraper` visits them, and for
/// each element below it that matches `name`, the text nodes below that
/// element; and the number of elements that match `next`. `None` where one
/// of the three selectors is not a selector that `scraper` accepts.
pub uninterp spec fn page_scan(
    body: Seq<char>,
    group: Seq<char>,
    name: Seq<char>,
    next: Seq<char>,
) -> Option<(Seq<Seq<Seq<Seq<char>>>>, usize)>;

/// Parses `body` with `scraper::Html::parse_document` and the three
/// selectors with `scraper::Selector::parse`, then walks the matches of
/// `scraper::Html::select`, below each of them those of
/// `scraper::ElementRef::select`, and collects what
/// `scraper::ElementRef::text` yields for each. The contract claims only
/// that the outcome is a function of the four texts, which it names
/// [`page_scan`]: parsing and matching read nothing else.
#[verifier::external_body]
fn scan_page(body: &str, group: &str, name: &str, next: &str) -> (found: Option<
    (Vec<Vec<Vec<String>>>, usize),
>)
    ensures
        found.deep_view() == page_scan(body@, group@, name@, next@),
{
    let group = scraper::Selector::parse(group).ok()?;
    let name = scraper::Selector::parse(name).ok()?;
    let next = scraper::Selector::parse(next).ok()?;
    let document = scraper::Html::parse_document(body);
    let texts = document
        .select(&group)
        .map(|g| g.select(&name).map(|n| n.text().map(String::from).collect()).collect())
        .collect();
    Some((texts, document.select(&next).count()))
}

/// The combos that the scanned texts stand for: a card's name is the text
/// nodes of its element, one after the other.
pub open spec fn page_combos(texts: Seq<Seq<Seq<Seq<char>>>>) -> Seq<Seq<Seq<char>>> {
    texts.map_values(
        |group: Seq<Seq<Seq<char>>>| group.map_values(|pieces: Seq<Seq<char>>| concat(pieces)),
    )
}

/// The content that a scan stands for.
pub open spec fn page_content(texts: Seq<Seq<Seq<Seq<char>>>>, next_matches: usize) -> PageView {
    PageView { combos: page_combos(texts), has_next_page: next_matches > 0 }
}

/// What [`extract`] returns for a page, given what `scraper` finds in it.
pub open spec fn extraction(scan: Option<(Seq<Seq<Seq<Seq<char>>>>, usize)>) -> Result<
    PageView,
    CrawlError,
> {
    match scan {
        Some((texts, next_matches)) => Ok(page_content(texts, next_matches)),
        None => Err(CrawlError::Extraction),
    }
}

/// The text nodes of one name, put together.
fn join_pieces(pieces: &Vec<String>) -> (name: String)
    ensures
        name@ == concat(pieces.deep_view()),
{
    let mut name = String::new();
    let mut i: usize = 0;
    assert(pieces.deep_view().take(0) =~= Seq::empty());
    while i < pieces.len()
        invariant
            i <= pieces.len(),
            name@ == concat(pieces.deep_view().take(i as int)),
        decreases pieces.len() - i,
    {
        name.append(pieces[i].as_str());
        proof {
            let upto = pieces.deep_view().take(i + 1);
            assert(upto.drop_last() =~= pieces.deep_view().take(i as int));
            assert(upto.last() == pieces@[i as int]@);
        }
        i += 1;
    }
    assert(pieces.deep_view().take(pieces.len() as int) =~= pieces.deep_view());
    name
}

/// The names of one combo.
fn join_group(group: &Vec<Vec<String>>) -> (combo: Vec<String>)
    ensures
        combo.deep_view() == group.deep_view().map_values(
            |pieces: Seq<Seq<char>>| concat(pieces),
        ),
{
    let mut combo: Vec<String> = Vec::new();
    let mut i: usize = 0;
    while i < group.len()
        invariant
            i <= group.len(),
            combo@.len() == i,
            forall|j: int| 0 <= j < i ==> combo@[j]@ == concat(group@[j].deep_view()),
        decreases group.len() - i,
    {
        combo.push(join_pieces(&group[i]));
        i += 1;
    }
    assert(combo.deep_view() =~= group.deep_view().map_values(
        |pieces: Seq<Seq<char>>| concat(pieces),
    ));
    combo
}

/// The content of a page, from what was found in it: `texts` holds, for
/// each combo and each of its cards, the text nodes of the card's name, and
/// `next_matches` is the number of buttons that lead to a next page.
pub fn assemble_page(texts: &Vec<Vec<Vec<String>>>, next_matches: usize) -> (page: PageContent)
    ensures
        page@ == page_content(texts.deep_view(), next_matches),
{
    let mut combos: Vec<Vec<String>> = Vec::new();
    let mut i: usize = 0;
    while i < texts.len()
        invariant
            i <= texts.len(),
            combos@.len() == i,
            forall|j: int|
                0 <= j < i ==> combos@[j].deep_view() == texts@[j].deep_view().map_values(
                    |pieces: Seq<Seq<char>>| concat(pieces),
                ),
        decreases texts.len() - i,
    {
        combos.push(join_group(&texts[i]));
        i += 1;
    }
    assert(combos.deep_view() =~= page_combos(texts.deep_view()));
    PageContent { combos, has_next_page: next_matches > 0 }
}

/// A page that was read, or why it was not, as contracts see it.
pub open spec fn read_view(page: Result<PageContent, CrawlError>) -> Result<PageView, CrawlError> {
    match page {
        Ok(content) => Ok(content@),
        Err(error) => Err(error),
    }
}

/// Reads a page of results whose combos are the elements that match
/// `combo`, whose card names are the elements below them that match
/// `name`, and whose link to the next page matches `next`. Fails where
/// the page cannot be queried in this way.
pub fn extract_with(body: &str, combo: &str, name: &str, next: &str) -> (page: Result<
    PageContent,
    CrawlError,
>)
    ensures
        read_view(page) == extraction(page_scan(body@, combo@, name@, next@)),
{
    match scan_page(body, combo, name, next) {
        Some((texts, next_matches)) => Ok(assemble_page(&texts, next_matches)),
        None => Err(CrawlError::Extraction),
    }
}

/// Reads a page of search results of the combo database. Fails where the
/// page cannot be queried.
pub fn extract(body: &str) -> (page: Result<PageContent, CrawlError>)
    ensures
        read_view(page) == extraction(
            page_scan(body@, combo_selector(), name_selector(), next_selector()),
        ),
{
    extract_with(body, "div.py-1", "div.card-name span", "button.forward-button")
}

} // verus!
