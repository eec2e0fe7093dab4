//! The crawl of one search, as a state machine without I/O.
//!
//! A crawl walks the pages of a search's results in order. It says which
//! page to fetch next, takes in each page once it has been fetched, and
//! hands out its result when no page is left or when it has been told to
//! stop. Fetching is the caller's part: the caller asks [`Crawl::next_fetch`]
//! for a URL, gets that page, and passes it to [`Crawl::accept_body`], until
//! `next_fetch` has no URL left; then [`Crawl::finish`] yields the result.

use vstd::prelude::*;
use crate::aggregate::aggregate;
use crate::aggregate::copy_combo;
use crate::aggregate::summary;
use crate::aggregate::CrawlerResult;
use crate::aggregate::ResultView;
use crate::color::Color;
use crate::color::Format;
use crate::error::CrawlError;
use crate::extract::extract;
use crate::extract::extraction;
use crate::extract::combo_selector;
use crate::extract::name_selector;
use crate::extract::next_selector;
use crate::extract::page_scan;
use crate::extract::PageContent;
use crate::extract::PageView;
use crate::query::commander_spellbook_search;
use crate::query::page_url;
use crate::query::page_url_spec;
use crate::query::search_url;

verus! {

/// Where a crawl stands.
#[derive(Debug, Clone, Copy, PartialEq, Eq, Hash, Structural)]
pub enum CrawlPhase {
    /// Pages are being fetched.
    Running,
    /// No further page will be fetched; the result has not been handed out.
    Stopping,
    /// The result has been handed out.
    Finished,
}

/// The state of the crawl of one search.
#[derive(Debug)]
pub struct Crawl {
    colors: Vec<Color>,
    card: Option<String>,
    format: Option<Format>,
    page: u32,
    combos: Vec<Vec<String>>,
    cancelled: bool,
    failure: Option<CrawlError>,
    phase: CrawlPhase,
}

/// A crawl's state, as contracts see it.
pub struct CrawlView {
    /// The colors the search is scoped to.
    pub colors: Seq<Color>,
    /// The card the search asks for, if any.
    pub card: Option<Seq<char>>,
    /// The format the search is scoped to, if any.
    pub format: Option<Format>,
    /// The number of the page to fetch next; pages count from one.
    pub page: nat,
    /// The combos found so far that hold a card, repetitions included.
    pub combos: Seq<Seq<Seq<char>>>,
    /// Whether the crawl has been told to stop.
    pub cancelled: bool,
    /// Why the crawl failed, if it did.
    pub failure: Option<CrawlError>,
    /// Where the crawl stands.
    pub phase: CrawlPhase,
}

/// Whether a combo holds a card.
pub open spec fn holds_cards() -> spec_fn(Seq<Seq<char>>) -> bool {
    |combo: Seq<Seq<char>>| combo.len() > 0
}

/// The combos that a crawl keeps of `pages`: those that hold a card, page
/// after page.
pub open spec fn kept_combos(pages: Seq<PageView>) -> Seq<Seq<Seq<char>>>
    decreases pages.len(),
{
    if pages.len() == 0 {
        Seq::empty()
    } else {
        kept_combos(pages.drop_last()) + pages.last().combos.filter(holds_cards())
    }
}

/// What a crawl hands out in the end: its result, or why it failed.
pub open spec fn outcome_view(outcome: Result<CrawlerResult, CrawlError>) -> Result<
    ResultView,
    CrawlError,
> {
    match outcome {
        Ok(result) => Ok(result@),
        Err(error) => Err(error),
    }
}

impl CrawlView {
    /// The state of a crawl that has just been set up for a search.
    pub open spec fn initial(
        colors: Seq<Color>,
        card: Option<Seq<char>>,
        format: Option<Format>,
    ) -> CrawlView {
        CrawlView {
            colors,
            card,
            format,
            page: 1,
            combos: Seq::empty(),
            cancelled: false,
            failure: None,
            phase: CrawlPhase::Running,
        }
    }

    /// The URL of the page to fetch next.
    pub open spec fn url(self) -> Seq<char> {
        page_url_spec(search_url(self.colors, self.card, self.format), self.page)
    }

    /// The state after the crawl has been told to stop. Nothing else
    /// changes: the crawl notices at the next page boundary.
    pub open spec fn cancel(self) -> CrawlView {
        CrawlView { cancelled: true, ..self }
    }

    /// The state at a page boundary: a running crawl that has been told to
    /// stop stops here.
    pub open spec fn at_boundary(self) -> CrawlView {
        if self.phase == CrawlPhase::Running && self.cancelled {
            CrawlView { phase: CrawlPhase::Stopping, ..self }
        } else {
            self
        }
    }

    /// The page to fetch at a page boundary, if the crawl goes on.
    pub open spec fn next_fetch(self) -> Option<Seq<char>> {
        if self.at_boundary().phase == CrawlPhase::Running {
            Some(self.url())
        } else {
            None
        }
    }

    /// The state after a fetched page has been taken in. A running crawl
    /// keeps the page's combos that hold a card, and goes on to the next
    /// page if the page names one and page numbers are left; else it stops.
    /// A crawl that is not running ignores the page.
    pub open spec fn accept(self, page: PageView) -> CrawlView {
        if self.phase == CrawlPhase::Running {
            let combos = self.combos + page.combos.filter(holds_cards());
            if page.has_next_page && self.page < u32::MAX {
                CrawlView { combos, page: self.page + 1, ..self }
            } else {
                CrawlView { combos, phase: CrawlPhase::Stopping, ..self }
            }
        } else {
            self
        }
    }

    /// The state after a page could not be had or read: a running crawl
    /// stops and keeps the reason.
    pub open spec fn fail(self, error: CrawlError) -> CrawlView {
        if self.phase == CrawlPhase::Running {
            CrawlView { failure: Some(error), phase: CrawlPhase::Stopping, ..self }
        } else {
            self
        }
    }

    /// The state after a page's text has been taken in, given what was
    /// found in the text.
    pub open spec fn accept_scan(
        self,
        scan: Option<(Seq<Seq<Seq<Seq<char>>>>, usize)>,
    ) -> CrawlView {
        match extraction(scan) {
            Ok(page) => self.accept(page),
            Err(error) => self.fail(error),
        }
    }

    /// What the crawl has to show: why it failed, or else the result made
    /// of all combos found.
    pub open spec fn outcome(self) -> Result<ResultView, CrawlError> {
        match self.failure {
            Some(error) => Err(error),
            None => Ok(summary(self.colors, self.card, self.format, self.combos)),
        }
    }

    /// The state after the outcome has been asked for: a crawl that has
    /// stopped is finished.
    pub open spec fn finish(self) -> CrawlView {
        if self.phase == CrawlPhase::Stopping {
            CrawlView { phase: CrawlPhase::Finished, ..self }
        } else {
            self
        }
    }

    /// The state after the crawl has gone through `pages`, one after the
    /// other: at each page boundary it looks whether to go on, and then
    /// takes in the page.
    pub open spec fn crawl_pages(self, pages: Seq<PageView>) -> CrawlView
        decreases pages.len(),
    {
        if pages.len() == 0 {
            self
        } else {
            self.crawl_pages(pages.drop_last()).at_boundary().accept(pages.last())
        }
    }

    /// The URLs that the crawl asks for while it goes through `pages`, in
    /// the order asked.
    pub open spec fn fetched(self, pages: Seq<PageView>) -> Seq<Seq<char>>
        decreases pages.len(),
    {
        if pages.len() == 0 {
            Seq::empty()
        } else {
            let before = self.fetched(pages.drop_last());
            match self.crawl_pages(pages.drop_last()).next_fetch() {
                Some(url) => before.push(url),
                None => before,
            }
        }
    }

    /// What asking for the outcome yields: the outcome of a crawl that has
    /// stopped, and nothing before that or after it was handed out.
    pub open spec fn handed_out(self) -> Option<Result<ResultView, CrawlError>> {
        if self.phase == CrawlPhase::Stopping {
            Some(self.outcome())
        } else {
            None
        }
    }
}

impl View for Crawl {
    type V = CrawlView;

    closed spec fn view(&self) -> CrawlView {
        CrawlView {
            colors: self.colors@,
            card: self.card.deep_view(),
            format: self.format,
            page: self.page as nat,
            combos: self.combos.deep_view(),
            cancelled: self.cancelled,
            failure: self.failure,
            phase: self.phase,
        }
    }
}

impl Crawl {
    /// Sets up the crawl of the search given by `colors`, `card` and
    /// `format`.
    pub fn new(colors: Vec<Color>, card: Option<String>, format: Option<Format>) -> (crawl: Crawl)
        ensures
            crawl@ == CrawlView::initial(colors@, card.deep_view(), format),
    {
        let crawl = Crawl {
            colors,
            card,
            format,
            page: 1,
            combos: Vec::new(),
            cancelled: false,
            failure: None,
            phase: CrawlPhase::Running,
        };
        assert(crawl.combos.deep_view() =~= Seq::empty());
        crawl
    }

    /// Where the crawl stands.
    pub fn phase(&self) -> (phase: CrawlPhase)
        ensures
            phase == self@.phase,
    {
        self.phase
    }

    /// How many combos the crawl has found so far.
    pub fn combos_found(&self) -> (found: usize)
        ensures
            found == self@.combos.len(),
    {
        self.combos.len()
    }

    /// Tells the crawl to stop. The crawl notices at the next page
    /// boundary; telling it again changes nothing.
    pub fn cancel(&mut self)
        ensures
            final(self)@ == old(self)@.cancel(),
    {
        self.cancelled = true;
    }

    /// At a page boundary: the URL of the page to fetch next, or `None`
    /// where the crawl fetches no further page.
    pub fn next_fetch(&mut self) -> (url: Option<String>)
        ensures
            final(self)@ == old(self)@.at_boundary(),
            url.deep_view() == old(self)@.next_fetch(),
    {
        match self.phase {
            CrawlPhase::Running => {
                if self.cancelled {
                    self.phase = CrawlPhase::Stopping;
                    None
                } else {
                    let search = commander_spellbook_search(
                        &self.colors,
                        copy_name(&self.card),
                        self.format,
                    );
                    Some(page_url(search.as_str(), self.page))
                }
            },
            _ => None,
        }
    }

    /// Takes in a fetched page. A running crawl keeps the page's combos that
    /// hold a card and returns how many these are; it goes on to the next
    /// page if the page names one, and stops if not. A crawl that is not
    /// running ignores the page.
    pub fn accept_page(&mut self, page: &PageContent) -> (found: usize)
        ensures
            final(self)@ == old(self)@.accept(page@),
            found == final(self)@.combos.len() - old(self)@.combos.len(),
    {
        match self.phase {
            CrawlPhase::Running => {},
            _ => {
                return 0;
            },
        }
        let ghost before = self.combos.deep_view();
        let ghost listed = page.combos.deep_view();
        let mut found: usize = 0;
        let mut i: usize = 0;
        proof {
            reveal(Seq::filter);
            assert(listed.take(0) =~= Seq::empty());
            assert(self.combos.deep_view() =~= before + listed.take(0).filter(holds_cards()));
        }
        while i < page.combos.len()
            invariant
                i <= page.combos.len(),
                listed == page.combos.deep_view(),
                self.combos.deep_view() == before + listed.take(i as int).filter(holds_cards()),
                found == listed.take(i as int).filter(holds_cards()).len(),
                found <= i,
                self.phase == old(self).phase,
                self.page == old(self).page,
                self.colors == old(self).colors,
                self.card == old(self).card,
                self.format == old(self).format,
                self.cancelled == old(self).cancelled,
                self.failure == old(self).failure,
            decreases page.combos.len() - i,
        {
            let ghost kept = listed.take(i as int).filter(holds_cards());
            proof {
                reveal(Seq::filter);
                let upto = listed.take(i + 1);
                assert(upto.drop_last() =~= listed.take(i as int));
                assert(upto.last() == listed[i as int]);
            }
            if page.combos[i].len() > 0 {
                let ghost prior = self.combos;
                self.combos.push(copy_combo(&page.combos[i]));
                proof {
                    let now = self.combos.deep_view();
                    let target = before + kept.push(listed[i as int]);
                    assert(prior.deep_view().len() == prior@.len());
                    assert(now.len() == target.len());
                    assert forall|j: int| 0 <= j < now.len() implies now[j] == target[j] by {
                        if j < prior@.len() {
                            assert(now[j] == prior.deep_view()[j]);
                        }
                    }
                    assert(now =~= target);
                }
                found += 1;
            }
            i += 1;
        }
        assert(listed.take(page.combos.len() as int) =~= listed);
        if page.has_next_page && self.page < u32::MAX {
            self.page += 1;
        } else {
            self.phase = CrawlPhase::Stopping;
        }
        found
    }

    /// Records that a page could not be had or read. A running crawl stops
    /// and will hand out `error` in place of a result; a crawl that is not
    /// running ignores the report.
    pub fn fail(&mut self, error: CrawlError)
        ensures
            final(self)@ == old(self)@.fail(error),
    {
        match self.phase {
            CrawlPhase::Running => {
                self.failure = Some(error);
                self.phase = CrawlPhase::Stopping;
            },
            _ => {},
        }
    }

    /// Takes in the text of a fetched page: reads the page and takes it in
    /// as [`Crawl::accept_page`] does, or, where the page cannot be read,
    /// records the failure as [`Crawl::fail`] does. Returns how many combos
    /// the crawl has kept from the page.
    pub fn accept_body(&mut self, body: &str) -> (found: usize)
        ensures
            final(self)@ == old(self)@.accept_scan(
                page_scan(body@, combo_selector(), name_selector(), next_selector()),
            ),
            found == final(self)@.combos.len() - old(self)@.combos.len(),
    {
        match extract(body) {
            Ok(page) => self.accept_page(&page),
            Err(error) => {
                self.fail(error);
                0
            },
        }
    }

    /// Hands out what the crawl has to show, once: a crawl that has stopped
    /// yields its result, or why it failed, and is finished. Before the
    /// crawl has stopped, and after it is finished, there is nothing to
    /// hand out.
    pub fn finish(&mut self) -> (outcome: Option<Result<CrawlerResult, CrawlError>>)
        ensures
            final(self)@ == old(self)@.finish(),
            match outcome {
                Some(o) => Some(outcome_view(o)),
                None => None,
            } == old(self)@.handed_out(),
    {
        match self.phase {
            CrawlPhase::Stopping => {},
            _ => {
                return None;
            },
        }
        self.phase = CrawlPhase::Finished;
        match self.failure {
            Some(error) => Some(Err(error)),
            None => {
                let colors = copy_colors(&self.colors);
                let card = copy_name(&self.card);
                Some(Ok(aggregate(colors, card, self.format, &self.combos)))
            },
        }
    }
}

/// A copy of `name`.
fn copy_name(name: &Option<String>) -> (copy: Option<String>)
    ensures
        copy == *name,
{
    match name {
        Some(text) => Some(text.clone()),
        None => None,
    }
}

/// A copy of `colors`.
fn copy_colors(colors: &Vec<Color>) -> (copy: Vec<Color>)
    ensures
        copy@ == colors@,
{
    let mut copy: Vec<Color> = Vec::new();
    let mut i: usize = 0;
    while i < colors.len()
        invariant
            i <= colors.len(),
            copy@ == colors@.take(i as int),
        decreases colors.len() - i,
    {
        copy.push(colors[i]);
        assert(colors@.take(i + 1) =~= colors@.take(i as int).push(colors@[i as int]));
        i += 1;
    }
    assert(colors@.take(colors.len() as int) =~= colors@);
    copy
}

/// A search that has no results has an empty result. The crawl asks for
/// the first page; when that page lists no combo with a card and names no
/// further page, the crawl stops, asks for nothing more, and hands out a
/// result without combos and without cards, which finishes it.
pub proof fn law_search_without_results(
    colors: Seq<Color>,
    card: Option<Seq<char>>,
    format: Option<Format>,
    page: PageView,
)
    requires
        page.combos.filter(holds_cards()).len() == 0,
        !page.has_next_page,
    ensures
        ({
            let start = CrawlView::initial(colors, card, format);
            let end = start.at_boundary().accept(page);
            &&& start.next_fetch() == Some(page_url_spec(search_url(colors, card, format), 1))
            &&& end.phase == CrawlPhase::Stopping
            &&& end.next_fetch() is None
            &&& end.handed_out() matches Some(Ok(result))
            &&& result.combos.len() == 0
            &&& result.cards.len() == 0
            &&& end.finish().phase == CrawlPhase::Finished
        }),
{
    let start = CrawlView::initial(colors, card, format);
    let end = start.at_boundary().accept(page);
    assert(end.combos =~= Seq::empty());
    crate::aggregate::law_nothing_found(colors, card, format);
}

/// A crawl that is told to stop before its first fetch fetches nothing and
/// hands out a result without combos and without cards.
pub proof fn law_cancelled_before_first_fetch(
    colors: Seq<Color>,
    card: Option<Seq<char>>,
    format: Option<Format>,
)
    ensures
        ({
            let told = CrawlView::initial(colors, card, format).cancel();
            &&& told.next_fetch() is None
            &&& told.at_boundary().phase == CrawlPhase::Stopping
            &&& told.at_boundary().handed_out() matches Some(Ok(result))
            &&& result.combos.len() == 0
            &&& result.cards.len() == 0
        }),
{
    crate::aggregate::law_nothing_found(colors, card, format);
}

/// Once a crawl has stopped it fetches no further page, whatever happens
/// to it, and a page handed to it changes nothing.
pub proof fn law_stopped_crawl_fetches_nothing(crawl: CrawlView, page: PageView, error: CrawlError)
    requires
        crawl.phase != CrawlPhase::Running,
    ensures
        crawl.next_fetch() is None,
        crawl.accept(page) == crawl,
        crawl.fail(error) == crawl,
        crawl.cancel().next_fetch() is None,
        crawl.finish().next_fetch() is None,
{
}

/// Telling a crawl to stop discards nothing: the combos found so far stay,
/// the page in flight is still taken in, and the crawl stops at the next
/// page boundary. Telling it twice is telling it once.
pub proof fn law_cancel_keeps_what_was_found(crawl: CrawlView, page: PageView)
    ensures
        crawl.cancel().combos == crawl.combos,
        crawl.cancel().cancel() == crawl.cancel(),
        crawl.cancel().accept(page).combos == crawl.accept(page).combos,
        crawl.cancel().accept(page).next_fetch() is None,
        crawl.combos.is_prefix_of(crawl.accept(page).combos),
{
    let more = crawl.accept(page).combos;
    if crawl.phase == CrawlPhase::Running {
        assert(more.subrange(0, crawl.combos.len() as int) =~= crawl.combos);
    }
}

/// A crawl hands out one outcome at most: asking again after the outcome
/// was handed out yields nothing.
pub proof fn law_one_outcome(crawl: CrawlView)
    ensures
        crawl.finish().handed_out() is None,
        crawl.finish().finish() == crawl.finish(),
        crawl.handed_out() is Some <==> crawl.phase == CrawlPhase::Stopping,
{
}

/// Every combo that a crawl keeps holds a card.
pub proof fn law_kept_combos_hold_cards(crawl: CrawlView, page: PageView)
    requires
        forall|i: int| 0 <= i < crawl.combos.len() ==> (#[trigger] crawl.combos[i]).len() > 0,
    ensures
        forall|i: int|
            0 <= i < crawl.accept(page).combos.len() ==> (#[trigger] crawl.accept(
                page,
            ).combos[i]).len() > 0,
{
    let kept = page.combos.filter(holds_cards());
    assert forall|i: int| 0 <= i < crawl.accept(page).combos.len() implies (
    #[trigger] crawl.accept(page).combos[i]).len() > 0 by {
        if crawl.phase == CrawlPhase::Running && i >= crawl.combos.len() {
            assert(crawl.accept(page).combos[i] == kept[i - crawl.combos.len()]);
            page.combos.lemma_filter_pred(holds_cards(), i - crawl.combos.len());
        }
    }
}

/// While every page names a next one, a crawl that has not been told to
/// stop keeps running, and the page it asks for next is the one after the
/// pages it has gone through.
pub proof fn lemma_crawl_goes_on(
    colors: Seq<Color>,
    card: Option<Seq<char>>,
    format: Option<Format>,
    pages: Seq<PageView>,
)
    requires
        pages.len() < u32::MAX,
        forall|i: int| 0 <= i < pages.len() ==> (#[trigger] pages[i]).has_next_page,
    ensures
        ({
            let start = CrawlView::initial(colors, card, format);
            let now = start.crawl_pages(pages);
            &&& now.phase == CrawlPhase::Running
            &&& !now.cancelled
            &&& now.failure is None
            &&& now.page == pages.len() + 1
            &&& now.combos == kept_combos(pages)
            &&& now.colors == colors
            &&& now.card == card
            &&& now.format == format
            &&& start.fetched(pages) == Seq::new(
                pages.len(),
                |k: int| page_url_spec(search_url(colors, card, format), (k + 1) as nat),
            )
        }),
    decreases pages.len(),
{
    let start = CrawlView::initial(colors, card, format);
    if pages.len() > 0 {
        let front = pages.drop_last();
        lemma_crawl_goes_on(colors, card, format, front);
        assert(pages.last() == pages[pages.len() - 1]);
        assert(start.fetched(pages) =~= Seq::new(
            pages.len(),
            |k: int| page_url_spec(search_url(colors, card, format), (k + 1) as nat),
        ));
    } else {
        assert(start.fetched(pages) =~= Seq::new(
            pages.len(),
            |k: int| page_url_spec(search_url(colors, card, format), (k + 1) as nat),
        ));
    }
}

/// A crawl fetches the pages of its search in order, one at a time, each
/// at a URL of its own, and stops after the first page that names no next
/// one: it asks for page one, then page two, and so on, and for nothing
/// after the last page. Its result is made of the combos of all these
/// pages.
pub proof fn law_pages_fetched_in_order(
    colors: Seq<Color>,
    card: Option<Seq<char>>,
    format: Option<Format>,
    pages: Seq<PageView>,
)
    requires
        0 < pages.len() < u32::MAX,
        forall|i: int| 0 <= i < pages.len() - 1 ==> (#[trigger] pages[i]).has_next_page,
        !pages.last().has_next_page,
    ensures
        ({
            let start = CrawlView::initial(colors, card, format);
            let end = start.crawl_pages(pages);
            &&& start.fetched(pages) == Seq::new(
                pages.len(),
                |k: int| page_url_spec(search_url(colors, card, format), (k + 1) as nat),
            )
            &&& start.fetched(pages).no_duplicates()
            &&& end.phase == CrawlPhase::Stopping
            &&& end.next_fetch() is None
            &&& end.handed_out() == Some(
                Ok::<ResultView, CrawlError>(summary(colors, card, format, kept_combos(pages))),
            )
        }),
{
    let start = CrawlView::initial(colors, card, format);
    let front = pages.drop_last();
    let base = search_url(colors, card, format);
    lemma_crawl_goes_on(colors, card, format, front);
    let urls = Seq::new(pages.len(), |k: int| page_url_spec(base, (k + 1) as nat));
    assert(start.fetched(pages) =~= urls);
    assert forall|i: int, j: int| 0 <= i < urls.len() && 0 <= j < urls.len() && i != j implies urls[i]
        != urls[j] by {
        crate::query::lemma_page_urls_differ(base, (i + 1) as nat, (j + 1) as nat);
    }
}

} // verus!
