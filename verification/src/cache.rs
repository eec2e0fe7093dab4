//! Fetching a page through the store: serve the page that the store holds,
//! or else fetch it once, store it, and serve it from the store.
//!
//! The operation is a state machine without I/O. It asks for one thing at a
//! time: look the URL up in the store, fetch it from the network, store
//! what was fetched, or wait. The caller does what is asked and reports
//! how it went, until the operation has a page to serve or has failed.
//! A store that is busy is waited for, each wait twice as long as the one
//! before, as often as the caller's policy allows.

use vstd::prelude::*;
use crate::error::CrawlError;
use crate::text::own;
use crate::web_page::capacity;
use crate::web_page::lemma_lookup;
use crate::web_page::lemma_lookup_prefix;
use crate::web_page::lemma_lookup_push;
use crate::web_page::lookup;
use crate::web_page::stored;
use crate::web_page::unique_urls;
use crate::web_page::PageCache;
use crate::web_page::PageRecord;
use crate::web_page::WebPage;

verus! {

/// How long and how often to wait for a store that is busy.
#[derive(Debug, Clone, Copy, PartialEq, Eq, Structural)]
pub struct RetryPolicy {
    /// How many times the operation may wait before it gives up.
    pub retries: u32,
    /// How long the first wait lasts, in milliseconds.
    pub first_delay_ms: u64,
    /// The longest a wait may last, in milliseconds.
    pub max_delay_ms: u64,
}

/// What the operation asks its caller to do next.
#[derive(Debug, Clone, Copy, PartialEq, Eq, Structural)]
pub enum CacheRequest {
    /// Look the operation's URL up in the store.
    Lookup,
    /// Fetch the operation's URL from the network.
    Fetch,
    /// Store the operation's body under its URL.
    Store,
    /// Wait for this long, in milliseconds.
    Wait { millis: u64 },
}

/// How what was asked for went.
#[derive(Debug)]
pub enum CacheEvent {
    /// The store holds this page for the URL.
    Hit(WebPage),
    /// The store holds no page for the URL.
    Miss,
    /// The network returned this text.
    Fetched(String),
    /// The network did not return the page.
    FetchFailed,
    /// The store has taken the page.
    Stored,
    /// The store is locked by others.
    Busy,
    /// The store cannot be read or written.
    StoreFailed,
    /// The wait is over.
    Waited,
}

/// An event, as contracts see it.
pub enum EventView {
    Hit(PageRecord),
    Miss,
    Fetched(Seq<char>),
    FetchFailed,
    Stored,
    Busy,
    StoreFailed,
    Waited,
}

impl View for CacheEvent {
    type V = EventView;

    open spec fn view(&self) -> EventView {
        match *self {
            CacheEvent::Hit(page) => EventView::Hit(page@),
            CacheEvent::Miss => EventView::Miss,
            CacheEvent::Fetched(body) => EventView::Fetched(body@),
            CacheEvent::FetchFailed => EventView::FetchFailed,
            CacheEvent::Stored => EventView::Stored,
            CacheEvent::Busy => EventView::Busy,
            CacheEvent::StoreFailed => EventView::StoreFailed,
            CacheEvent::Waited => EventView::Waited,
        }
    }
}

/// One operation of fetching a page through the store, under way.
#[derive(Debug)]
pub struct PageFetch {
    url: String,
    body: Option<String>,
    stored: bool,
    pending: CacheRequest,
    retries_left: u32,
    delay_ms: u64,
    max_delay_ms: u64,
}

/// An operation under way, as contracts see it.
pub struct FetchView {
    /// The URL of the page wanted.
    pub url: Seq<char>,
    /// The text fetched from the network, once there is one.
    pub body: Option<Seq<char>>,
    /// Whether the store has taken the page.
    pub stored: bool,
    /// What the caller has been asked to do.
    pub pending: CacheRequest,
    /// How many more times the operation may wait.
    pub retries_left: nat,
    /// How long the next wait lasts.
    pub delay_ms: nat,
    /// The longest a wait may last.
    pub max_delay_ms: nat,
}

/// Where an operation stands after an event.
#[derive(Debug)]
pub enum CacheStep {
    /// The operation goes on: do what it asks.
    Ask(PageFetch),
    /// The operation is over, with this page.
    Served(WebPage),
    /// The operation is over, without a page.
    Failed(CrawlError),
}

/// A step, as contracts see it.
pub enum StepView {
    Ask(FetchView),
    Served(PageRecord),
    Failed(CrawlError),
}

impl View for PageFetch {
    type V = FetchView;

    closed spec fn view(&self) -> FetchView {
        FetchView {
            url: self.url@,
            body: self.body.deep_view(),
            stored: self.stored,
            pending: self.pending,
            retries_left: self.retries_left as nat,
            delay_ms: self.delay_ms as nat,
            max_delay_ms: self.max_delay_ms as nat,
        }
    }
}

impl View for CacheStep {
    type V = StepView;

    open spec fn view(&self) -> StepView {
        match *self {
            CacheStep::Ask(state) => StepView::Ask(state@),
            CacheStep::Served(page) => StepView::Served(page@),
            CacheStep::Failed(error) => StepView::Failed(error),
        }
    }
}

impl FetchView {
    /// An operation that has just begun: it asks to look its URL up.
    pub open spec fn start(url: Seq<char>, policy: RetryPolicy) -> FetchView {
        FetchView {
            url,
            body: None,
            stored: false,
            pending: CacheRequest::Lookup,
            retries_left: policy.retries as nat,
            delay_ms: policy.first_delay_ms as nat,
            max_delay_ms: policy.max_delay_ms as nat,
        }
    }

    /// The operation, now asking for `request`.
    pub open spec fn asking(self, request: CacheRequest) -> FetchView {
        FetchView { pending: request, ..self }
    }

    /// How long the wait after the next one lasts: twice as long, up to the
    /// longest wait allowed.
    pub open spec fn longer_delay(self) -> nat {
        if 2 * self.delay_ms > self.max_delay_ms {
            self.max_delay_ms
        } else {
            2 * self.delay_ms
        }
    }

    /// What the operation does when the store is busy: it waits and then
    /// starts over, or gives up where it may wait no more.
    pub open spec fn back_off(self) -> StepView {
        if self.retries_left > 0 {
            StepView::Ask(
                FetchView {
                    pending: CacheRequest::Wait { millis: self.delay_ms as u64 },
                    retries_left: (self.retries_left - 1) as nat,
                    delay_ms: self.longer_delay(),
                    ..self
                },
            )
        } else {
            StepView::Failed(CrawlError::StoreContention)
        }
    }

    /// What the operation does when the store holds no page for its URL:
    /// it fetches the page, or stores the page it has fetched before. A
    /// page that the store has taken and then does not hold is a failure of
    /// the store.
    pub open spec fn on_miss(self) -> StepView {
        if self.stored {
            StepView::Failed(CrawlError::StoreIo)
        } else if self.body is Some {
            StepView::Ask(self.asking(CacheRequest::Store))
        } else {
            StepView::Ask(self.asking(CacheRequest::Fetch))
        }
    }

    /// Where the operation stands after `event`. An event that does not
    /// answer what was asked changes nothing: the operation asks again.
    pub open spec fn step(self, event: EventView) -> StepView {
        match (self.pending, event) {
            (CacheRequest::Lookup, EventView::Hit(page)) => StepView::Served(page),
            (CacheRequest::Lookup, EventView::Miss) => self.on_miss(),
            (CacheRequest::Lookup, EventView::Busy) => self.back_off(),
            (CacheRequest::Lookup, EventView::StoreFailed) => StepView::Failed(CrawlError::StoreIo),
            (CacheRequest::Fetch, EventView::Fetched(body)) => StepView::Ask(
                FetchView { body: Some(body), pending: CacheRequest::Store, ..self },
            ),
            (CacheRequest::Fetch, EventView::FetchFailed) => StepView::Failed(CrawlError::Network),
            (CacheRequest::Store, EventView::Stored) => StepView::Ask(
                FetchView { stored: true, pending: CacheRequest::Lookup, ..self },
            ),
            (CacheRequest::Store, EventView::Busy) => self.back_off(),
            (CacheRequest::Store, EventView::StoreFailed) => StepView::Failed(CrawlError::StoreIo),
            (CacheRequest::Wait { millis }, EventView::Waited) => StepView::Ask(
                self.asking(CacheRequest::Lookup),
            ),
            _ => StepView::Ask(self),
        }
    }
}

impl WebPage {
    /// Begins the operation of fetching the page at `url` through the
    /// store. The operation first asks to look the URL up.
    pub fn fetch(url: &str, policy: RetryPolicy) -> (state: PageFetch)
        ensures
            state@ == FetchView::start(url@, policy),
    {
        PageFetch {
            url: own(url),
            body: None,
            stored: false,
            pending: CacheRequest::Lookup,
            retries_left: policy.retries,
            delay_ms: policy.first_delay_ms,
            max_delay_ms: policy.max_delay_ms,
        }
    }
}

impl PageFetch {
    /// What the operation asks its caller to do.
    pub fn request(&self) -> (request: CacheRequest)
        ensures
            request == self@.pending,
    {
        self.pending
    }

    /// The URL of the page wanted.
    pub fn url(&self) -> (url: &str)
        ensures
            url@ == self@.url,
    {
        self.url.as_str()
    }

    /// The text fetched from the network, once there is one.
    pub fn body(&self) -> (body: Option<&str>)
        ensures
            body.deep_view() == self@.body,
    {
        match &self.body {
            Some(text) => Some(text.as_str()),
            None => None,
        }
    }

    fn back_off(self) -> (step: CacheStep)
        ensures
            step@ == self@.back_off(),
    {
        if self.retries_left > 0 {
            let longer: u64 = if self.delay_ms > self.max_delay_ms / 2 {
                self.max_delay_ms
            } else {
                self.delay_ms * 2
            };
            CacheStep::Ask(
                PageFetch {
                    url: self.url,
                    body: self.body,
                    stored: self.stored,
                    pending: CacheRequest::Wait { millis: self.delay_ms },
                    retries_left: self.retries_left - 1,
                    delay_ms: longer,
                    max_delay_ms: self.max_delay_ms,
                },
            )
        } else {
            CacheStep::Failed(CrawlError::StoreContention)
        }
    }

    fn asking(self, request: CacheRequest) -> (state: PageFetch)
        ensures
            state@ == self@.asking(request),
    {
        PageFetch {
            url: self.url,
            body: self.body,
            stored: self.stored,
            pending: request,
            retries_left: self.retries_left,
            delay_ms: self.delay_ms,
            max_delay_ms: self.max_delay_ms,
        }
    }

    fn on_miss(self) -> (step: CacheStep)
        ensures
            step@ == self@.on_miss(),
    {
        if self.stored {
            CacheStep::Failed(CrawlError::StoreIo)
        } else if self.body.is_some() {
            CacheStep::Ask(self.asking(CacheRequest::Store))
        } else {
            CacheStep::Ask(self.asking(CacheRequest::Fetch))
        }
    }

    /// Takes in how what was asked for went, and says where the operation
    /// stands now.
    pub fn step(self, event: CacheEvent) -> (step: CacheStep)
        ensures
            step@ == self@.step(event@),
    {
        match self.pending {
            CacheRequest::Lookup => match event {
                CacheEvent::Hit(page) => CacheStep::Served(page),
                CacheEvent::Miss => self.on_miss(),
                CacheEvent::Busy => self.back_off(),
                CacheEvent::StoreFailed => CacheStep::Failed(CrawlError::StoreIo),
                _ => CacheStep::Ask(self),
            },
            CacheRequest::Fetch => match event {
                CacheEvent::Fetched(body) => CacheStep::Ask(
                    PageFetch {
                        url: self.url,
                        body: Some(body),
                        stored: self.stored,
                        pending: CacheRequest::Store,
                        retries_left: self.retries_left,
                        delay_ms: self.delay_ms,
                        max_delay_ms: self.max_delay_ms,
                    },
                ),
                CacheEvent::FetchFailed => CacheStep::Failed(CrawlError::Network),
                _ => CacheStep::Ask(self),
            },
            CacheRequest::Store => match event {
                CacheEvent::Stored => CacheStep::Ask(
                    PageFetch {
                        url: self.url,
                        body: self.body,
                        stored: true,
                        pending: CacheRequest::Lookup,
                        retries_left: self.retries_left,
                        delay_ms: self.delay_ms,
                        max_delay_ms: self.max_delay_ms,
                    },
                ),
                CacheEvent::Busy => self.back_off(),
                CacheEvent::StoreFailed => CacheStep::Failed(CrawlError::StoreIo),
                _ => CacheStep::Ask(self),
            },
            CacheRequest::Wait { millis } => match event {
                CacheEvent::Waited => CacheStep::Ask(self.asking(CacheRequest::Lookup)),
                _ => CacheStep::Ask(self),
            },
        }
    }
}

impl FetchView {
    /// Whether the operation is in order: it asks to store only what it
    /// has fetched, and to fetch only what it has not.
    pub open spec fn in_order(self) -> bool {
        &&& self.pending == CacheRequest::Store ==> self.body is Some
        &&& self.pending == CacheRequest::Fetch ==> self.body is None
        &&& self.stored ==> self.body is Some
    }
}

/// An operation goes to the network once at most. It starts in order and
/// stays in order; once the network has returned the page, the operation
/// keeps it and never asks to fetch again, and where the network has
/// failed, the operation is over and nothing is stored.
pub proof fn law_network_asked_once(
    url: Seq<char>,
    policy: RetryPolicy,
    state: FetchView,
    event: EventView,
)
    requires
        state.in_order(),
    ensures
        FetchView::start(url, policy).in_order(),
        state.step(event) matches StepView::Ask(next) ==> next.in_order() && next.url == state.url,
        state.step(event) matches StepView::Ask(next) ==> (state.body is Some ==> next.body
            == state.body && next.pending != CacheRequest::Fetch),
        state.pending == CacheRequest::Fetch && event == EventView::FetchFailed ==> state.step(event)
            == StepView::Failed(CrawlError::Network),
{
}

/// An operation waits for a busy store as often as its policy allows and
/// no more: each wait uses up one retry, no wait is longer than the
/// longest wait allowed once the first one is not, and with no retry left
/// a busy store ends the operation.
pub proof fn law_waits_are_bounded(state: FetchView)
    requires
        state.pending == CacheRequest::Lookup || state.pending == CacheRequest::Store,
        state.delay_ms <= u64::MAX,
    ensures
        state.retries_left == 0 ==> state.step(EventView::Busy) == StepView::Failed(
            CrawlError::StoreContention,
        ),
        state.retries_left > 0 ==> (state.step(EventView::Busy) matches StepView::Ask(next)
            && next.pending == CacheRequest::Wait { millis: state.delay_ms as u64 }
            && next.retries_left == state.retries_left - 1 && next.delay_ms <= 2 * state.delay_ms
            && (state.delay_ms <= state.max_delay_ms ==> state.delay_ms <= next.delay_ms
            <= state.max_delay_ms)),
{
}

/// How one operation went: the rows of the store after it, what it ended
/// with, and how many times it went to the network.
pub struct Run {
    pub rows: Seq<PageRecord>,
    pub outcome: Option<Result<PageRecord, CrawlError>>,
    pub fetches: nat,
}

/// What a store that is never busy and a network that returns `web` for
/// the URL, or fails where `web` is `None`, answer to what an operation
/// asks: the rows of the store afterwards, and the event to report.
pub open spec fn answer(rows: Seq<PageRecord>, web: Option<Seq<char>>, state: FetchView) -> (
    Seq<PageRecord>,
    EventView,
) {
    match state.pending {
        CacheRequest::Lookup => match lookup(rows, state.url) {
            Some(page) => (rows, EventView::Hit(page)),
            None => (rows, EventView::Miss),
        },
        CacheRequest::Fetch => match web {
            Some(body) => (rows, EventView::Fetched(body)),
            None => (rows, EventView::FetchFailed),
        },
        CacheRequest::Store => match state.body {
            Some(body) => if lookup(rows, state.url) is None && rows.len() >= capacity() {
                (rows, EventView::StoreFailed)
            } else {
                (stored(rows, state.url, body), EventView::Stored)
            },
            None => (rows, EventView::StoreFailed),
        },
        CacheRequest::Wait { millis } => (rows, EventView::Waited),
    }
}

/// How an operation goes from `state` on, against such a store and
/// network, within `steps` steps.
pub open spec fn run(
    state: FetchView,
    rows: Seq<PageRecord>,
    web: Option<Seq<char>>,
    steps: nat,
) -> Run
    decreases steps,
{
    if steps == 0 {
        Run { rows, outcome: None, fetches: 0 }
    } else {
        let (then, event) = answer(rows, web, state);
        let fetched: nat = if state.pending == CacheRequest::Fetch {
            1
        } else {
            0
        };
        match state.step(event) {
            StepView::Ask(next) => {
                let rest = run(next, then, web, (steps - 1) as nat);
                Run { fetches: rest.fetches + fetched, ..rest }
            },
            StepView::Served(page) => Run { rows: then, outcome: Some(Ok(page)), fetches: fetched },
            StepView::Failed(error) => Run {
                rows: then,
                outcome: Some(Err(error)),
                fetches: fetched,
            },
        }
    }
}

/// How fetching `url` through the store goes, from the start, against a
/// store that is never busy: a lookup, and where that finds nothing a
/// fetch, a store and a second lookup.
pub open spec fn fetch_or_store(
    rows: Seq<PageRecord>,
    url: Seq<char>,
    policy: RetryPolicy,
    web: Option<Seq<char>>,
) -> Run {
    run(FetchView::start(url, policy), rows, web, 4)
}

/// The row that a page fetched from `url` gets in a store that holds
/// `rows`.
pub open spec fn new_row(rows: Seq<PageRecord>, url: Seq<char>, body: Seq<char>) -> PageRecord {
    PageRecord { id: (rows.len() + 1) as i32, url, html_body: body }
}

/// What fetching a URL through the store comes to. A page that the store
/// holds is served as it is, the network is not asked and the store stays
/// as it is. A page that the store does not hold is fetched once: where
/// the network returns it and the store has room, it is stored as a new
/// row and served from there; where the network fails, or the store is
/// full, nothing is stored and the operation fails.
pub proof fn law_fetch_or_store(
    rows: Seq<PageRecord>,
    url: Seq<char>,
    policy: RetryPolicy,
    web: Option<Seq<char>>,
)
    ensures
        fetch_or_store(rows, url, policy, web) == match lookup(rows, url) {
            Some(page) => Run { rows, outcome: Some(Ok(page)), fetches: 0 },
            None => match web {
                Some(body) => if rows.len() < capacity() {
                    Run {
                        rows: rows.push(new_row(rows, url, body)),
                        outcome: Some(Ok(new_row(rows, url, body))),
                        fetches: 1,
                    }
                } else {
                    Run { rows, outcome: Some(Err(CrawlError::StoreIo)), fetches: 1 }
                },
                None => Run { rows, outcome: Some(Err(CrawlError::Network)), fetches: 1 },
            },
        },
{
    reveal_with_fuel(run, 5);
    let s0 = FetchView::start(url, policy);
    match lookup(rows, url) {
        Some(page) => {},
        None => {
            match web {
                Some(body) => {
                    if rows.len() < capacity() {
                        let row = new_row(rows, url, body);
                        lemma_lookup_push(rows, row, url);
                        assert(stored(rows, url, body) == rows.push(row));
                    }
                },
                None => {},
            }
        },
    }
}

/// Fetching the same URL through the store twice in a row goes to the
/// network once at most, and not at all the second time: the second
/// operation serves the very page that the first one served, and leaves
/// the store as the first one left it.
pub proof fn law_second_fetch_served_from_store(
    rows: Seq<PageRecord>,
    url: Seq<char>,
    policy: RetryPolicy,
    first_web: Option<Seq<char>>,
    second_web: Option<Seq<char>>,
)
    requires
        fetch_or_store(rows, url, policy, first_web).outcome matches Some(Ok(_)),
    ensures
        ({
            let first = fetch_or_store(rows, url, policy, first_web);
            let second = fetch_or_store(first.rows, url, policy, second_web);
            &&& first.fetches <= 1
            &&& first.fetches == 1 <==> lookup(rows, url) is None
            &&& second.fetches == 0
            &&& second.outcome == first.outcome
            &&& second.rows == first.rows
        }),
{
    law_fetch_or_store(rows, url, policy, first_web);
    let first = fetch_or_store(rows, url, policy, first_web);
    law_fetch_or_store(first.rows, url, policy, second_web);
    if lookup(rows, url) is None {
        let body = first_web->0;
        lemma_lookup_push(rows, new_row(rows, url, body), url);
    }
}

/// Fetching through the store never leaves two rows for one URL, and
/// never changes or removes a row: the store holds what it held, and at
/// most one row more.
pub proof fn law_store_stays_sound(
    rows: Seq<PageRecord>,
    url: Seq<char>,
    policy: RetryPolicy,
    web: Option<Seq<char>>,
)
    requires
        unique_urls(rows),
    ensures
        unique_urls(fetch_or_store(rows, url, policy, web).rows),
        rows.is_prefix_of(fetch_or_store(rows, url, policy, web).rows),
        fetch_or_store(rows, url, policy, web).rows.len() == rows.len() + (if lookup(rows, url)
            is None && fetch_or_store(rows, url, policy, web).outcome matches Some(Ok(_)) {
            1int
        } else {
            0int
        }),
{
    law_fetch_or_store(rows, url, policy, web);
    lemma_lookup(rows, url);
    let after = fetch_or_store(rows, url, policy, web).rows;
    if after != rows {
        let row = new_row(rows, url, web->0);
        assert(after == rows.push(row));
        assert forall|i: int, j: int| 0 <= i < j < after.len() implies (#[trigger] after[i]).url
            != (#[trigger] after[j]).url by {
            if j == rows.len() {
                assert(after[i] == rows[i]);
            } else {
                assert(after[i] == rows[i] && after[j] == rows[j]);
            }
        }
        assert(after.subrange(0, rows.len() as int) =~= rows);
    } else {
        assert(after.subrange(0, rows.len() as int) =~= rows);
    }
}

impl PageCache {
    /// Does what an operation asks of the store, and says how it went:
    /// looks the operation's URL up, or stores its body. What an operation
    /// asks of the network or of the clock is not the store's to answer.
    pub fn answer(&mut self, state: &PageFetch) -> (event: Option<CacheEvent>)
        ensures
            match state@.pending {
                CacheRequest::Lookup | CacheRequest::Store => event matches Some(e) && (
                    final(self)@,
                    e@,
                ) == answer(old(self)@, None, state@),
                _ => event is None && final(self)@ == old(self)@,
            },
    {
        match state.request() {
            CacheRequest::Lookup => match self.lookup(state.url()) {
                Some(page) => Some(CacheEvent::Hit(page)),
                None => Some(CacheEvent::Miss),
            },
            CacheRequest::Store => match state.body() {
                Some(body) => match self.store(state.url(), body) {
                    Ok(()) => Some(CacheEvent::Stored),
                    Err(_) => Some(CacheEvent::StoreFailed),
                },
                None => Some(CacheEvent::StoreFailed),
            },
            _ => None,
        }
    }
}

/// How a run of operations goes, one after the other, each for the next
/// URL of `urls`, against a network that returns `web(url)` for `url`.
pub struct Runs {
    /// The rows of the store after the last operation.
    pub rows: Seq<PageRecord>,
    /// What each operation ended with.
    pub outcomes: Seq<Option<Result<PageRecord, CrawlError>>>,
    /// How many times the operations went to the network, all together.
    pub fetches: nat,
}

/// How the operations for `urls` go, in this order.
pub open spec fn fetch_all(
    rows: Seq<PageRecord>,
    urls: Seq<Seq<char>>,
    policy: RetryPolicy,
    web: spec_fn(Seq<char>) -> Option<Seq<char>>,
) -> Runs
    decreases urls.len(),
{
    if urls.len() == 0 {
        Runs { rows, outcomes: Seq::empty(), fetches: 0 }
    } else {
        let before = fetch_all(rows, urls.drop_last(), policy, web);
        let last = fetch_or_store(before.rows, urls.last(), policy, web(urls.last()));
        Runs {
            rows: last.rows,
            outcomes: before.outcomes.push(last.outcome),
            fetches: before.fetches + last.fetches,
        }
    }
}

/// However the requests of any number of crawls for any URLs, the same or
/// different, fall into line at the store, and as long as the network
/// returns each page and the store has room: every request is served the
/// page of its URL, the store ends up with one row for each URL asked for
/// or held before, and each new row has cost one trip to the network, so
/// that no URL is fetched twice.
pub proof fn law_one_row_per_url(
    rows: Seq<PageRecord>,
    urls: Seq<Seq<char>>,
    policy: RetryPolicy,
    web: spec_fn(Seq<char>) -> Option<Seq<char>>,
)
    requires
        unique_urls(rows),
        rows.len() + urls.len() <= capacity(),
        forall|i: int| 0 <= i < urls.len() ==> web(#[trigger] urls[i]) is Some,
    ensures
        ({
            let all = fetch_all(rows, urls, policy, web);
            &&& unique_urls(all.rows)
            &&& rows.is_prefix_of(all.rows)
            &&& all.rows.len() <= rows.len() + urls.len()
            &&& all.fetches == all.rows.len() - rows.len()
            &&& all.outcomes.len() == urls.len()
            &&& forall|url: Seq<char>|
                lookup(all.rows, url) is Some <==> lookup(rows, url) is Some || urls.contains(url)
            &&& forall|url: Seq<char>|
                lookup(rows, url) is Some ==> lookup(all.rows, url) == lookup(rows, url)
            &&& forall|i: int|
                0 <= i < urls.len() ==> #[trigger] all.outcomes[i] == Some(
                    Ok::<PageRecord, CrawlError>(lookup(all.rows, urls[i])->0),
                )
            &&& forall|i: int|
                0 <= i < urls.len() ==> (lookup(all.rows, #[trigger] urls[i])->0).html_body == (
                match lookup(rows, urls[i]) {
                    Some(page) => page.html_body,
                    None => web(urls[i])->0,
                })
        }),
    decreases urls.len(),
{
    let all = fetch_all(rows, urls, policy, web);
    if urls.len() == 0 {
        assert(all.rows.subrange(0, rows.len() as int) =~= rows);
    } else {
        let front = urls.drop_last();
        let url = urls.last();
        law_one_row_per_url(rows, front, policy, web);
        let before = fetch_all(rows, front, policy, web);
        assert(web(urls[urls.len() - 1]) is Some);
        law_fetch_or_store(before.rows, url, policy, web(url));
        law_store_stays_sound(before.rows, url, policy, web(url));
        let last = fetch_or_store(before.rows, url, policy, web(url));
        assert(all.rows.subrange(0, rows.len() as int) =~= rows) by {
            assert(before.rows.subrange(0, rows.len() as int) == rows);
            assert(all.rows.subrange(0, before.rows.len() as int) == before.rows);
        }
        let body = web(url)->0;
        let row = new_row(before.rows, url, body);
        assert forall|u: Seq<char>| lookup(all.rows, u) == (match lookup(before.rows, u) {
            Some(page) => Some(page),
            None => if u == url {
                Some(row)
            } else {
                None
            },
        }) by {
            if lookup(before.rows, url) is None {
                lemma_lookup_push(before.rows, row, u);
            }
        }
        assert forall|u: Seq<char>| lookup(all.rows, u) is Some <==> lookup(rows, u) is Some
            || urls.contains(u) by {
            if urls.contains(u) {
                let i = choose|i: int| 0 <= i < urls.len() && urls[i] == u;
                if i < front.len() {
                    assert(front[i] == u);
                    assert(front.contains(u));
                }
            }
            if front.contains(u) {
                let i = choose|i: int| 0 <= i < front.len() && front[i] == u;
                assert(urls[i] == u);
            }
            if u == url {
                assert(urls[urls.len() - 1] == u);
            }
        }
        assert forall|u: Seq<char>| lookup(rows, u) is Some implies lookup(all.rows, u) == lookup(
            rows,
            u,
        ) by {
            lemma_lookup_prefix(rows, all.rows, u);
        }
        assert forall|i: int| 0 <= i < urls.len() implies #[trigger] all.outcomes[i] == Some(
            Ok::<PageRecord, CrawlError>(lookup(all.rows, urls[i])->0),
        ) by {
            if i < front.len() {
                assert(front[i] == urls[i]);
                assert(front.contains(front[i]));
                assert(lookup(before.rows, front[i]) is Some);
                assert(all.outcomes[i] == before.outcomes[i]);
                assert(before.outcomes[i] == Some(
                    Ok::<PageRecord, CrawlError>(lookup(before.rows, front[i])->0),
                ));
                lemma_lookup_prefix(before.rows, all.rows, urls[i]);
            } else {
                assert(urls[i] == url);
                assert(all.outcomes[i] == last.outcome);
            }
        }
        assert forall|i: int| 0 <= i < urls.len() implies (lookup(
            all.rows,
            #[trigger] urls[i],
        )->0).html_body == (match lookup(rows, urls[i]) {
            Some(page) => page.html_body,
            None => web(urls[i])->0,
        }) by {
            let u = urls[i];
            if lookup(rows, u) is Some {
                lemma_lookup_prefix(rows, all.rows, u);
            } else if i < front.len() {
                assert(front[i] == u);
                assert(front.contains(front[i]));
                assert(lookup(before.rows, front[i]) is Some);
                lemma_lookup_prefix(before.rows, all.rows, u);
            } else {
                assert(u == url);
                if lookup(before.rows, url) is Some {
                    assert(front.contains(url));
                    let k = choose|k: int| 0 <= k < front.len() && front[k] == url;
                    assert(lookup(before.rows, front[k]) is Some);
                    lemma_lookup_prefix(before.rows, all.rows, url);
                }
            }
        }
    }
}

} // verus!
