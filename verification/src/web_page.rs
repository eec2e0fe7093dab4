//! Fetched pages and the store that keeps them.
//!
//! The store is a table of pages to which rows are only ever added. A page
//! is found by its URL, and is stored under a URL only while the table
//! holds no page for it: what is stored once is served from then on.

use vstd::prelude::*;
use crate::error::CrawlError;
use crate::text::own;
use crate::text::str_eq;

verus! {

/// A fetched page.
#[derive(Debug, Clone)]
pub struct WebPage {
    /// The number of the page's row in the store, counted from one.
    pub id: i32,
    /// Where the page was fetched from.
    pub url: String,
    /// The page's text.
    pub html_body: String,
}

/// A page, as contracts see it.
pub struct PageRecord {
    pub id: i32,
    pub url: Seq<char>,
    pub html_body: Seq<char>,
}

impl View for WebPage {
    type V = PageRecord;

    open spec fn view(&self) -> PageRecord {
        PageRecord { id: self.id, url: self.url@, html_body: self.html_body@ }
    }
}

impl DeepView for WebPage {
    type V = PageRecord;

    open spec fn deep_view(&self) -> PageRecord {
        self@
    }
}

/// The most rows a store can hold: a row's number has to fit its `id`.
pub open spec fn capacity() -> nat {
    i32::MAX as nat
}

/// The first row of `rows` that holds a page for `url`, if there is one.
pub open spec fn lookup(rows: Seq<PageRecord>, url: Seq<char>) -> Option<PageRecord>
    decreases rows.len(),
{
    if rows.len() == 0 {
        None
    } else if rows[0].url == url {
        Some(rows[0])
    } else {
        lookup(rows.drop_first(), url)
    }
}

/// Whether a page for `url` can be added to `rows`: none is there, and the
/// table has room.
pub open spec fn can_store(rows: Seq<PageRecord>, url: Seq<char>) -> bool {
    lookup(rows, url) is None && rows.len() < capacity()
}

/// The rows after a page for `url` has been handed in for storing. Where
/// the table holds no page for `url` and has room, the page is added as a
/// new last row; else the table stays as it is.
pub open spec fn stored(rows: Seq<PageRecord>, url: Seq<char>, body: Seq<char>) -> Seq<
    PageRecord,
> {
    if can_store(rows, url) {
        rows.push(PageRecord { id: (rows.len() + 1) as i32, url, html_body: body })
    } else {
        rows
    }
}

/// Whether no two rows hold a page for the same URL.
pub open spec fn unique_urls(rows: Seq<PageRecord>) -> bool {
    forall|i: int, j: int|
        0 <= i < j < rows.len() ==> (#[trigger] rows[i]).url != (#[trigger] rows[j]).url
}

/// What [`lookup`] finds is a row of the table that holds a page for the
/// URL asked for, and where it finds nothing, no row does.
pub proof fn lemma_lookup(rows: Seq<PageRecord>, url: Seq<char>)
    ensures
        match lookup(rows, url) {
            Some(page) => page.url == url && rows.contains(page),
            None => forall|i: int| 0 <= i < rows.len() ==> (#[trigger] rows[i]).url != url,
        },
    decreases rows.len(),
{
    if rows.len() > 0 {
        if rows[0].url != url {
            let rest = rows.drop_first();
            lemma_lookup(rest, url);
            match lookup(rest, url) {
                Some(page) => {
                    let i = choose|i: int| 0 <= i < rest.len() && rest[i] == page;
                    assert(rows[i + 1] == page);
                },
                None => {
                    assert forall|i: int| 0 <= i < rows.len() implies (#[trigger] rows[i]).url
                        != url by {
                        if i > 0 {
                            assert(rest[i - 1] == rows[i]);
                        }
                    }
                },
            }
        } else {
            assert(rows[0] == rows[0]);
        }
    }
}

/// Looking a URL up in a table with one more row finds what it found
/// before, or the new row where it found nothing.
pub proof fn lemma_lookup_push(rows: Seq<PageRecord>, row: PageRecord, url: Seq<char>)
    ensures
        lookup(rows.push(row), url) == match lookup(rows, url) {
            Some(page) => Some(page),
            None => if row.url == url {
                Some(row)
            } else {
                None
            },
        },
    decreases rows.len(),
{
    let more = rows.push(row);
    if rows.len() == 0 {
        assert(more.drop_first() =~= Seq::empty());
    } else {
        assert(more.drop_first() =~= rows.drop_first().push(row));
        if rows[0].url != url {
            lemma_lookup_push(rows.drop_first(), row, url);
        }
    }
}

/// What a table holds for a URL it still holds after rows have been added.
pub proof fn lemma_lookup_prefix(rows: Seq<PageRecord>, more: Seq<PageRecord>, url: Seq<char>)
    requires
        rows.is_prefix_of(more),
        lookup(rows, url) is Some,
    ensures
        lookup(more, url) == lookup(rows, url),
    decreases rows.len(),
{
    assert(rows.len() > 0);
    assert(more[0] == rows[0]);
    if rows[0].url != url {
        assert(rows.drop_first() =~= more.drop_first().subrange(0, rows.len() - 1));
        lemma_lookup_prefix(rows.drop_first(), more.drop_first(), url);
    }
}

/// The pages fetched so far, kept in memory.
#[derive(Debug)]
pub struct PageCache {
    pages: Vec<WebPage>,
}

impl View for PageCache {
    type V = Seq<PageRecord>;

    closed spec fn view(&self) -> Seq<PageRecord> {
        self.pages.deep_view()
    }
}

/// A copy of `page`.
pub fn copy_page(page: &WebPage) -> (copy: WebPage)
    ensures
        copy@ == page@,
{
    WebPage { id: page.id, url: page.url.clone(), html_body: page.html_body.clone() }
}

impl PageCache {
    /// A store that holds no page.
    pub fn new() -> (cache: PageCache)
        ensures
            cache@ == Seq::<PageRecord>::empty(),
    {
        let cache = PageCache { pages: Vec::new() };
        assert(cache@ =~= Seq::<PageRecord>::empty());
        cache
    }

    /// How many pages the store holds.
    pub fn len(&self) -> (count: usize)
        ensures
            count == self@.len(),
    {
        self.pages.len()
    }

    /// The page stored for `url`, if there is one.
    pub fn lookup(&self, url: &str) -> (found: Option<WebPage>)
        ensures
            found.deep_view() == lookup(self@, url@),
    {
        let mut i: usize = 0;
        assert(self@.skip(0) =~= self@);
        while i < self.pages.len()
            invariant
                i <= self.pages.len(),
                lookup(self@, url@) == lookup(self@.skip(i as int), url@),
            decreases self.pages.len() - i,
        {
            proof {
                let rest = self@.skip(i as int);
                assert(rest[0] == self.pages@[i as int]@);
                assert(rest.drop_first() =~= self@.skip(i + 1));
            }
            if str_eq(self.pages[i].url.as_str(), url) {
                return Some(copy_page(&self.pages[i]));
            }
            i += 1;
        }
        None
    }

    /// Hands in the page fetched from `url` for storing. The page is stored
    /// unless the store already holds a page for `url`, which then stays as
    /// it is. Fails where the store is full.
    pub fn store(&mut self, url: &str, body: &str) -> (done: Result<(), CrawlError>)
        ensures
            final(self)@ == stored(old(self)@, url@, body@),
            done is Err <==> lookup(old(self)@, url@) is None && old(self)@.len() >= capacity(),
            done is Err ==> done == Err::<(), CrawlError>(CrawlError::StoreIo),
    {
        if self.lookup(url).is_some() {
            return Ok(());
        }
        if self.pages.len() >= 0x7fff_ffff {
            return Err(CrawlError::StoreIo);
        }
        let id: i32 = (self.pages.len() + 1) as i32;
        let ghost before = self@;
        let page = WebPage { id, url: own(url), html_body: own(body) };
        self.pages.push(page);
        assert(self@ =~= before.push(page@));
        Ok(())
    }
}

} // verus!
