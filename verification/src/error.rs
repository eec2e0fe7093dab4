//! The ways a crawl can fail.

use vstd::prelude::*;

verus! {

/// Why a page could not be had, or could not be read.
#[derive(Debug, Clone, Copy, PartialEq, Eq, Hash, Structural)]
pub enum CrawlError {
    /// The page could not be fetched from the network.
    Network,
    /// The page store stayed locked by others for as long as the caller was
    /// willing to wait.
    StoreContention,
    /// The page store cannot be read or written.
    StoreIo,
    /// The page does not read as a page of search results.
    Extraction,
}

impl CrawlError {
    /// What to tell the user about this failure.
    pub open spec fn message_spec(self) -> Seq<char> {
        match self {
            CrawlError::Network => "the page could not be fetched"@,
            CrawlError::StoreContention => "the page store is busy"@,
            CrawlError::StoreIo => "the page store cannot be used"@,
            CrawlError::Extraction => "the page could not be read"@,
        }
    }

    /// What to tell the user about this failure.
    pub fn message(self) -> (text: &'static str)
        ensures
            text@ == self.message_spec(),
    {
        match self {
            CrawlError::Network => "the page could not be fetched",
            CrawlError::StoreContention => "the page store is busy",
            CrawlError::StoreIo => "the page store cannot be used",
            CrawlError::Extraction => "the page could not be read",
        }
    }
}

} // verus!
