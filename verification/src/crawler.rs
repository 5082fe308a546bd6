//! Setting up the crawl of one entry.

use vstd::prelude::*;
use crate::address::{WebUrl, WebUrlView, url_parsed};
use crate::config::DoclingConfig;
use crate::frontier::{Frontier, FrontierView, ItemView};
use crate::registry::{CrawlStatus, UrlEntry};

verus! {

/// Seconds after which a request is given up.
pub const REQUEST_TIMEOUT: u64 = 30;

/// Why a crawl could not be set up.
#[derive(Clone, Copy, Debug, PartialEq, Eq, Structural)]
pub enum CrawlError {
    /// The entry's URL does not parse.
    InvalidSeed,
}

/// Everything the caller needs to crawl one entry.
pub struct CrawlJob {
    /// The frontier, with the seed waiting.
    pub frontier: Frontier,
    /// The directory for the pages.
    pub html_dir: String,
    /// The directory for the media.
    pub media_dir: String,
    /// The directory for error reports.
    pub errors_dir: String,
    /// The user agent to send.
    pub user_agent: String,
    /// Milliseconds each worker waits between two requests.
    pub delay_ms: u64,
    /// Seconds after which a request is given up.
    pub timeout_secs: u64,
    /// Whether robots.txt is to be honoured.
    pub respect_robots_txt: bool,
    /// The most pages whose media are downloaded at once.
    pub media_limit: u32,
}

/// Sets up crawls with the given settings.
pub struct Crawler {
    config: DoclingConfig,
}

impl Crawler {
    /// The settings the crawler works with.
    pub closed spec fn settings(&self) -> DoclingConfig {
        self.config
    }

    /// The frontier a crawl of `entry` starts with: the seed at depth
    /// zero, the entry's depth as the greatest, only the seed's host
    /// followed, and the configured limit of requests in flight.
    pub open spec fn start_of(&self, seed: WebUrlView, entry: UrlEntry) -> FrontierView {
        FrontierView {
            max_depth: entry.crawl_depth,
            same_domain_only: true,
            limit: if self.settings().max_concurrent_requests == 0 {
                1
            } else {
                self.settings().max_concurrent_requests
            },
            discovered: seq![ItemView { url: seed.document(), depth: 0 }],
            cursor: 0,
            in_flight: 0,
            cancelled: false,
            rules: Seq::empty(),
        }
    }

    /// A crawler that works with the given settings.
    pub fn new(config: DoclingConfig) -> (r: Self)
        ensures
            r.settings() == config,
    {
        Crawler { config }
    }

    /// Begins the crawl of `entry` at the instant `now`, which is noted
    /// as the entry's last try. An entry that is switched off is passed
    /// over: there is nothing to do. Fails where the entry's URL does not
    /// parse.
    pub fn process_entry(&self, entry: &mut UrlEntry, now: i64) -> (r: Result<
        Option<CrawlJob>,
        CrawlError,
    >)
        ensures
            *final(entry) == (UrlEntry { last_try: Some(now), ..*old(entry) }),
            if old(entry).status == CrawlStatus::Disabled {
                r is Ok && r->Ok_0 is None
            } else {
                match url_parsed(old(entry).url@) {
                    None => r is Err && r->Err_0 == CrawlError::InvalidSeed,
                    Some(seed) => {
                        &&& r is Ok
                        &&& r->Ok_0 is Some
                        &&& r->Ok_0->0.frontier@ == self.start_of(seed, *old(entry))
                        &&& r->Ok_0->0.frontier@.wf()
                        &&& r->Ok_0->0.html_dir@ == self.settings().html_path(old(entry).name@)
                        &&& r->Ok_0->0.media_dir@ == self.settings().media_path(old(entry).name@)
                        &&& r->Ok_0->0.errors_dir@ == self.settings().errors_path(old(entry).name@)
                        &&& r->Ok_0->0.user_agent@ == self.settings().user_agent@
                        &&& r->Ok_0->0.delay_ms == self.settings().delay_between_request_in_ms
                        &&& r->Ok_0->0.timeout_secs == REQUEST_TIMEOUT
                        &&& r->Ok_0->0.respect_robots_txt == self.settings().respect_robots_txt
                        &&& r->Ok_0->0.media_limit == r->Ok_0->0.frontier@.limit
                    },
                }
            },
    {
        entry.last_try = Some(now);
        if entry.status == CrawlStatus::Disabled {
            return Ok(None);
        }
        let seed = match WebUrl::parse(entry.url.as_str()) {
            Some(seed) => seed,
            None => {
                return Err(CrawlError::InvalidSeed);
            },
        };
        let frontier = Frontier::new(
            seed,
            entry.crawl_depth,
            true,
            self.config.max_concurrent_requests,
        );
        Ok(
            Some(
                CrawlJob {
                    frontier,
                    html_dir: self.config.html_dir(entry.name.as_str()),
                    media_dir: self.config.media_dir(entry.name.as_str()),
                    errors_dir: self.config.errors_dir(entry.name.as_str()),
                    user_agent: self.config.user_agent.clone(),
                    delay_ms: self.config.delay_between_request_in_ms,
                    timeout_secs: REQUEST_TIMEOUT,
                    respect_robots_txt: self.config.respect_robots_txt,
                    media_limit: if self.config.max_concurrent_requests == 0 {
                        1
                    } else {
                        self.config.max_concurrent_requests
                    },
                },
            ),
        )
    }
}

} // verus!
