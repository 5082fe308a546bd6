use docling::address::WebUrl;
use docling::config::DoclingConfig;
use docling::crawler::{CrawlError, Crawler};
use docling::frontier::Frontier;
use docling::registry::{CrawlStatus, UrlEntry};

fn seed() -> WebUrl {
    WebUrl::parse("https://example.com/").unwrap()
}

fn hrefs(frontier: &Frontier) -> Vec<String> {
    frontier.discovered().iter().map(|i| i.url.href.clone()).collect()
}

const PAGE: &str = "<a href=\"https://example.com/a\">a</a> <a href=\"https://other.com/b\">b</a>";

fn crawl_all(mut frontier: Frontier, page_of: fn(&str) -> Option<&'static str>) -> (Vec<String>, Frontier) {
    let mut fetched = Vec::new();
    while !frontier.is_done() {
        let item = frontier.next_fetch().unwrap();
        fetched.push(item.url.href.clone());
        match page_of(&item.url.href) {
            Some(html) => frontier.page_fetched(item.depth, &item.url, html),
            None => frontier.fetch_failed(),
        }
    }
    (fetched, frontier)
}

fn site(href: &str) -> Option<&'static str> {
    match href {
        "https://example.com/" => Some(PAGE),
        "https://example.com/a" => Some("<a href=\"/\">home</a> <a href=\"/a\">self</a> <a href=\"/c\">c</a>"),
        "https://example.com/c" => Some("<a href=\"/d\">d</a>"),
        "https://other.com/b" => Some("<a href=\"/e\">e</a>"),
        _ => None,
    }
}

#[test]
fn same_domain_crawl_fetches_seed_and_a_and_drops_b() {
    let (fetched, frontier) = crawl_all(Frontier::new(seed(), 1, true, 2), site);
    assert_eq!(fetched, vec!["https://example.com/", "https://example.com/a"]);
    assert_eq!(hrefs(&frontier), vec!["https://example.com/", "https://example.com/a"]);
}

#[test]
fn crawl_without_domain_filter_records_b_as_discovered() {
    let mut frontier = Frontier::new(seed(), 1, false, 2);
    let item = frontier.next_fetch().unwrap();
    frontier.page_fetched(item.depth, &item.url, PAGE);
    assert_eq!(
        hrefs(&frontier),
        vec!["https://example.com/", "https://example.com/a", "https://other.com/b"]
    );
    let depths: Vec<u32> = frontier.discovered().iter().map(|i| i.depth).collect();
    assert_eq!(depths, vec![0, 1, 1]);
}

#[test]
fn depth_zero_fetches_only_the_seed() {
    let (fetched, frontier) = crawl_all(Frontier::new(seed(), 0, true, 4), site);
    assert_eq!(fetched, vec!["https://example.com/"]);
    assert_eq!(frontier.discovered().len(), 1);
    assert_eq!(frontier.fetched_count(), 1);
}

#[test]
fn no_url_is_fetched_twice() {
    let (fetched, _) = crawl_all(Frontier::new(seed(), 5, false, 3), site);
    let mut unique = fetched.clone();
    unique.sort();
    unique.dedup();
    assert_eq!(unique.len(), fetched.len());
    assert_eq!(
        fetched,
        vec![
            "https://example.com/",
            "https://example.com/a",
            "https://other.com/b",
            "https://example.com/c",
            "https://other.com/e",
            "https://example.com/d",
        ]
    );
}

#[test]
fn children_of_pages_at_the_greatest_depth_are_not_discovered() {
    let (fetched, frontier) = crawl_all(Frontier::new(seed(), 2, true, 1), site);
    assert_eq!(
        fetched,
        vec!["https://example.com/", "https://example.com/a", "https://example.com/c"]
    );
    assert!(!hrefs(&frontier).contains(&"https://example.com/d".to_string()));
}

#[test]
fn fetches_in_flight_never_exceed_the_limit() {
    let mut frontier = Frontier::new(seed(), 3, false, 2);
    let first = frontier.next_fetch().unwrap();
    assert!(frontier.next_fetch().is_none());
    frontier.page_fetched(first.depth, &first.url, PAGE);
    let a = frontier.next_fetch().unwrap();
    let b = frontier.next_fetch().unwrap();
    assert_eq!(frontier.in_flight(), 2);
    assert!(frontier.next_fetch().is_none());
    assert!(!frontier.is_done());
    frontier.fetch_failed();
    assert_eq!(frontier.in_flight(), 1);
    frontier.page_fetched(b.depth, &b.url, "");
    assert_eq!(a.url.href, "https://example.com/a");
    assert_eq!(frontier.in_flight(), 0);
    assert!(frontier.is_done());
}

#[test]
fn a_limit_of_zero_counts_as_one() {
    let mut frontier = Frontier::new(seed(), 0, true, 0);
    assert!(frontier.next_fetch().is_some());
    assert!(frontier.next_fetch().is_none());
}

#[test]
fn a_failed_fetch_loses_the_page_and_goes_on() {
    let mut frontier = Frontier::new(seed(), 1, true, 1);
    let item = frontier.next_fetch().unwrap();
    assert_eq!(item.depth, 0);
    frontier.fetch_failed();
    assert!(frontier.is_done());
    assert_eq!(frontier.discovered().len(), 1);
}

#[test]
fn cancelling_stops_new_fetches_and_lets_running_ones_end() {
    let mut frontier = Frontier::new(seed(), 2, true, 2);
    let first = frontier.next_fetch().unwrap();
    frontier.cancel();
    assert!(!frontier.is_done());
    frontier.page_fetched(first.depth, &first.url, PAGE);
    assert!(frontier.next_fetch().is_none());
    assert!(frontier.is_done());
    assert_eq!(frontier.discovered().len(), 2);
}

#[test]
fn reports_without_a_fetch_in_flight_change_nothing() {
    let mut frontier = Frontier::new(seed(), 1, true, 1);
    frontier.fetch_failed();
    assert_eq!(frontier.in_flight(), 0);
    assert!(!frontier.is_done());
    assert!(frontier.next_fetch().is_some());
}

#[test]
fn links_are_resolved_against_the_page_and_unfetchable_ones_dropped() {
    let mut frontier = Frontier::new(seed(), 1, true, 1);
    let item = frontier.next_fetch().unwrap();
    let page = WebUrl::parse("https://example.com/docs/index.html").unwrap();
    let html = "<a href=\"guide.html\">g</a><a href=\"#top\">t</a><a href=\"mailto:x@example.com\">m</a>\
                <a href=\"javascript:go()\">j</a><a href=\"../up\">u</a><a href=\"guide.html\">again</a>";
    frontier.page_fetched(item.depth, &page, html);
    assert_eq!(
        hrefs(&frontier),
        vec![
            "https://example.com/",
            "https://example.com/docs/guide.html",
            "https://example.com/up",
        ]
    );
}

fn entry(url: &str, status: CrawlStatus) -> UrlEntry {
    UrlEntry {
        url: url.to_string(),
        name: "site".to_string(),
        last_download: None,
        last_try: None,
        last_fail: None,
        crawl_depth: 2,
        status,
        version: 1,
    }
}

#[test]
fn crawler_sets_up_the_job_and_notes_the_try() {
    let crawler = Crawler::new(DoclingConfig::default());
    let mut e = entry("https://example.com/", CrawlStatus::Enabled);
    let job = crawler.process_entry(&mut e, 1_700_000_000).unwrap().unwrap();
    assert_eq!(e.last_try, Some(1_700_000_000));
    assert_eq!(e.version, 1);
    assert_eq!(job.html_dir, "outputs/site/parts_html");
    assert_eq!(job.media_dir, "outputs/site/parts_media");
    assert_eq!(job.errors_dir, "outputs/site/ERRORS");
    assert_eq!(job.user_agent, "mi4uling-docling-bot");
    assert_eq!(job.delay_ms, 500);
    assert_eq!(job.timeout_secs, 30);
    assert!(job.respect_robots_txt);
    assert_eq!(job.media_limit, 1);
    assert_eq!(hrefs(&job.frontier), vec!["https://example.com/"]);
}

#[test]
fn crawler_passes_over_a_disabled_entry() {
    let crawler = Crawler::new(DoclingConfig::default());
    let mut e = entry("https://example.com/", CrawlStatus::Disabled);
    assert!(crawler.process_entry(&mut e, 5).unwrap().is_none());
    assert_eq!(e.last_try, Some(5));
    assert_eq!(e.status, CrawlStatus::Disabled);
}

#[test]
fn crawler_refuses_a_seed_that_does_not_parse() {
    let crawler = Crawler::new(DoclingConfig::default());
    let mut e = entry("no url", CrawlStatus::Enabled);
    assert!(matches!(crawler.process_entry(&mut e, 5), Err(CrawlError::InvalidSeed)));
}
