use docling::config::DoclingConfig;
use docling::registry::{
    add_url, contains_name, list_urls, remove_url, start_url, stop_url, CrawlStatus,
    RegistryError, UrlEntries, UrlEntry,
};

fn names(entries: &UrlEntries) -> Vec<String> {
    list_urls(entries).iter().map(|e| e.name.clone()).collect()
}

#[test]
fn new_entry_starts_enabled_at_version_one() {
    let e = UrlEntry::new("HTTPS://Example.com", "site", Some(3)).unwrap();
    assert_eq!(e.url, "https://example.com/");
    assert_eq!(e.name, "site");
    assert_eq!(e.crawl_depth, 3);
    assert_eq!(e.status, CrawlStatus::Enabled);
    assert_eq!(e.version, 1);
    assert_eq!((e.last_download, e.last_try, e.last_fail), (None, None, None));
}

#[test]
fn new_entry_takes_the_default_depth() {
    let e = UrlEntry::new("https://example.com/", "site", None).unwrap();
    assert_eq!(e.crawl_depth, 1);
}

#[test]
fn new_entry_refuses_a_url_that_does_not_parse() {
    assert!(matches!(UrlEntry::new("example.com", "site", None), Err(RegistryError::InvalidUrl)));
}

#[test]
fn add_url_names_the_entry_after_the_host() {
    let mut entries = UrlEntries::default();
    assert_eq!(add_url(&mut entries, "https://docs.example.com/start", None, None), Ok(()));
    assert_eq!(names(&entries), vec!["docs.example.com"]);
    assert_eq!(entries.entries()[0].url, "https://docs.example.com/start");
}

#[test]
fn add_url_without_host_is_unnamed() {
    let mut entries = UrlEntries::default();
    assert_eq!(add_url(&mut entries, "data:text/plain,hello", None, Some(0)), Ok(()));
    assert_eq!(names(&entries), vec!["unnamed"]);
    assert_eq!(entries.entries()[0].crawl_depth, 0);
}

#[test]
fn add_url_refuses_a_taken_name_and_a_bad_url() {
    let mut entries = UrlEntries::default();
    assert_eq!(add_url(&mut entries, "https://example.com/", Some("site"), None), Ok(()));
    assert_eq!(
        add_url(&mut entries, "https://other.com/", Some("site"), None),
        Err(RegistryError::AlreadyExists)
    );
    assert_eq!(add_url(&mut entries, "nonsense", Some("new"), None), Err(RegistryError::InvalidUrl));
    assert_eq!(add_url(&mut entries, "nonsense", None, None), Err(RegistryError::InvalidUrl));
    assert_eq!(names(&entries), vec!["site"]);
    assert_eq!(entries.entries()[0].url, "https://example.com/");
}

#[test]
fn remove_url_takes_the_entry_away() {
    let mut entries = UrlEntries::default();
    add_url(&mut entries, "https://a.com/", Some("a"), None).unwrap();
    add_url(&mut entries, "https://b.com/", Some("b"), None).unwrap();
    add_url(&mut entries, "https://c.com/", Some("c"), None).unwrap();
    assert_eq!(remove_url(&mut entries, "b"), Ok(()));
    assert_eq!(names(&entries), vec!["a", "c"]);
    assert!(!contains_name(entries.entries(), "b"));
    assert_eq!(remove_url(&mut entries, "b"), Err(RegistryError::NotFound));
    assert_eq!(names(&entries), vec!["a", "c"]);
}

#[test]
fn stop_and_start_switch_the_entry() {
    let mut entries = UrlEntries::default();
    add_url(&mut entries, "https://a.com/", Some("a"), None).unwrap();
    add_url(&mut entries, "https://b.com/", Some("b"), None).unwrap();
    assert_eq!(stop_url(&mut entries, "a"), Ok(()));
    assert_eq!(entries.entries()[0].status, CrawlStatus::Disabled);
    assert_eq!(entries.entries()[1].status, CrawlStatus::Enabled);
    assert_eq!(stop_url(&mut entries, "b"), Ok(()));
    assert_eq!(start_url(&mut entries, "b"), Ok(()));
    assert_eq!(start_url(&mut entries, "a"), Ok(()));
    assert_eq!(entries.entries()[0].status, CrawlStatus::Enabled);
    assert_eq!(entries.entries()[1].status, CrawlStatus::Enabled);
    assert_eq!(entries.entries()[0].version, 1);
    assert_eq!(stop_url(&mut entries, "zzz"), Err(RegistryError::NotFound));
    assert_eq!(start_url(&mut entries, "zzz"), Err(RegistryError::NotFound));
}

#[test]
fn a_registry_holds_no_name_twice() {
    let a = UrlEntry::new("https://a.com/", "a", None).unwrap();
    let b = UrlEntry::new("https://b.com/", "b", None).unwrap();
    let again = UrlEntry::new("https://c.com/", "a", None).unwrap();
    assert!(UrlEntries::from_entries(vec![a.clone(), b.clone(), again]).is_none());
    let both = UrlEntries::from_entries(vec![a, b]).unwrap();
    assert_eq!(names(&both), vec!["a", "b"]);
    assert!(UrlEntries::from_entries(vec![]).unwrap().entries().is_empty());
}

#[test]
fn list_urls_of_an_empty_registry_is_empty() {
    assert!(list_urls(&UrlEntries::default()).is_empty());
    assert_eq!(CrawlStatus::default(), CrawlStatus::Enabled);
}

fn downloaded_at(last: Option<i64>) -> UrlEntry {
    let mut e = UrlEntry::new("https://example.com/", "site", None).unwrap();
    e.last_download = last;
    e
}

#[test]
fn entry_never_downloaded_is_due() {
    let config = DoclingConfig::default();
    assert!(downloaded_at(None).should_refresh(&config, 0));
}

#[test]
fn entry_is_due_after_the_configured_days() {
    let config = DoclingConfig::default();
    let day = 86_400;
    let e = downloaded_at(Some(1_000));
    assert!(!e.should_refresh(&config, 1_000));
    assert!(!e.should_refresh(&config, 1_000 + 100 * day - 1));
    assert!(e.should_refresh(&config, 1_000 + 100 * day));
    assert!(e.should_refresh(&config, i64::MAX));
    assert!(!e.should_refresh(&config, i64::MIN));
}

#[test]
fn entry_with_zero_days_is_due_unless_downloaded_a_day_ahead() {
    let mut config = DoclingConfig::default();
    config.refetch_after_days = 0;
    let e = downloaded_at(Some(100_000));
    assert!(e.should_refresh(&config, 100_000));
    assert!(e.should_refresh(&config, 100_000 - 86_399));
    assert!(!e.should_refresh(&config, 100_000 - 86_400));
}
