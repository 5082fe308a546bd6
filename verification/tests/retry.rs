use docling::config::DoclingConfig;
use docling::registry::{CrawlStatus, UrlEntries, UrlEntry};
use docling::report::{
    decimal_chars, error_file_name, error_report, exhausted_message, registry_message, run_message,
};
use docling::registry::RegistryError;
use docling::retry::{
    event_of, find_runnable, retry_delay, run_entry, step, Action, Event, Failure, RunError,
    RunState, Stage,
};

#[test]
fn a_failure_of_the_settings_ends_the_run_at_once() {
    let c = config(4, vec![10]);
    let mut e = entry(3, CrawlStatus::Enabled);
    let (s, _) = run_entry(&mut e, RunState::new(), Event::Begin, 1, &c);
    let (s, a) = run_entry(&mut e, s, event_of(Err(Failure::Configuration)), 2, &c);
    assert_eq!(a, Action::Abort);
    assert_eq!(s, RunState { stage: Stage::Failed, retries: 0 });
    assert_eq!(e.status, CrawlStatus::Enabled);
    assert_eq!(e.last_fail, Some(2));
    assert_eq!(e.version, 3);
    assert!(s.is_over());
    assert_eq!(step(RunState::new(), Event::Fatal, &c), (RunState::new(), Action::Ignore));
}

#[test]
fn failures_of_one_run_in_one_second_have_files_of_their_own() {
    let c = config(3, vec![0, 0, 0]);
    let mut e = entry(1, CrawlStatus::Enabled);
    let mut names = Vec::new();
    let (mut state, mut action) = run_entry(&mut e, RunState::new(), Event::Begin, 0, &c);
    while !state.is_over() {
        match action {
            Action::Crawl => {
                (state, action) = run_entry(&mut e, state, Event::StageFailed, 0, &c);
                names.push(error_file_name("20240131_235959", state.retries));
            }
            Action::RetryAfter(_) => (state, action) = run_entry(&mut e, state, Event::Woke, 0, &c),
            other => panic!("unexpected action {:?}", other),
        }
    }
    assert_eq!(names.len(), 4);
    let mut unique = names.clone();
    unique.sort();
    unique.dedup();
    assert_eq!(unique.len(), names.len());
}

#[test]
fn a_disabled_entry_is_left_alone() {
    let c = DoclingConfig::default();
    let mut e = entry(1, CrawlStatus::Disabled);
    let states = [
        RunState::new(),
        RunState { stage: Stage::Crawling, retries: 0 },
        RunState { stage: Stage::Combining, retries: 0 },
    ];
    for state in states {
        for event in [Event::Begin, Event::StageOk, Event::StageFailed, Event::Fatal, Event::Woke] {
            assert_eq!(run_entry(&mut e, state, event, 9, &c), (state, Action::Ignore));
        }
    }
    assert_eq!(e.status, CrawlStatus::Disabled);
    assert_eq!(e.version, 1);
    assert_eq!((e.last_try, e.last_fail, e.last_download), (None, None, None));
}

#[test]
fn a_version_with_no_room_to_rise_fails_the_run_for_good() {
    let c = DoclingConfig::default();
    let mut e = entry(u32::MAX, CrawlStatus::Enabled);
    let combining = RunState { stage: Stage::Combining, retries: 1 };
    let (s, a) = run_entry(&mut e, combining, Event::StageOk, 5, &c);
    assert_eq!(a, Action::Abort);
    assert_eq!(s, RunState { stage: Stage::Failed, retries: 1 });
    assert_eq!(e.version, u32::MAX);
    assert_eq!(e.last_fail, Some(5));
    assert_eq!(e.last_download, None);
}

#[test]
fn a_step_in_the_registry_changes_only_its_entry() {
    let c = DoclingConfig::default();
    let mut other = entry(4, CrawlStatus::Enabled);
    other.name = "other".to_string();
    let mut entries =
        UrlEntries::from_entries(vec![entry(1, CrawlStatus::Enabled), other]).unwrap();
    let combining = RunState { stage: Stage::Combining, retries: 0 };
    let (s, a) = entries.step_entry(1, combining, Event::StageOk, 77, &c);
    assert_eq!((s.stage, a), (Stage::Succeeded, Action::Succeed));
    assert_eq!(entries.entries()[1].version, 5);
    assert_eq!(entries.entries()[1].last_download, Some(77));
    assert_eq!(entries.entries()[1].name, "other");
    assert_eq!(entries.entries()[0].version, 1);
    assert_eq!(entries.entries()[0].last_download, None);
}

#[test]
fn outcomes_of_a_stage_as_events() {
    assert_eq!(event_of(Ok(())), Event::StageOk);
    assert_eq!(event_of(Err(Failure::Network)), Event::StageFailed);
    assert_eq!(event_of(Err(Failure::Resource)), Event::StageFailed);
    assert_eq!(event_of(Err(Failure::Configuration)), Event::Fatal);
}

fn entry(version: u32, status: CrawlStatus) -> UrlEntry {
    UrlEntry {
        url: "https://example.com/".to_string(),
        name: "site".to_string(),
        last_download: None,
        last_try: None,
        last_fail: None,
        crawl_depth: 1,
        status,
        version,
    }
}

fn config(retries: u32, delays: Vec<u64>) -> DoclingConfig {
    let mut c = DoclingConfig::default();
    c.retry_count = retries;
    c.retry_delay = delays;
    c
}

#[test]
fn all_attempts_fail_with_four_retries() {
    let c = config(4, vec![10, 40, 200]);
    let mut e = entry(1, CrawlStatus::Enabled);
    let mut slept = Vec::new();
    let mut attempts = 0;
    let (mut state, mut action) = run_entry(&mut e, RunState::new(), Event::Begin, 100, &c);
    loop {
        match action {
            Action::Crawl => {
                attempts += 1;
                (state, action) = run_entry(&mut e, state, Event::StageFailed, 200, &c);
            }
            Action::RetryAfter(secs) => {
                slept.push(secs);
                (state, action) = run_entry(&mut e, state, Event::Woke, 300, &c);
            }
            Action::GiveUp => break,
            other => panic!("unexpected action {:?}", other),
        }
    }
    assert_eq!(slept, vec![10, 40, 200, 60]);
    assert_eq!(attempts, 5);
    assert_eq!(state, RunState { stage: Stage::Failed, retries: 4 });
    assert_eq!(e.status, CrawlStatus::Failed);
    assert_eq!(e.last_fail, Some(200));
    assert_eq!(e.last_try, Some(300));
    assert_eq!(e.version, 1);
    assert!(state.is_over());
}

#[test]
fn a_successful_run_passes_through_every_stage() {
    let c = DoclingConfig::default();
    let mut e = entry(7, CrawlStatus::Failed);
    let (s, a) = run_entry(&mut e, RunState::new(), Event::Begin, 10, &c);
    assert_eq!((s.stage, a), (Stage::Crawling, Action::Crawl));
    assert_eq!(e.last_try, Some(10));
    let (s, a) = run_entry(&mut e, s, Event::StageOk, 11, &c);
    assert_eq!((s.stage, a), (Stage::Converting, Action::Convert));
    let (s, a) = run_entry(&mut e, s, Event::StageOk, 12, &c);
    assert_eq!((s.stage, a), (Stage::Combining, Action::Combine));
    let (s, a) = run_entry(&mut e, s, Event::StageOk, 13, &c);
    assert_eq!((s.stage, a), (Stage::Succeeded, Action::Succeed));
    assert_eq!(e.version, 8);
    assert_eq!(e.status, CrawlStatus::Enabled);
    assert_eq!(e.last_download, Some(13));
    assert_eq!(e.last_fail, None);
    assert!(s.is_over());
}

#[test]
fn version_rises_by_one_for_each_successful_run() {
    let c = DoclingConfig::default();
    let mut e = entry(1, CrawlStatus::Enabled);
    for run in 0..5u32 {
        let (mut s, _) = run_entry(&mut e, RunState::new(), Event::Begin, 0, &c);
        if run % 2 == 1 {
            let failed = run_entry(&mut e, s, Event::StageFailed, 0, &c);
            s = run_entry(&mut e, failed.0, Event::Woke, 0, &c).0;
        }
        for _ in 0..3 {
            s = run_entry(&mut e, s, Event::StageOk, 0, &c).0;
        }
        assert_eq!(s.stage, Stage::Succeeded);
        assert_eq!(e.version, 2 + run);
    }
    assert_eq!(e.version, 6);
}

#[test]
fn a_failure_in_any_stage_restarts_from_crawling() {
    let c = config(2, vec![5]);
    for ok_stages in 0..3 {
        let mut s = step(RunState::new(), Event::Begin, &c).0;
        for _ in 0..ok_stages {
            s = step(s, Event::StageOk, &c).0;
        }
        let (waiting, action) = step(s, Event::StageFailed, &c);
        assert_eq!(action, Action::RetryAfter(5));
        assert_eq!(waiting, RunState { stage: Stage::Waiting, retries: 0 });
        let (again, action) = step(waiting, Event::Woke, &c);
        assert_eq!(action, Action::Crawl);
        assert_eq!(again, RunState { stage: Stage::Crawling, retries: 1 });
    }
}

#[test]
fn no_retries_configured_means_one_attempt() {
    let c = config(0, vec![10]);
    let s = step(RunState::new(), Event::Begin, &c).0;
    assert_eq!(step(s, Event::StageFailed, &c), (RunState { stage: Stage::Failed, retries: 0 }, Action::GiveUp));
}

#[test]
fn events_that_do_not_fit_are_ignored() {
    let c = DoclingConfig::default();
    let pending = RunState::new();
    assert_eq!(step(pending, Event::StageOk, &c), (pending, Action::Ignore));
    assert_eq!(step(pending, Event::StageFailed, &c), (pending, Action::Ignore));
    assert_eq!(step(pending, Event::Woke, &c), (pending, Action::Ignore));
    let done = RunState { stage: Stage::Succeeded, retries: 0 };
    assert_eq!(step(done, Event::Begin, &c), (done, Action::Ignore));
    assert_eq!(step(done, Event::StageFailed, &c), (done, Action::Ignore));
    let failed = RunState { stage: Stage::Failed, retries: 3 };
    assert_eq!(step(failed, Event::Woke, &c), (failed, Action::Ignore));
    let crawling = RunState { stage: Stage::Crawling, retries: 0 };
    assert_eq!(step(crawling, Event::Begin, &c), (crawling, Action::Ignore));
    let last = RunState { stage: Stage::Waiting, retries: u32::MAX };
    assert_eq!(step(last, Event::Woke, &c), (last, Action::Ignore));
}

#[test]
fn retry_delay_falls_back_to_the_default() {
    let c = config(9, vec![10, 40, 200]);
    assert_eq!(retry_delay(&c, 0), 10);
    assert_eq!(retry_delay(&c, 1), 40);
    assert_eq!(retry_delay(&c, 2), 200);
    assert_eq!(retry_delay(&c, 3), 60);
    assert_eq!(retry_delay(&c, u32::MAX), 60);
    assert_eq!(retry_delay(&config(1, vec![]), 0), 60);
}

#[test]
fn only_existing_enabled_entries_can_be_run() {
    let mut other = entry(1, CrawlStatus::Failed);
    other.name = "other".to_string();
    let entries =
        UrlEntries::from_entries(vec![entry(1, CrawlStatus::Disabled), other]).unwrap();
    assert_eq!(find_runnable(&entries, "site"), Err(RunError::Disabled));
    assert_eq!(find_runnable(&entries, "other"), Ok(1));
    assert_eq!(find_runnable(&entries, "missing"), Err(RunError::NotFound));
}

#[test]
fn messages_name_the_entry_and_the_cause() {
    assert_eq!(error_file_name("20240131_235959", 0), "error_20240131_235959_0.txt");
    assert_eq!(error_file_name("20240131_235959", 12), "error_20240131_235959_12.txt");
    assert_eq!(error_report("site", "timeout"), "Error processing 'site': timeout");
    assert_eq!(
        exhausted_message(4, "connection refused"),
        "Failed to process entry after 4 retries: connection refused"
    );
    assert_eq!(run_message(RunError::Disabled, "site"), "Entry 'site' is disabled");
    assert_eq!(run_message(RunError::NotFound, "site"), "Entry with name 'site' does not exist");
    assert_eq!(registry_message(RegistryError::NotFound, "x"), "Entry with name 'x' does not exist");
    assert_eq!(registry_message(RegistryError::AlreadyExists, "x"), "Entry with name 'x' already exists");
    assert_eq!(registry_message(RegistryError::InvalidUrl, "x"), "Invalid URL format");
}

#[test]
fn numbers_are_written_in_decimal() {
    let written = |n: u32| decimal_chars(n).iter().collect::<String>();
    assert_eq!(written(0), "0");
    assert_eq!(written(9), "9");
    assert_eq!(written(10), "10");
    assert_eq!(written(4_294_967_295), "4294967295");
}
