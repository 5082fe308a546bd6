//! The attempt cycle of one entry: crawl, convert, combine; on a failure
//! wait and begin again, until the configured retries are used up.

use vstd::prelude::*;
use crate::config::DoclingConfig;
use crate::registry::{CrawlStatus, UrlEntries, UrlEntry};
use crate::text::same_text;

verus! {

/// Seconds to wait before a retry for which no delay is configured.
pub const DEFAULT_RETRY_DELAY: u64 = 60;

/// Where an attempt cycle stands.
#[derive(Clone, Copy, Debug, PartialEq, Eq, Structural)]
pub enum Stage {
    /// Nothing was started.
    Pending,
    /// Pages are being fetched.
    Crawling,
    /// Pages are being converted to Markdown.
    Converting,
    /// The Markdown is being combined.
    Combining,
    /// An attempt failed and the delay before the next runs.
    Waiting,
    /// The combined document was produced.
    Succeeded,
    /// Every attempt failed.
    Failed,
}

/// The state of an attempt cycle.
#[derive(Clone, Copy, Debug, PartialEq, Eq, Structural)]
pub struct RunState {
    /// Where the cycle stands.
    pub stage: Stage,
    /// How many retries were begun.
    pub retries: u32,
}

/// What the caller reports to the cycle.
#[derive(Clone, Copy, Debug, PartialEq, Eq, Structural)]
pub enum Event {
    /// The cycle is to begin.
    Begin,
    /// The running stage ended well.
    StageOk,
    /// The running stage failed in a way that another attempt may mend.
    StageFailed,
    /// The running stage failed for good: the settings or the entry are at
    /// fault, and no attempt can mend that.
    Fatal,
    /// The delay has passed.
    Woke,
}

/// Why a stage failed.
#[derive(Clone, Copy, Debug, PartialEq, Eq, Structural)]
pub enum Failure {
    /// The network: a timeout, a refused connection, a status that is no
    /// success.
    Network,
    /// The machine: a directory or file could not be made or read.
    Resource,
    /// The settings or the entry: a URL that does not parse or has no host.
    Configuration,
}

/// What is reported to the cycle for the outcome of a stage: a failure of
/// the network or the machine may be mended by another attempt, one of the
/// settings may not.
pub open spec fn event_for(outcome: Result<(), Failure>) -> Event {
    match outcome {
        Ok(_) => Event::StageOk,
        Err(Failure::Configuration) => Event::Fatal,
        Err(_) => Event::StageFailed,
    }
}

/// What is reported to the cycle for the outcome of a stage.
pub fn event_of(outcome: Result<(), Failure>) -> (e: Event)
    ensures
        e == event_for(outcome),
{
    match outcome {
        Ok(_) => Event::StageOk,
        Err(Failure::Configuration) => Event::Fatal,
        Err(_) => Event::StageFailed,
    }
}

/// What the caller is to do next.
#[derive(Clone, Copy, Debug, PartialEq, Eq, Structural)]
pub enum Action {
    /// Crawl the entry, from nothing.
    Crawl,
    /// Convert the stored pages.
    Convert,
    /// Combine the Markdown.
    Combine,
    /// Record the failure, then wait the given seconds and report `Woke`.
    RetryAfter(u64),
    /// Record the success; the cycle is over.
    Succeed,
    /// Record the failure and mark the entry failed; the cycle is over.
    GiveUp,
    /// Record the failure and tell the caller at once; the cycle is over,
    /// and the entry's status stays as it is.
    Abort,
    /// The event does not fit the state: do nothing.
    Ignore,
}

/// The seconds to wait before the retry with index `retry`: the delay
/// configured at that index, or the default where none is.
pub open spec fn delay_before(delays: Seq<u64>, retry: u32) -> u64 {
    if retry < delays.len() {
        delays[retry as int]
    } else {
        DEFAULT_RETRY_DELAY
    }
}

/// Whether a stage is one of the three that do work.
pub open spec fn is_working(stage: Stage) -> bool {
    stage == Stage::Crawling || stage == Stage::Converting || stage == Stage::Combining
}

/// The state after `event`, and what the caller is to do.
pub open spec fn next(state: RunState, event: Event, retry_count: u32, delays: Seq<u64>) -> (
    RunState,
    Action,
) {
    match (state.stage, event) {
        (Stage::Pending, Event::Begin) => (
            RunState { stage: Stage::Crawling, retries: 0 },
            Action::Crawl,
        ),
        (Stage::Crawling, Event::StageOk) => (
            RunState { stage: Stage::Converting, ..state },
            Action::Convert,
        ),
        (Stage::Converting, Event::StageOk) => (
            RunState { stage: Stage::Combining, ..state },
            Action::Combine,
        ),
        (Stage::Combining, Event::StageOk) => (
            RunState { stage: Stage::Succeeded, ..state },
            Action::Succeed,
        ),
        (Stage::Waiting, Event::Woke) => if state.retries < u32::MAX {
            (RunState { stage: Stage::Crawling, retries: (state.retries + 1) as u32 }, Action::Crawl)
        } else {
            (state, Action::Ignore)
        },
        (_, Event::Fatal) => if is_working(state.stage) {
            (RunState { stage: Stage::Failed, ..state }, Action::Abort)
        } else {
            (state, Action::Ignore)
        },
        (_, Event::StageFailed) => if !is_working(state.stage) {
            (state, Action::Ignore)
        } else if state.retries < retry_count {
            (
                RunState { stage: Stage::Waiting, ..state },
                Action::RetryAfter(delay_before(delays, state.retries)),
            )
        } else {
            (RunState { stage: Stage::Failed, ..state }, Action::GiveUp)
        },
        _ => (state, Action::Ignore),
    }
}

/// The delays waited when every attempt from the state on fails, whatever
/// stage it fails in; `state` is a working stage.
pub open spec fn delays_when_all_fail(retries: u32, retry_count: u32, delays: Seq<u64>) -> Seq<u64>
    decreases retry_count - retries,
{
    if retries < retry_count {
        seq![delay_before(delays, retries)] + delays_when_all_fail(
            (retries + 1) as u32,
            retry_count,
            delays,
        )
    } else {
        Seq::empty()
    }
}

/// The delays that the cycle asks for, and the state it ends in, when
/// the attempt in progress and every later one fails.
pub open spec fn failing_run(state: RunState, retry_count: u32, delays: Seq<u64>) -> (
    Seq<u64>,
    RunState,
)
    decreases retry_count - state.retries,
{
    let (after, action) = next(state, Event::StageFailed, retry_count, delays);
    match action {
        Action::RetryAfter(delay) => {
            let again = next(after, Event::Woke, retry_count, delays).0;
            if again.retries > state.retries && is_working(again.stage) {
                let (later, end) = failing_run(again, retry_count, delays);
                (seq![delay] + later, end)
            } else {
                (seq![delay], again)
            }
        },
        _ => (Seq::empty(), after),
    }
}

/// For every schedule: when all attempts fail, the cycle asks for the
/// configured delays in order, one before each retry, with the default
/// where the list is used up, and then ends with the entry given up, the
/// retries all used.
pub proof fn lemma_failing_run(state: RunState, retry_count: u32, delays: Seq<u64>)
    requires
        is_working(state.stage),
        state.retries <= retry_count,
    ensures
        failing_run(state, retry_count, delays).0 == delays_when_all_fail(
            state.retries,
            retry_count,
            delays,
        ),
        failing_run(state, retry_count, delays).1 == (RunState {
            stage: Stage::Failed,
            retries: retry_count,
        }),
    decreases retry_count - state.retries,
{
    if state.retries < retry_count {
        let after = next(state, Event::StageFailed, retry_count, delays).0;
        let again = next(after, Event::Woke, retry_count, delays).0;
        lemma_failing_run(again, retry_count, delays);
    }
}

/// When every attempt fails, the delays waited are those configured for
/// the retry indices from the first on, the default standing in where the
/// list is used up: as many as there are retries.
pub proof fn lemma_delays_when_all_fail(retries: u32, retry_count: u32, delays: Seq<u64>)
    requires
        retries <= retry_count,
    ensures
        delays_when_all_fail(retries, retry_count, delays).len() == retry_count - retries,
        forall|i: int|
            0 <= i < retry_count - retries ==> #[trigger] delays_when_all_fail(
                retries,
                retry_count,
                delays,
            )[i] == delay_before(delays, (retries + i) as u32),
    decreases retry_count - retries,
{
    if retries < retry_count {
        lemma_delays_when_all_fail((retries + 1) as u32, retry_count, delays);
    }
}

impl RunState {
    /// The state before anything was started.
    pub fn new() -> (r: RunState)
        ensures
            r == (RunState { stage: Stage::Pending, retries: 0 }),
    {
        RunState { stage: Stage::Pending, retries: 0 }
    }

    /// Whether the cycle is over.
    pub fn is_over(&self) -> (r: bool)
        ensures
            r == (self.stage == Stage::Succeeded || self.stage == Stage::Failed),
    {
        self.stage == Stage::Succeeded || self.stage == Stage::Failed
    }
}

/// The seconds to wait before the retry with index `retry`.
pub fn retry_delay(config: &DoclingConfig, retry: u32) -> (r: u64)
    ensures
        r == delay_before(config.retry_delay@, retry),
{
    if (retry as usize) < config.retry_delay.len() {
        config.retry_delay[retry as usize]
    } else {
        DEFAULT_RETRY_DELAY
    }
}

/// The state after `event`, and what the caller is to do.
pub fn step(state: RunState, event: Event, config: &DoclingConfig) -> (r: (RunState, Action))
    ensures
        r == next(state, event, config.retry_count, config.retry_delay@),
{
    match (state.stage, event) {
        (Stage::Pending, Event::Begin) => (
            RunState { stage: Stage::Crawling, retries: 0 },
            Action::Crawl,
        ),
        (Stage::Crawling, Event::StageOk) => (
            RunState { stage: Stage::Converting, retries: state.retries },
            Action::Convert,
        ),
        (Stage::Converting, Event::StageOk) => (
            RunState { stage: Stage::Combining, retries: state.retries },
            Action::Combine,
        ),
        (Stage::Combining, Event::StageOk) => (
            RunState { stage: Stage::Succeeded, retries: state.retries },
            Action::Succeed,
        ),
        (Stage::Waiting, Event::Woke) => if state.retries < u32::MAX {
            (RunState { stage: Stage::Crawling, retries: state.retries + 1 }, Action::Crawl)
        } else {
            (state, Action::Ignore)
        },
        (stage, Event::Fatal) => {
            let working = stage == Stage::Crawling || stage == Stage::Converting || stage
                == Stage::Combining;
            if working {
                (RunState { stage: Stage::Failed, retries: state.retries }, Action::Abort)
            } else {
                (state, Action::Ignore)
            }
        },
        (stage, Event::StageFailed) => {
            let working = stage == Stage::Crawling || stage == Stage::Converting || stage
                == Stage::Combining;
            if !working {
                (state, Action::Ignore)
            } else if state.retries < config.retry_count {
                (
                    RunState { stage: Stage::Waiting, retries: state.retries },
                    Action::RetryAfter(retry_delay(config, state.retries)),
                )
            } else {
                (RunState { stage: Stage::Failed, retries: state.retries }, Action::GiveUp)
            }
        },
        _ => (state, Action::Ignore),
    }
}

/// Why an entry cannot be run.
#[derive(Clone, Copy, Debug, PartialEq, Eq, Structural)]
pub enum RunError {
    /// No entry has that name.
    NotFound,
    /// The entry is switched off.
    Disabled,
}

/// The index of the first entry named `name`.
pub open spec fn index_of_name(entries: Seq<UrlEntry>, name: Seq<char>) -> Option<int>
    decreases entries.len(),
{
    if entries.len() == 0 {
        None
    } else if entries[0].name@ == name {
        Some(0)
    } else {
        match index_of_name(entries.drop_first(), name) {
            Some(i) => Some(i + 1),
            None => None,
        }
    }
}

/// The index found is that of the first entry of the name; none is found
/// only where no entry has the name.
pub proof fn lemma_index_of_name(entries: Seq<UrlEntry>, name: Seq<char>)
    ensures
        match index_of_name(entries, name) {
            Some(i) => 0 <= i < entries.len() && entries[i].name@ == name && forall|j: int|
                0 <= j < i ==> (#[trigger] entries[j]).name@ != name,
            None => forall|j: int| 0 <= j < entries.len() ==> (#[trigger] entries[j]).name@ != name,
        },
    decreases entries.len(),
{
    if entries.len() > 0 && entries[0].name@ != name {
        let rest = entries.drop_first();
        lemma_index_of_name(rest, name);
        match index_of_name(rest, name) {
            Some(i) => {
                assert(entries[i + 1] == rest[i]);
                assert forall|j: int| 0 <= j < i + 1 implies (#[trigger] entries[j]).name@
                    != name by {
                    if j > 0 {
                        assert(entries[j] == rest[j - 1]);
                    }
                }
            },
            None => {
                assert forall|j: int| 0 <= j < entries.len() implies (#[trigger] entries[j]).name@
                    != name by {
                    if j > 0 {
                        assert(entries[j] == rest[j - 1]);
                    }
                }
            },
        }
    }
}

/// Where the entry named `name` stands in the registry, where it may be
/// run: it exists and is not switched off.
pub fn find_runnable(entries: &UrlEntries, name: &str) -> (r: Result<usize, RunError>)
    ensures
        match index_of_name(entries@, name@) {
            None => r == Err::<usize, RunError>(RunError::NotFound),
            Some(i) => if entries@[i].status == CrawlStatus::Disabled {
                r == Err::<usize, RunError>(RunError::Disabled)
            } else {
                r == Ok::<usize, RunError>(i as usize) && i < entries@.len()
            },
        },
{
    let all = entries.entries();
    let mut i: usize = 0;
    assert(entries@.skip(0) =~= entries@);
    while i < all.len()
        invariant
            all@ == entries@,
            i <= all.len(),
            index_of_name(entries@, name@) == match index_of_name(
                entries@.skip(i as int),
                name@,
            ) {
                Some(k) => Some(k + i),
                None => None,
            },
        decreases all.len() - i,
    {
        let ghost rest = entries@.skip(i as int);
        assert(rest[0] == entries@[i as int]);
        assert(rest.drop_first() =~= entries@.skip(i + 1));
        if same_text(all[i].name.as_str(), name) {
            if all[i].status == CrawlStatus::Disabled {
                return Err(RunError::Disabled);
            }
            return Ok(i);
        }
        i += 1;
    }
    Err(RunError::NotFound)
}

/// The entry after the caller was told `action` at the instant `now`: an
/// attempt that begins is noted as the last try, a failure as the last
/// failure; a success is noted as the last download, switches the entry
/// on and raises its version by one; giving up marks the entry failed,
/// while a failure for good leaves its status as it is.
pub open spec fn entry_after(entry: UrlEntry, action: Action, now: i64) -> UrlEntry {
    match action {
        Action::Crawl => UrlEntry { last_try: Some(now), ..entry },
        Action::RetryAfter(_) => UrlEntry { last_fail: Some(now), ..entry },
        Action::Succeed => UrlEntry {
            last_download: Some(now),
            status: CrawlStatus::Enabled,
            version: (entry.version + 1) as u32,
            ..entry
        },
        Action::GiveUp => UrlEntry { last_fail: Some(now), status: CrawlStatus::Failed, ..entry },
        Action::Abort => UrlEntry { last_fail: Some(now), ..entry },
        _ => entry,
    }
}

/// What one step of an entry's run comes to. An entry that is switched
/// off is left alone: the event is ignored. A run that is about to succeed
/// with an entry whose version has no room to rise fails for good instead.
/// Else the cycle moves as `next` says.
pub open spec fn run_step(
    entry: UrlEntry,
    state: RunState,
    event: Event,
    retry_count: u32,
    delays: Seq<u64>,
) -> (RunState, Action) {
    let (after, action) = next(state, event, retry_count, delays);
    if entry.status == CrawlStatus::Disabled {
        (state, Action::Ignore)
    } else if action == Action::Succeed && entry.version == u32::MAX {
        (RunState { stage: Stage::Failed, ..state }, Action::Abort)
    } else {
        (after, action)
    }
}

/// One step taken: the state of the cycle before it, the event, and the
/// instant.
pub struct Step {
    /// The state before the step.
    pub state: RunState,
    /// What was reported.
    pub event: Event,
    /// When.
    pub now: i64,
}

/// The entry after the given steps, of one run or of many.
pub open spec fn entry_after_steps(
    entry: UrlEntry,
    steps: Seq<Step>,
    retry_count: u32,
    delays: Seq<u64>,
) -> UrlEntry
    decreases steps.len(),
{
    if steps.len() == 0 {
        entry
    } else {
        let before = entry_after_steps(entry, steps.drop_last(), retry_count, delays);
        let step = steps.last();
        entry_after(
            before,
            run_step(before, step.state, step.event, retry_count, delays).1,
            step.now,
        )
    }
}

/// How many of the steps complete a run with success.
pub open spec fn successes(
    entry: UrlEntry,
    steps: Seq<Step>,
    retry_count: u32,
    delays: Seq<u64>,
) -> nat
    decreases steps.len(),
{
    if steps.len() == 0 {
        0
    } else {
        let before = entry_after_steps(entry, steps.drop_last(), retry_count, delays);
        let step = steps.last();
        let earlier = successes(entry, steps.drop_last(), retry_count, delays);
        if run_step(before, step.state, step.event, retry_count, delays).1 == Action::Succeed {
            earlier + 1
        } else {
            earlier
        }
    }
}

/// For all entries and all steps: the version has risen by the number of
/// successful runs, and by nothing else.
pub proof fn lemma_version_counts_successes(
    entry: UrlEntry,
    steps: Seq<Step>,
    retry_count: u32,
    delays: Seq<u64>,
)
    ensures
        entry_after_steps(entry, steps, retry_count, delays).version == entry.version + successes(
            entry,
            steps,
            retry_count,
            delays,
        ),
    decreases steps.len(),
{
    if steps.len() > 0 {
        lemma_version_counts_successes(entry, steps.drop_last(), retry_count, delays);
    }
}

/// No step of a run switches an entry off, or switches on one that is
/// switched off: such an entry is left as it is. An entry is marked failed
/// only by giving up, which comes only when the retries are used up, and
/// set back to enabled only by a success.
pub proof fn lemma_status_transitions(
    entry: UrlEntry,
    state: RunState,
    event: Event,
    now: i64,
    retry_count: u32,
    delays: Seq<u64>,
)
    ensures
        ({
            let action = run_step(entry, state, event, retry_count, delays).1;
            let after = entry_after(entry, action, now);
            &&& entry.status == CrawlStatus::Disabled ==> after == entry
            &&& after.status != CrawlStatus::Disabled || entry.status == CrawlStatus::Disabled
            &&& after.status != entry.status ==> (action == Action::GiveUp && after.status
                == CrawlStatus::Failed && state.retries >= retry_count) || (action
                == Action::Succeed && after.status == CrawlStatus::Enabled)
            &&& after.name == entry.name
            &&& after.url == entry.url
            &&& after.crawl_depth == entry.crawl_depth
        }),
{
}

/// An entry that is switched off stays as it is, whatever steps are taken.
pub proof fn lemma_disabled_entry_untouched(
    entry: UrlEntry,
    steps: Seq<Step>,
    retry_count: u32,
    delays: Seq<u64>,
)
    requires
        entry.status == CrawlStatus::Disabled,
    ensures
        entry_after_steps(entry, steps, retry_count, delays) == entry,
    decreases steps.len(),
{
    if steps.len() > 0 {
        lemma_disabled_entry_untouched(entry, steps.drop_last(), retry_count, delays);
    }
}

/// One step of an entry's run: the cycle moves on `event`, and the entry
/// is brought up to date for the action that follows.
pub fn run_entry(
    entry: &mut UrlEntry,
    state: RunState,
    event: Event,
    now: i64,
    config: &DoclingConfig,
) -> (r: (RunState, Action))
    ensures
        r == run_step(*old(entry), state, event, config.retry_count, config.retry_delay@),
        *final(entry) == entry_after(*old(entry), r.1, now),
{
    if entry.status == CrawlStatus::Disabled {
        return (state, Action::Ignore);
    }
    let (after, action) = step(state, event, config);
    match action {
        Action::Crawl => {
            entry.last_try = Some(now);
            (after, action)
        },
        Action::RetryAfter(_) => {
            entry.last_fail = Some(now);
            (after, action)
        },
        Action::Succeed => {
            if entry.version == u32::MAX {
                entry.last_fail = Some(now);
                (RunState { stage: Stage::Failed, retries: state.retries }, Action::Abort)
            } else {
                entry.last_download = Some(now);
                entry.status = CrawlStatus::Enabled;
                entry.version = entry.version + 1;
                (after, action)
            }
        },
        Action::GiveUp => {
            entry.last_fail = Some(now);
            entry.status = CrawlStatus::Failed;
            (after, action)
        },
        Action::Abort => {
            entry.last_fail = Some(now);
            (after, action)
        },
        _ => (after, action),
    }
}

} // verus!
