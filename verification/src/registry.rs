//! The entries that are to be ingested, by name.

use vstd::prelude::*;
use crate::address::{WebUrl, url_parsed};
use crate::config::{DoclingConfig, DEFAULT_CRAWL_DEPTH};
use crate::retry::{
    Action, Event, RunState, entry_after, lemma_status_transitions, run_entry, run_step,
};
use crate::text::same_text;

verus! {

/// Whether an entry is to be ingested.
#[derive(Clone, Copy, Debug, PartialEq, Eq, Structural)]
pub enum CrawlStatus {
    /// Ready to run.
    Enabled,
    /// Switched off by the user.
    Disabled,
    /// Halted after every attempt failed.
    Failed,
}

impl Default for CrawlStatus {
    fn default() -> (r: Self)
        ensures
            r == CrawlStatus::Enabled,
    {
        CrawlStatus::Enabled
    }
}

/// Why a change to the registry was refused.
#[derive(Clone, Copy, Debug, PartialEq, Eq, Structural)]
pub enum RegistryError {
    /// The URL does not parse as an absolute URL.
    InvalidUrl,
    /// An entry of that name exists already.
    AlreadyExists,
    /// No entry has that name.
    NotFound,
}

/// One ingestion target. Instants are seconds since the Unix epoch.
#[derive(Clone, Debug)]
pub struct UrlEntry {
    /// The seed URL, in its normalised written form.
    pub url: String,
    /// The entry's name, under which its files are stored.
    pub name: String,
    /// When the entry was last ingested with success.
    pub last_download: Option<i64>,
    /// When the entry was last tried.
    pub last_try: Option<i64>,
    /// When an attempt last failed.
    pub last_fail: Option<i64>,
    /// Link levels followed from the seed.
    pub crawl_depth: u32,
    /// Whether the entry is to be ingested.
    pub status: CrawlStatus,
    /// The number of successful ingestions, counted from one.
    pub version: u32,
}

/// Whole days from `earlier` to `later`, rounded towards zero.
pub open spec fn days_between(earlier: i64, later: i64) -> int {
    if later >= earlier {
        (later - earlier) / 86400
    } else {
        -((earlier - later) / 86400)
    }
}

impl UrlEntry {
    /// The entry as it is when first registered under `name` for the URL
    /// written `href`.
    pub open spec fn is_new(self, href: Seq<char>, name: Seq<char>, depth: Option<u32>) -> bool {
        &&& self.url@ == href
        &&& self.name@ == name
        &&& self.last_download is None
        &&& self.last_try is None
        &&& self.last_fail is None
        &&& self.crawl_depth == match depth {
            Some(d) => d,
            None => DEFAULT_CRAWL_DEPTH,
        }
        &&& self.status == CrawlStatus::Enabled
        &&& self.version == 1
    }

    /// Whether the content is due at `now`: it was never downloaded, or at
    /// least `days` whole days ago.
    pub open spec fn is_due(self, days: u32, now: i64) -> bool {
        match self.last_download {
            Some(last) => days_between(last, now) >= days,
            None => true,
        }
    }

    /// A new entry for `url` under `name`. Fails where the URL does not
    /// parse.
    pub fn new(url: &str, name: &str, crawl_depth: Option<u32>) -> (r: Result<
        UrlEntry,
        RegistryError,
    >)
        ensures
            match url_parsed(url@) {
                Some(u) => r is Ok && r->Ok_0.is_new(u.href, name@, crawl_depth),
                None => r is Err && r->Err_0 == RegistryError::InvalidUrl,
            },
    {
        match WebUrl::parse(url) {
            Some(parsed) => Ok(
                UrlEntry {
                    url: parsed.href,
                    name: name.to_owned(),
                    last_download: None,
                    last_try: None,
                    last_fail: None,
                    crawl_depth: match crawl_depth {
                        Some(d) => d,
                        None => DEFAULT_CRAWL_DEPTH,
                    },
                    status: CrawlStatus::Enabled,
                    version: 1,
                },
            ),
            None => Err(RegistryError::InvalidUrl),
        }
    }

    /// Whether the entry is to be ingested again at `now`.
    pub fn should_refresh(&self, config: &DoclingConfig, now: i64) -> (r: bool)
        ensures
            r == self.is_due(config.refetch_after_days, now),
    {
        match self.last_download {
            Some(last) => {
                if now >= last {
                    let elapsed: i128 = now as i128 - last as i128;
                    elapsed / 86400 >= config.refetch_after_days as i128
                } else {
                    let ahead: i128 = last as i128 - now as i128;
                    config.refetch_after_days == 0 && ahead / 86400 == 0
                }
            },
            None => true,
        }
    }
}

/// The registry: entries in the order in which they were added, no two
/// of one name.
#[derive(Debug)]
pub struct UrlEntries {
    entries: Vec<UrlEntry>,
}

impl View for UrlEntries {
    type V = Seq<UrlEntry>;

    closed spec fn view(&self) -> Seq<UrlEntry> {
        self.entries@
    }
}

impl Default for UrlEntries {
    fn default() -> (r: Self)
        ensures
            r@.len() == 0,
            r.wf(),
    {
        UrlEntries { entries: Vec::new() }
    }
}

/// Some entry of `entries` has the name `name`.
pub open spec fn has_name(entries: Seq<UrlEntry>, name: Seq<char>) -> bool {
    exists|i: int| 0 <= i < entries.len() && #[trigger] entries[i].name@ == name
}

/// No two entries have the same name.
pub open spec fn names_unique(entries: Seq<UrlEntry>) -> bool {
    forall|i: int, j: int|
        0 <= i < j < entries.len() ==> #[trigger] entries[i].name@ != #[trigger] entries[j].name@
}

/// The entries without those named `name`.
pub open spec fn without_name(entries: Seq<UrlEntry>, name: Seq<char>) -> Seq<UrlEntry>
    decreases entries.len(),
{
    if entries.len() == 0 {
        Seq::empty()
    } else if entries.last().name@ == name {
        without_name(entries.drop_last(), name)
    } else {
        without_name(entries.drop_last(), name).push(entries.last())
    }
}

/// The entries, with the status of those named `name` set to `status`.
pub open spec fn with_status(entries: Seq<UrlEntry>, name: Seq<char>, status: CrawlStatus) -> Seq<
    UrlEntry,
> {
    Seq::new(
        entries.len(),
        |i: int|
            if entries[i].name@ == name {
                UrlEntry { status, ..entries[i] }
            } else {
                entries[i]
            },
    )
}

/// The name an entry gets: the one given, else the URL's host, else
/// `unnamed`.
pub open spec fn entry_name(given: Option<Seq<char>>, host: Option<Seq<char>>) -> Seq<char> {
    match given {
        Some(n) => n,
        None => match host {
            Some(h) => h,
            None => "unnamed"@,
        },
    }
}

/// Whether no two entries have the same name.
pub fn unique_names(entries: &Vec<UrlEntry>) -> (r: bool)
    ensures
        r == names_unique(entries@),
{
    let mut j: usize = 0;
    while j < entries.len()
        invariant
            j <= entries.len(),
            forall|a: int, b: int|
                0 <= a < b < j ==> (#[trigger] entries@[a]).name@ != (#[trigger] entries@[b]).name@,
        decreases entries.len() - j,
    {
        let mut i: usize = 0;
        while i < j
            invariant
                i <= j < entries.len(),
                forall|a: int| 0 <= a < i ==> (#[trigger] entries@[a]).name@ != entries@[j as int].name@,
            decreases j - i,
        {
            if same_text(entries[i].name.as_str(), entries[j].name.as_str()) {
                return false;
            }
            i += 1;
        }
        j += 1;
    }
    true
}

impl UrlEntries {
    /// What holds of every registry: no two entries have the same name.
    pub open spec fn wf(&self) -> bool {
        names_unique(self@)
    }

    /// The registry of the given entries; none where two of them have the
    /// same name.
    pub fn from_entries(entries: Vec<UrlEntry>) -> (r: Option<UrlEntries>)
        ensures
            match r {
                Some(all) => names_unique(entries@) && all@ == entries@ && all.wf(),
                None => !names_unique(entries@),
            },
    {
        if unique_names(&entries) {
            Some(UrlEntries { entries })
        } else {
            None
        }
    }

    /// All entries, in the order in which they were added.
    pub fn entries(&self) -> (r: &Vec<UrlEntry>)
        ensures
            r@ == self@,
    {
        &self.entries
    }

    /// One step of the run of the entry at `index`: the cycle moves on
    /// `event`, and the entry is brought up to date for the action that
    /// follows. The other entries stay as they are.
    pub fn step_entry(
        &mut self,
        index: usize,
        state: RunState,
        event: Event,
        now: i64,
        config: &DoclingConfig,
    ) -> (r: (RunState, Action))
        requires
            old(self).wf(),
            index < old(self)@.len(),
        ensures
            final(self).wf(),
            r == run_step(
                old(self)@[index as int],
                state,
                event,
                config.retry_count,
                config.retry_delay@,
            ),
            final(self)@ == old(self)@.update(
                index as int,
                entry_after(old(self)@[index as int], r.1, now),
            ),
    {
        let mut entry = self.entries.remove(index);
        let ghost before = entry;
        let r = run_entry(&mut entry, state, event, now, config);
        proof {
            lemma_status_transitions(
                before,
                state,
                event,
                now,
                config.retry_count,
                config.retry_delay@,
            );
        }
        self.entries.insert(index, entry);
        proof {
            let after = final(self)@;
            let first = old(self)@;
            assert(after =~= first.update(index as int, entry));
            assert forall|i: int, j: int| 0 <= i < j < after.len() implies (
            #[trigger] after[i]).name@ != (#[trigger] after[j]).name@ by {
                assert(after[i].name == first[i].name);
                assert(after[j].name == first[j].name);
            }
        }
        r
    }
}

/// Whether some entry has the name `name`.
pub fn contains_name(entries: &Vec<UrlEntry>, name: &str) -> (b: bool)
    ensures
        b == has_name(entries@, name@),
{
    let mut i: usize = 0;
    while i < entries.len()
        invariant
            i <= entries.len(),
            forall|j: int| 0 <= j < i ==> #[trigger] entries@[j].name@ != name@,
        decreases entries.len() - i,
    {
        if same_text(entries[i].name.as_str(), name) {
            return true;
        }
        i += 1;
    }
    false
}

/// Sets the status of the entries named `name`.
fn set_status(entries: &mut Vec<UrlEntry>, name: &str, status: CrawlStatus)
    ensures
        final(entries)@ == with_status(old(entries)@, name@, status),
{
    let mut i: usize = 0;
    while i < entries.len()
        invariant
            i <= entries.len(),
            entries.len() == old(entries).len(),
            forall|j: int|
                0 <= j < i ==> #[trigger] entries@[j] == with_status(old(entries)@, name@, status)[j],
            forall|j: int| i <= j < entries.len() ==> #[trigger] entries@[j] == old(entries)@[j],
        decreases entries.len() - i,
    {
        if same_text(entries[i].name.as_str(), name) {
            entries[i].status = status;
        }
        i += 1;
    }
    assert(entries@ =~= with_status(old(entries)@, name@, status));
}

/// Registers `url` under the given name, or under its host where no name
/// is given. Fails where the URL does not parse or the name is taken; the
/// registry is then left as it was.
pub fn add_url(
    entries: &mut UrlEntries,
    url: &str,
    name_opt: Option<&str>,
    crawl_depth: Option<u32>,
) -> (r: Result<(), RegistryError>)
    ensures
        match url_parsed(url@) {
            None => r == Err::<(), RegistryError>(RegistryError::InvalidUrl) && *final(entries)
                == *old(entries),
            Some(u) => {
                let name = entry_name(
                    match name_opt {
                        Some(n) => Some(n@),
                        None => None,
                    },
                    u.host,
                );
                if has_name(old(entries)@, name) {
                    r == Err::<(), RegistryError>(RegistryError::AlreadyExists) && *final(entries)
                        == *old(entries)
                } else {
                    &&& r is Ok
                    &&& final(entries)@.len() == old(entries)@.len() + 1
                    &&& final(entries)@.drop_last() == old(entries)@
                    &&& final(entries)@.last().is_new(u.href, name, crawl_depth)
                }
            },
        },
        old(entries).wf() ==> final(entries).wf(),
{
    let parsed = match WebUrl::parse(url) {
        Some(parsed) => parsed,
        None => {
            return Err(RegistryError::InvalidUrl);
        },
    };
    let name: String = match name_opt {
        Some(n) => n.to_owned(),
        None => match parsed.host {
            Some(h) => h,
            None => "unnamed".to_owned(),
        },
    };
    if contains_name(&entries.entries, name.as_str()) {
        return Err(RegistryError::AlreadyExists);
    }
    let entry = UrlEntry {
        url: parsed.href,
        name,
        last_download: None,
        last_try: None,
        last_fail: None,
        crawl_depth: match crawl_depth {
            Some(d) => d,
            None => DEFAULT_CRAWL_DEPTH,
        },
        status: CrawlStatus::Enabled,
        version: 1,
    };
    entries.entries.push(entry);
    assert(final(entries)@.drop_last() =~= old(entries)@);
    Ok(())
}

/// Removes the entry named `name`. Fails where there is none.
pub fn remove_url(entries: &mut UrlEntries, name: &str) -> (r: Result<(), RegistryError>)
    ensures
        r is Ok <==> has_name(old(entries)@, name@),
        r is Err ==> r->Err_0 == RegistryError::NotFound,
        final(entries)@ == without_name(old(entries)@, name@),
        !has_name(final(entries)@, name@),
        old(entries).wf() ==> final(entries).wf(),
{
    if !contains_name(&entries.entries, name) {
        proof {
            lemma_without_absent(entries@, name@);
        }
        return Err(RegistryError::NotFound);
    }
    let mut kept: Vec<UrlEntry> = Vec::new();
    let mut rest: Vec<UrlEntry> = Vec::new();
    std::mem::swap(&mut rest, &mut entries.entries);
    let ghost all = rest@;
    for entry in it: rest.into_iter()
        invariant
            it.seq() == all,
            kept@ == without_name(all.take(it.index()), name@),
    {
        proof {
            let next = all.take(it.index() + 1);
            assert(next.drop_last() =~= all.take(it.index()));
            assert(next.last() == entry);
        }
        if !same_text(entry.name.as_str(), name) {
            kept.push(entry);
        }
    }
    assert(all.take(all.len() as int) =~= all);
    proof {
        lemma_without_name(all, name@);
    }
    entries.entries = kept;
    Ok(())
}

/// What is left without a name holds that name no more, holds only entries
/// that were there, and keeps names unique.
pub proof fn lemma_without_name(entries: Seq<UrlEntry>, name: Seq<char>)
    ensures
        !has_name(without_name(entries, name), name),
        forall|i: int|
            0 <= i < without_name(entries, name).len() ==> entries.contains(
                #[trigger] without_name(entries, name)[i],
            ),
        names_unique(entries) ==> names_unique(without_name(entries, name)),
        without_name(entries, name).len() <= entries.len(),
    decreases entries.len(),
{
    if entries.len() > 0 {
        let head = entries.drop_last();
        lemma_without_name(head, name);
        let out = without_name(entries, name);
        let sub = without_name(head, name);
        assert forall|i: int| 0 <= i < out.len() implies entries.contains(#[trigger] out[i]) by {
            if i < sub.len() {
                assert(head.contains(sub[i]));
                let k = choose|k: int| 0 <= k < head.len() && head[k] == sub[i];
                assert(entries[k] == sub[i]);
            } else {
                assert(entries[entries.len() - 1] == out[i]);
            }
        }
        if names_unique(entries) {
            assert(names_unique(head)) by {
                assert forall|i: int, j: int| 0 <= i < j < head.len() implies #[trigger] head[i].name@
                    != #[trigger] head[j].name@ by {
                    assert(head[i] == entries[i] && head[j] == entries[j]);
                }
            }
            if entries.last().name@ != name {
                assert forall|i: int, j: int| 0 <= i < j < out.len() implies #[trigger] out[i].name@
                    != #[trigger] out[j].name@ by {
                    if j == out.len() - 1 {
                        assert(head.contains(sub[i]));
                        let k = choose|k: int| 0 <= k < head.len() && head[k] == sub[i];
                        assert(entries[k] == sub[i]);
                        assert(entries[entries.len() - 1] == out[j]);
                    }
                }
            }
        }
    }
}

/// Where no entry has the name, none is taken away.
pub proof fn lemma_without_absent(entries: Seq<UrlEntry>, name: Seq<char>)
    requires
        !has_name(entries, name),
    ensures
        without_name(entries, name) == entries,
    decreases entries.len(),
{
    if entries.len() > 0 {
        let head = entries.drop_last();
        assert(entries[entries.len() - 1].name@ != name);
        assert(!has_name(head, name)) by {
            if has_name(head, name) {
                let i = choose|i: int| 0 <= i < head.len() && #[trigger] head[i].name@ == name;
                assert(entries[i].name@ == name);
            }
        }
        lemma_without_absent(head, name);
        assert(head.push(entries.last()) =~= entries);
    }
}

/// Setting a status keeps the names, and so their uniqueness.
pub proof fn lemma_with_status_keeps_names(
    entries: Seq<UrlEntry>,
    name: Seq<char>,
    status: CrawlStatus,
)
    ensures
        with_status(entries, name, status).len() == entries.len(),
        forall|i: int|
            0 <= i < entries.len() ==> (#[trigger] with_status(entries, name, status)[i]).name
                == entries[i].name,
        names_unique(entries) ==> names_unique(with_status(entries, name, status)),
{
}

/// Switches the entry named `name` off. Fails where there is none.
pub fn stop_url(entries: &mut UrlEntries, name: &str) -> (r: Result<(), RegistryError>)
    ensures
        r is Ok <==> has_name(old(entries)@, name@),
        r is Err ==> r->Err_0 == RegistryError::NotFound,
        final(entries)@ == with_status(
            old(entries)@,
            name@,
            CrawlStatus::Disabled,
        ),
        old(entries).wf() ==> final(entries).wf(),
{
    proof {
        lemma_with_status_keeps_names(entries@, name@, CrawlStatus::Disabled);
    }
    let found = contains_name(&entries.entries, name);
    set_status(&mut entries.entries, name, CrawlStatus::Disabled);
    if found {
        Ok(())
    } else {
        Err(RegistryError::NotFound)
    }
}

/// Switches the entry named `name` on. Fails where there is none.
pub fn start_url(entries: &mut UrlEntries, name: &str) -> (r: Result<(), RegistryError>)
    ensures
        r is Ok <==> has_name(old(entries)@, name@),
        r is Err ==> r->Err_0 == RegistryError::NotFound,
        final(entries)@ == with_status(old(entries)@, name@, CrawlStatus::Enabled),
        old(entries).wf() ==> final(entries).wf(),
{
    proof {
        lemma_with_status_keeps_names(entries@, name@, CrawlStatus::Enabled);
    }
    let found = contains_name(&entries.entries, name);
    set_status(&mut entries.entries, name, CrawlStatus::Enabled);
    if found {
        Ok(())
    } else {
        Err(RegistryError::NotFound)
    }
}

/// All entries, in the order in which they were added.
pub fn list_urls(entries: &UrlEntries) -> (r: &Vec<UrlEntry>)
    ensures
        r@ == entries@,
{
    &entries.entries
}

} // verus!
