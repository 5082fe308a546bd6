//! Settings of the pipeline and the store they are kept in.

use vstd::prelude::*;
use crate::text::{append_chars, chars_of, contains, find, string_of};

verus! {

/// Attempts that follow a failed first attempt, unless configured otherwise.
pub const DEFAULT_RETRY_COUNT: u32 = 3;

/// Milliseconds between two requests of one worker, unless configured otherwise.
pub const DEFAULT_DELAY_BETWEEN_REQUESTS_MS: u64 = 500;

/// Requests in flight at once, unless configured otherwise.
pub const DEFAULT_MAX_CONCURRENT_REQUESTS: u32 = 1;

/// Days after which content is fetched again, unless configured otherwise.
pub const DEFAULT_REFETCH_DAYS: u32 = 100;

/// Link levels followed from the seed, unless configured otherwise.
pub const DEFAULT_CRAWL_DEPTH: u32 = 1;

/// Days a backup of a settings file is kept, unless configured otherwise.
pub const DEFAULT_BACKUP_DAYS: u32 = 30;

/// Seconds in a day.
pub const SECONDS_PER_DAY: u64 = 86400;

/// The way HTML is turned into Markdown.
#[derive(Clone, Copy, Debug, PartialEq, Eq, Structural)]
pub enum TransformMethod {
    /// The `htmd` converter.
    Htmd,
    /// The `fast_html2md` converter.
    FastHtml2md,
    /// The Jina reader service.
    JinaReader,
}

impl Default for TransformMethod {
    fn default() -> (r: Self)
        ensures
            r == TransformMethod::Htmd,
    {
        TransformMethod::Htmd
    }
}

/// Settings of the ingestion pipeline.
#[derive(Clone, Debug)]
pub struct DoclingConfig {
    /// Directory of the entry registry.
    pub inputs_path: String,
    /// Directory under which each entry's output is stored.
    pub outputs_path: String,
    /// Directory of the log files.
    pub logs_path: String,
    /// Directory name for stored HTML pages.
    pub output_parts_html_suffix: String,
    /// Directory name for stored media.
    pub output_parts_media_suffix: String,
    /// Directory name for per-page Markdown.
    pub output_parts_markdown_suffix: String,
    /// Directory name for the combined document.
    pub output_parts_markdown_results_suffix: String,
    /// Attempts that follow a failed first attempt.
    pub retry_count: u32,
    /// Milliseconds a worker waits between two requests.
    pub delay_between_request_in_ms: u64,
    /// Requests in flight at once.
    pub max_concurrent_requests: u32,
    /// The user agent sent with each request.
    pub user_agent: String,
    /// Whether robots.txt is honoured.
    pub respect_robots_txt: bool,
    /// The way HTML is turned into Markdown.
    pub transform_md_using: TransformMethod,
    /// Seconds to wait before each retry, by retry index.
    pub retry_delay: Vec<u64>,
    /// Days after which content is fetched again.
    pub refetch_after_days: u32,
    /// Crawl depth of entries registered without one.
    pub default_deep: u32,
}

impl DoclingConfig {
    /// The settings a fresh installation starts with.
    pub open spec fn is_initial(self) -> bool {
        &&& self.inputs_path@ == "inputs"@
        &&& self.outputs_path@ == "outputs"@
        &&& self.logs_path@ == "logs"@
        &&& self.output_parts_html_suffix@ == "parts_html"@
        &&& self.output_parts_media_suffix@ == "parts_media"@
        &&& self.output_parts_markdown_suffix@ == "parts_md"@
        &&& self.output_parts_markdown_results_suffix@ == "results_md"@
        &&& self.retry_count == DEFAULT_RETRY_COUNT
        &&& self.delay_between_request_in_ms == DEFAULT_DELAY_BETWEEN_REQUESTS_MS
        &&& self.max_concurrent_requests == DEFAULT_MAX_CONCURRENT_REQUESTS
        &&& self.user_agent@ == "mi4uling-docling-bot"@
        &&& self.respect_robots_txt
        &&& self.transform_md_using == TransformMethod::Htmd
        &&& self.retry_delay@ == seq![10u64, 40u64, 200u64]
        &&& self.refetch_after_days == DEFAULT_REFETCH_DAYS
        &&& self.default_deep == DEFAULT_CRAWL_DEPTH
    }
}

impl Default for DoclingConfig {
    fn default() -> (r: Self)
        ensures
            r.is_initial(),
    {
        let retry_delay: Vec<u64> = vec![10, 40, 200];
        assert(retry_delay@ =~= seq![10u64, 40u64, 200u64]);
        DoclingConfig {
            inputs_path: "inputs".to_owned(),
            outputs_path: "outputs".to_owned(),
            logs_path: "logs".to_owned(),
            output_parts_html_suffix: "parts_html".to_owned(),
            output_parts_media_suffix: "parts_media".to_owned(),
            output_parts_markdown_suffix: "parts_md".to_owned(),
            output_parts_markdown_results_suffix: "results_md".to_owned(),
            retry_count: DEFAULT_RETRY_COUNT,
            delay_between_request_in_ms: DEFAULT_DELAY_BETWEEN_REQUESTS_MS,
            max_concurrent_requests: DEFAULT_MAX_CONCURRENT_REQUESTS,
            user_agent: "mi4uling-docling-bot".to_owned(),
            respect_robots_txt: true,
            transform_md_using: TransformMethod::Htmd,
            retry_delay,
            refetch_after_days: DEFAULT_REFETCH_DAYS,
            default_deep: DEFAULT_CRAWL_DEPTH,
        }
    }
}

/// A settings document that the store can keep under a name.
pub trait Configuration: Sized + Default {
    /// The name of the component the settings belong to.
    fn crate_name() -> &'static str;
}

impl Configuration for DoclingConfig {
    fn crate_name() -> (name: &'static str)
        ensures
            name@ == "mi4ulings-docling"@,
    {
        "mi4ulings-docling"
    }
}

/// Settings together with the store's own housekeeping value.
pub struct Config<T: Configuration> {
    /// The settings.
    pub data: T,
    /// Days a backup is kept before it is removed.
    pub cleanup_backups_after_days: u32,
}

/// What was found where the settings file should be.
#[derive(Debug)]
pub enum Loaded<T> {
    /// No file is there.
    Missing,
    /// A file is there, and it cannot be read as settings: it is no valid
    /// document, or a field is missing.
    Invalid,
    /// A file is there and holds these settings.
    Settings(T),
}

/// Why settings could not be had.
#[derive(Clone, Copy, Debug, PartialEq, Eq, Structural)]
pub enum ConfigError {
    /// The settings file cannot be read as settings.
    Invalid,
}

impl ConfigError {
    /// The error in words.
    pub fn message(&self) -> (r: String)
        ensures
            r@ == "Configuration file cannot be read as settings"@,
    {
        "Configuration file cannot be read as settings".to_owned()
    }
}

/// An age of `secs` seconds and `nanos` nanoseconds is more than `days`
/// days.
pub open spec fn older_than(secs: u64, nanos: u32, days: u32) -> bool {
    secs > days * SECONDS_PER_DAY || (secs == days * SECONDS_PER_DAY && nanos > 0)
}

/// The name of the backup made of the file `file_name` at the instant
/// written `stamp`.
pub fn backup_name(file_name: &str, stamp: &str) -> (r: String)
    ensures
        r@ == file_name@ + seq!['_'] + stamp@,
{
    let mut out = chars_of(file_name);
    out.push('_');
    append_chars(&mut out, &chars_of(stamp));
    string_of(&out)
}

/// Appends the characters of `tail` to `out`.
fn push_text(out: &mut String, tail: &str)
    ensures
        final(out)@ == old(out)@ + tail@,
{
    for c in it: tail.chars()
        invariant
            it.seq() == tail@,
            out@ == old(out)@ + tail@.take(it.index()),
    {
        out.push(c);
        assert(tail@.take(it.index() + 1) =~= tail@.take(it.index()).push(c));
    }
}

impl<T: Configuration> Config<T> {
    /// Fresh settings with the default housekeeping value.
    pub fn new() -> (r: Self)
        ensures
            r.cleanup_backups_after_days == DEFAULT_BACKUP_DAYS,
            call_ensures(T::default, (), r.data),
    {
        Config { data: T::default(), cleanup_backups_after_days: DEFAULT_BACKUP_DAYS }
    }

    /// Where the settings file lies, relative to the workspace root:
    /// `.config/<name>.toml`.
    pub fn get_location() -> (r: String)
        ensures
            exists|name: &'static str| #[trigger]
                call_ensures(T::crate_name, (), name) && r@ == ".config/"@ + name@ + ".toml"@,
    {
        let name = T::crate_name();
        let mut r = ".config/".to_owned();
        push_text(&mut r, name);
        push_text(&mut r, ".toml");
        r
    }

    /// Where backups of settings files lie, relative to the workspace
    /// root: `.config/.backup`.
    pub fn get_backup_location() -> (r: String)
        ensures
            r@ == ".config/.backup"@,
    {
        ".config/.backup".to_owned()
    }

    /// Whether a file in the backup directory is a backup of these
    /// settings that has outlived its time: its name holds the settings'
    /// name, and its age is more than the days backups are kept.
    pub fn is_stale_backup(&self, file_name: &str, age_secs: u64, age_nanos: u32) -> (r: bool)
        ensures
            exists|name: &'static str| #[trigger]
                call_ensures(T::crate_name, (), name) && r == (contains(file_name@, name@)
                    && older_than(age_secs, age_nanos, self.cleanup_backups_after_days)),
    {
        let name = chars_of(T::crate_name());
        let limit: u64 = self.cleanup_backups_after_days as u64 * SECONDS_PER_DAY;
        let old = age_secs > limit || (age_secs == limit && age_nanos > 0);
        find(&chars_of(file_name), &name, 0).is_some() && old
    }

    /// The settings that were read, or fresh ones where there is no
    /// settings file. The flag tells that fresh ones were made and have yet
    /// to be stored. A file that is there and cannot be read as settings
    /// is an error: nothing is made, and the file is left as it is.
    pub fn load_or_default(loaded: Loaded<T>) -> (r: Result<(Self, bool), ConfigError>)
        ensures
            match loaded {
                Loaded::Settings(data) => r is Ok && r->Ok_0.0.data == data && !r->Ok_0.1
                    && r->Ok_0.0.cleanup_backups_after_days == DEFAULT_BACKUP_DAYS,
                Loaded::Missing => r is Ok && call_ensures(T::default, (), r->Ok_0.0.data)
                    && r->Ok_0.1 && r->Ok_0.0.cleanup_backups_after_days == DEFAULT_BACKUP_DAYS,
                Loaded::Invalid => r is Err && r->Err_0 == ConfigError::Invalid,
            },
    {
        match loaded {
            Loaded::Settings(data) => Ok(
                (Config { data, cleanup_backups_after_days: DEFAULT_BACKUP_DAYS }, false),
            ),
            Loaded::Missing => Ok((Self::new(), true)),
            Loaded::Invalid => Err(ConfigError::Invalid),
        }
    }
}

} // verus!
