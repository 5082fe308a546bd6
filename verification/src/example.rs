//! A small settings document, to show how a component keeps its settings
//! in the store.

use vstd::prelude::*;
use crate::config::{Config, ConfigError, Configuration, Loaded, DEFAULT_BACKUP_DAYS};

verus! {

/// Settings of an imaginary component.
#[derive(Debug)]
pub struct ExampleConfig {
    /// Some text.
    pub name: String,
    /// Some number.
    pub value: i32,
    /// Some flag.
    pub enabled: bool,
}

impl Default for ExampleConfig {
    fn default() -> (r: Self)
        ensures
            r.name@.len() == 0,
            r.value == 0,
            !r.enabled,
    {
        ExampleConfig { name: String::new(), value: 0, enabled: false }
    }
}

impl Configuration for ExampleConfig {
    fn crate_name() -> (name: &'static str)
        ensures
            name@ == "example-crate"@,
    {
        "example-crate"
    }
}

/// The component's settings: those that were read, or fresh ones where
/// there is no settings file. The flag tells that fresh ones were made and
/// have yet to be stored. A file that cannot be read as settings is an
/// error.
pub fn init_config(loaded: Loaded<ExampleConfig>) -> (r: Result<
    (Config<ExampleConfig>, bool),
    ConfigError,
>)
    ensures
        match loaded {
            Loaded::Settings(data) => r is Ok && r->Ok_0.0.data == data && !r->Ok_0.1
                && r->Ok_0.0.cleanup_backups_after_days == DEFAULT_BACKUP_DAYS,
            Loaded::Missing => {
                &&& r is Ok
                &&& r->Ok_0.1
                &&& r->Ok_0.0.cleanup_backups_after_days == DEFAULT_BACKUP_DAYS
                &&& r->Ok_0.0.data.name@.len() == 0
                &&& r->Ok_0.0.data.value == 0
                &&& !r->Ok_0.0.data.enabled
            },
            Loaded::Invalid => r is Err && r->Err_0 == ConfigError::Invalid,
        },
{
    Config::<ExampleConfig>::load_or_default(loaded)
}

/// The name held in the settings.
pub fn get_name(config: &Config<ExampleConfig>) -> (r: String)
    ensures
        r@ == config.data.name@,
{
    config.data.name.clone()
}

/// Puts `name` into the settings and leaves the rest as it was.
pub fn set_name(config: &mut Config<ExampleConfig>, name: &str)
    ensures
        final(config).data.name@ == name@,
        final(config).data.value == old(config).data.value,
        final(config).data.enabled == old(config).data.enabled,
        final(config).cleanup_backups_after_days == old(config).cleanup_backups_after_days,
{
    config.data.name = name.to_owned();
}

} // verus!
