use docling::config::{
    backup_name, Config, ConfigError, Configuration, DoclingConfig, Loaded, TransformMethod,
};
use docling::example::{get_name, init_config, set_name, ExampleConfig};

#[derive(Default, Debug, PartialEq)]
struct TestConfig {
    value: String,
}

impl Configuration for TestConfig {
    fn crate_name() -> &'static str {
        "test-config"
    }
}

#[test]
fn test_get_location() {
    let path = Config::<TestConfig>::get_location();
    assert!(path.ends_with(".config/test-config.toml"));
}

#[test]
fn locations_are_relative_to_the_workspace_root() {
    assert_eq!(Config::<DoclingConfig>::get_location(), ".config/mi4ulings-docling.toml");
    assert_eq!(Config::<ExampleConfig>::get_location(), ".config/example-crate.toml");
    assert_eq!(Config::<TestConfig>::get_backup_location(), ".config/.backup");
}

#[test]
fn default_settings() {
    let c = DoclingConfig::default();
    assert_eq!(c.inputs_path, "inputs");
    assert_eq!(c.outputs_path, "outputs");
    assert_eq!(c.logs_path, "logs");
    assert_eq!(c.output_parts_html_suffix, "parts_html");
    assert_eq!(c.output_parts_media_suffix, "parts_media");
    assert_eq!(c.output_parts_markdown_suffix, "parts_md");
    assert_eq!(c.output_parts_markdown_results_suffix, "results_md");
    assert_eq!(c.retry_count, 3);
    assert_eq!(c.delay_between_request_in_ms, 500);
    assert_eq!(c.max_concurrent_requests, 1);
    assert_eq!(c.user_agent, "mi4uling-docling-bot");
    assert!(c.respect_robots_txt);
    assert_eq!(c.transform_md_using, TransformMethod::Htmd);
    assert_eq!(c.retry_delay, vec![10, 40, 200]);
    assert_eq!(c.refetch_after_days, 100);
    assert_eq!(c.default_deep, 1);
    assert_eq!(TransformMethod::default(), TransformMethod::Htmd);
}

#[test]
fn directories_of_an_entry() {
    let c = DoclingConfig::default();
    assert_eq!(c.entry_dir("site"), "outputs/site");
    assert_eq!(c.html_dir("site"), "outputs/site/parts_html");
    assert_eq!(c.media_dir("site"), "outputs/site/parts_media");
    assert_eq!(c.markdown_dir("site"), "outputs/site/parts_md");
    assert_eq!(c.results_dir("site"), "outputs/site/results_md");
    assert_eq!(c.errors_dir("site"), "outputs/site/ERRORS");
}

#[test]
fn new_store_keeps_backups_thirty_days() {
    let config = Config::<TestConfig>::new();
    assert_eq!(config.cleanup_backups_after_days, 30);
    assert_eq!(config.data, TestConfig::default());
}

#[test]
fn load_or_default_keeps_what_was_read() {
    let read = TestConfig { value: "kept".to_string() };
    let (config, fresh) = Config::load_or_default(Loaded::Settings(read)).unwrap();
    assert!(!fresh);
    assert_eq!(config.data.value, "kept");
    let (config, fresh) = Config::<TestConfig>::load_or_default(Loaded::Missing).unwrap();
    assert!(fresh);
    assert_eq!(config.data.value, "");
    assert_eq!(config.cleanup_backups_after_days, 30);
}

#[test]
fn a_settings_file_that_cannot_be_read_is_an_error() {
    let r = Config::<TestConfig>::load_or_default(Loaded::Invalid);
    assert!(matches!(r, Err(ConfigError::Invalid)));
    assert!(matches!(init_config(Loaded::Invalid), Err(ConfigError::Invalid)));
    assert_eq!(ConfigError::Invalid.message(), "Configuration file cannot be read as settings");
}

#[test]
fn backups_are_stale_after_their_days() {
    let config = Config::<TestConfig>::new();
    let limit = 30 * 86_400;
    assert!(!config.is_stale_backup("test-config.toml_20240101_000000", limit, 0));
    assert!(config.is_stale_backup("test-config.toml_20240101_000000", limit, 1));
    assert!(config.is_stale_backup("test-config.toml_20240101_000000", limit + 1, 0));
    assert!(!config.is_stale_backup("test-config.toml_20240101_000000", limit - 1, 999_999_999));
    assert!(!config.is_stale_backup("other.toml_20240101_000000", u64::MAX, 0));
    let mut never = Config::<TestConfig>::new();
    never.cleanup_backups_after_days = u32::MAX;
    assert!(!never.is_stale_backup("test-config.toml", u32::MAX as u64 * 86_400, 0));
    assert!(never.is_stale_backup("test-config.toml", u64::MAX, 0));
}

#[test]
fn backup_names_carry_the_instant() {
    assert_eq!(backup_name("app.toml", "20240131_120000"), "app.toml_20240131_120000");
}

#[test]
fn example_settings_round_trip() {
    let (mut config, fresh) = init_config(Loaded::Missing).unwrap();
    assert!(fresh);
    assert_eq!(get_name(&config), "");
    assert_eq!(config.data.value, 0);
    assert!(!config.data.enabled);
    set_name(&mut config, "New Name");
    assert_eq!(get_name(&config), "New Name");
    assert_eq!(config.data.value, 0);
    let read = ExampleConfig { name: "stored".to_string(), value: 42, enabled: true };
    let (config, fresh) = init_config(Loaded::Settings(read)).unwrap();
    assert!(!fresh);
    assert_eq!(get_name(&config), "stored");
    assert_eq!(config.data.value, 42);
}
