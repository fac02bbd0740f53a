use cringecast::config::{
    Config, ConfigError, ConfigOption, DownloadMode, GlobalConfig, PodcastConfig,
};

fn global() -> GlobalConfig {
    let mut g = GlobalConfig::default_at("/home/u/cringecast".to_string());
    g.custom_tags = vec![("genre".to_string(), "Podcast".to_string())];
    g
}

fn podcast() -> PodcastConfig {
    PodcastConfig {
        url: "https://example.com/feed".to_string(),
        path: None,
        max_days: ConfigOption::UseGlobal,
        max_episodes: ConfigOption::UseGlobal,
        earliest_date: ConfigOption::UseGlobal,
        download_hook: ConfigOption::UseGlobal,
        backlog_start: None,
        backlog_interval: None,
        custom_tags: vec![("genre".to_string(), "Comedy".to_string())],
    }
}

#[test]
fn config_option_resolution() {
    assert!(ConfigOption::Enabled(3i64).is_enabled());
    assert!(!ConfigOption::<i64>::Disabled.is_enabled());
    assert!(!ConfigOption::<i64>::UseGlobal.is_enabled());
    assert_eq!(ConfigOption::Enabled(3i64).into_val(Some(&5)), Some(3));
    assert_eq!(ConfigOption::<i64>::Disabled.into_val(Some(&5)), None);
    assert_eq!(ConfigOption::<i64>::UseGlobal.into_val(Some(&5)), Some(5));
    assert_eq!(ConfigOption::<i64>::UseGlobal.into_val(None), None);
}

#[test]
fn global_defaults() {
    let g = GlobalConfig::default_at("/x".to_string());
    assert_eq!(g.max_days, Some(120));
    assert_eq!(g.max_episodes, Some(10));
    assert_eq!(g.name_pattern, "{pubdate::%Y-%m-%d} {rss::episode::title}");
}

#[test]
fn standard_mode_takes_global_values() {
    let mut p = podcast();
    p.max_days = ConfigOption::Disabled;
    p.earliest_date = ConfigOption::Enabled("2024-01-01T00:00:00Z".to_string());
    let c = Config::new(&global(), p).unwrap();
    assert_eq!(
        c.mode,
        DownloadMode::Standard { max_days: None, earliest_date: Some(1704067200), max_episodes: Some(10) }
    );
    assert_eq!(c.download_path, "/home/u/cringecast");
    assert_eq!(c.custom_tags.len(), 2);
    assert_eq!(c.custom_tags[1].1, "Comedy");
    assert_eq!(c.download_hook, None);
}

#[test]
fn podcast_path_and_hook_override() {
    let mut p = podcast();
    p.path = Some("/elsewhere".to_string());
    p.download_hook = ConfigOption::Enabled("/bin/hook".to_string());
    let c = Config::new(&global(), p).unwrap();
    assert_eq!(c.download_path, "/elsewhere");
    assert_eq!(c.download_hook, Some("/bin/hook".to_string()));
}

#[test]
fn backlog_mode_resolution() {
    let mut p = podcast();
    p.max_days = ConfigOption::Disabled;
    p.backlog_start = Some("2024-01-01".to_string());
    p.backlog_interval = Some(7);
    let c = Config::new(&global(), p).unwrap();
    assert_eq!(c.mode, DownloadMode::Backlog { start: 1704067200, interval: 7 });
}

#[test]
fn backlog_mode_errors() {
    let mut p = podcast();
    p.backlog_start = Some("2024-01-01".to_string());
    assert_eq!(Config::new(&global(), p.clone()).unwrap_err(), ConfigError::MissingBacklogInterval);
    p.backlog_start = None;
    p.backlog_interval = Some(3);
    assert_eq!(Config::new(&global(), p.clone()).unwrap_err(), ConfigError::MissingBacklogStart);
    p.backlog_start = Some("2024-01-01".to_string());
    p.max_days = ConfigOption::Enabled(3);
    assert_eq!(Config::new(&global(), p.clone()).unwrap_err(), ConfigError::MaxDaysInBacklog);
    p.max_days = ConfigOption::UseGlobal;
    p.max_episodes = ConfigOption::Enabled(3);
    assert_eq!(Config::new(&global(), p.clone()).unwrap_err(), ConfigError::MaxEpisodesInBacklog);
    p.max_episodes = ConfigOption::UseGlobal;
    p.earliest_date = ConfigOption::Enabled("2024-01-01T00:00:00Z".to_string());
    assert_eq!(Config::new(&global(), p.clone()).unwrap_err(), ConfigError::EarliestDateInBacklog);
    p.earliest_date = ConfigOption::UseGlobal;
    p.backlog_start = Some("01/02/2024".to_string());
    assert_eq!(Config::new(&global(), p.clone()).unwrap_err(), ConfigError::InvalidBacklogStart);
    p.backlog_start = Some("2024-01-01".to_string());
    p.backlog_interval = Some(0);
    assert_eq!(Config::new(&global(), p.clone()).unwrap_err(), ConfigError::InvalidBacklogInterval);
}

#[test]
fn invalid_earliest_date() {
    let mut p = podcast();
    p.earliest_date = ConfigOption::Enabled("yesterday".to_string());
    assert_eq!(Config::new(&global(), p).unwrap_err(), ConfigError::InvalidEarliestDate);
}
