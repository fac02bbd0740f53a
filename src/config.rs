use crate::external::{date_midnight_seconds, parse_date_midnight, parse_rfc3339, rfc3339_seconds};
use vstd::prelude::*;

verus! {

/// A per-podcast setting that is either set, switched off, or left to the
/// global configuration.
#[derive(Clone, Copy, Debug)]
pub enum ConfigOption<T> {
    /// Defer to the value in the global config.
    UseGlobal,
    /// Use this value for configuration.
    Enabled(T),
    /// Don't use any value.
    Disabled,
}

impl<T: Clone> ConfigOption<T> {
    pub fn is_enabled(&self) -> (r: bool)
        ensures
            r == (self is Enabled),
    {
        match self {
            ConfigOption::Enabled(_) => true,
            _ => false,
        }
    }

    /// Resolves the option against the global value.
    pub fn into_val(self, global_value: Option<&T>) -> (r: Option<T>)
        ensures
            self is Disabled ==> r is None,
            self is Enabled ==> r == Some(self->Enabled_0),
            self is UseGlobal ==> (r is Some <==> global_value is Some),
            self is UseGlobal && global_value is Some ==> cloned::<T>(
                *global_value.unwrap(),
                r.unwrap(),
            ),
    {
        match self {
            ConfigOption::Disabled => None,
            ConfigOption::Enabled(t) => Some(t),
            ConfigOption::UseGlobal => global_value.cloned(),
        }
    }
}


/// The spec-level reading of [`ConfigOption::into_val`].
pub open spec fn resolve<T>(o: ConfigOption<T>, global_value: Option<T>) -> Option<T> {
    match o {
        ConfigOption::UseGlobal => global_value,
        ConfigOption::Enabled(t) => Some(t),
        ConfigOption::Disabled => None,
    }
}

/// The file name pattern used when the global configuration gives none.
pub fn default_name_pattern() -> (r: String)
    ensures
        r@ == "{pubdate::%Y-%m-%d} {rss::episode::title}"@,
{
    String::from_str("{pubdate::%Y-%m-%d} {rss::episode::title}")
}

/// The date pattern of `backlog_start`.
pub open spec fn backlog_date_format() -> Seq<char> {
    "%Y-%m-%d"@
}

/// Settings shared by every podcast.
#[derive(Clone, Debug)]
pub struct GlobalConfig {
    pub name_pattern: String,
    pub max_days: Option<i64>,
    pub max_episodes: Option<i64>,
    pub path: String,
    pub earliest_date: Option<String>,
    pub custom_tags: Vec<(String, String)>,
    pub download_hook: Option<String>,
}

impl GlobalConfig {
    /// The configuration written out when none exists yet, downloading under `path`.
    pub fn default_at(path: String) -> (r: GlobalConfig)
        ensures
            r.name_pattern@ == "{pubdate::%Y-%m-%d} {rss::episode::title}"@,
            r.max_days == Some(120i64),
            r.max_episodes == Some(10i64),
            r.path == path,
            r.earliest_date is None,
            r.custom_tags@.len() == 0,
            r.download_hook is None,
    {
        GlobalConfig {
            name_pattern: default_name_pattern(),
            max_days: Some(120),
            max_episodes: Some(10),
            path,
            earliest_date: None,
            custom_tags: Vec::new(),
            download_hook: None,
        }
    }
}

/// Settings of one podcast as written by the user.
#[derive(Clone, Debug)]
pub struct PodcastConfig {
    pub url: String,
    pub path: Option<String>,
    pub max_days: ConfigOption<i64>,
    pub max_episodes: ConfigOption<i64>,
    pub earliest_date: ConfigOption<String>,
    pub download_hook: ConfigOption<String>,
    pub backlog_start: Option<String>,
    pub backlog_interval: Option<i64>,
    pub custom_tags: Vec<(String, String)>,
}

/// Which episodes of a feed are wanted. Times are seconds since the epoch.
#[derive(Clone, Copy, Debug, PartialEq, Eq, Structural)]
pub enum DownloadMode {
    /// Every episode that passes all of the bounds that are set.
    Standard { max_days: Option<i64>, earliest_date: Option<i64>, max_episodes: Option<i64> },
    /// Old episodes released one per `interval` days from `start` on.
    Backlog { start: i64, interval: i64 },
}

impl DownloadMode {
    pub open spec fn wf(self) -> bool {
        self is Backlog ==> self->interval > 0
    }
}

/// Why a podcast's settings could not be resolved.
#[derive(Clone, Copy, Debug, PartialEq, Eq, Structural)]
pub enum ConfigError {
    MissingBacklogInterval,
    MissingBacklogStart,
    MaxDaysInBacklog,
    MaxEpisodesInBacklog,
    EarliestDateInBacklog,
    InvalidBacklogStart,
    InvalidBacklogInterval,
    InvalidEarliestDate,
}

/// Resolved configuration of one podcast.
#[derive(Clone, Debug)]
pub struct Config {
    pub url: String,
    pub name_pattern: String,
    pub download_path: String,
    /// Tags to write into downloaded files; a later entry overrides an earlier
    /// one with the same key.
    pub custom_tags: Vec<(String, String)>,
    pub download_hook: Option<String>,
    pub mode: DownloadMode,
}

/// The download mode that a podcast's settings resolve to.
pub open spec fn resolved_mode(g: GlobalConfig, p: PodcastConfig) -> Result<DownloadMode, ConfigError> {
    match (p.backlog_start, p.backlog_interval) {
        (None, None) => {
            let earliest = resolve(p.earliest_date, g.earliest_date);
            if earliest is Some && rfc3339_seconds(earliest.unwrap()@) is None {
                Err(ConfigError::InvalidEarliestDate)
            } else {
                Ok(DownloadMode::Standard {
                    max_days: resolve(p.max_days, g.max_days),
                    earliest_date: match earliest {
                        Some(d) => rfc3339_seconds(d@),
                        None => None,
                    },
                    max_episodes: resolve(p.max_episodes, g.max_episodes),
                })
            }
        },
        (Some(_), None) => Err(ConfigError::MissingBacklogInterval),
        (None, Some(_)) => Err(ConfigError::MissingBacklogStart),
        (Some(start), Some(interval)) => {
            if p.max_days is Enabled {
                Err(ConfigError::MaxDaysInBacklog)
            } else if p.max_episodes is Enabled {
                Err(ConfigError::MaxEpisodesInBacklog)
            } else if p.earliest_date is Enabled {
                Err(ConfigError::EarliestDateInBacklog)
            } else if date_midnight_seconds(start@, backlog_date_format()) is None {
                Err(ConfigError::InvalidBacklogStart)
            } else if interval <= 0 {
                Err(ConfigError::InvalidBacklogInterval)
            } else {
                Ok(DownloadMode::Backlog {
                    start: date_midnight_seconds(start@, backlog_date_format()).unwrap(),
                    interval,
                })
            }
        },
    }
}

fn resolve_i64(o: ConfigOption<i64>, global_value: Option<i64>) -> (r: Option<i64>)
    ensures
        r == resolve(o, global_value),
{
    match o {
        ConfigOption::UseGlobal => global_value,
        ConfigOption::Enabled(t) => Some(t),
        ConfigOption::Disabled => None,
    }
}

fn resolve_string(o: &ConfigOption<String>, global_value: &Option<String>) -> (r: Option<String>)
    ensures
        r == resolve(*o, *global_value),
{
    match o {
        ConfigOption::UseGlobal => match global_value {
            Some(v) => Some(v.clone()),
            None => None,
        },
        ConfigOption::Enabled(t) => Some(t.clone()),
        ConfigOption::Disabled => None,
    }
}

fn resolve_mode(g: &GlobalConfig, p: &PodcastConfig) -> (r: Result<DownloadMode, ConfigError>)
    ensures
        r == resolved_mode(*g, *p),
        r is Ok ==> r->Ok_0.wf(),
{
    match (&p.backlog_start, p.backlog_interval) {
        (None, None) => {
            let earliest = resolve_string(&p.earliest_date, &g.earliest_date);
            let earliest_date = match &earliest {
                Some(d) => match parse_rfc3339(d.as_str()) {
                    Some(t) => Some(t),
                    None => {
                        return Err(ConfigError::InvalidEarliestDate);
                    },
                },
                None => None,
            };
            Ok(DownloadMode::Standard {
                max_days: resolve_i64(p.max_days, g.max_days),
                earliest_date,
                max_episodes: resolve_i64(p.max_episodes, g.max_episodes),
            })
        },
        (Some(_), None) => Err(ConfigError::MissingBacklogInterval),
        (None, Some(_)) => Err(ConfigError::MissingBacklogStart),
        (Some(start), Some(interval)) => {
            if p.max_days.is_enabled() {
                return Err(ConfigError::MaxDaysInBacklog);
            }
            if p.max_episodes.is_enabled() {
                return Err(ConfigError::MaxEpisodesInBacklog);
            }
            if p.earliest_date.is_enabled() {
                return Err(ConfigError::EarliestDateInBacklog);
            }
            let start = match parse_date_midnight(start.as_str(), "%Y-%m-%d") {
                Some(s) => s,
                None => {
                    return Err(ConfigError::InvalidBacklogStart);
                },
            };
            if interval <= 0 {
                return Err(ConfigError::InvalidBacklogInterval);
            }
            Ok(DownloadMode::Backlog { start, interval })
        },
    }
}

impl Config {
    /// Resolves a podcast's settings against the global ones: each option
    /// that defers takes the global value, and the backlog settings are
    /// checked to be complete and not mixed with the standard bounds.
    pub fn new(global_config: &GlobalConfig, podcast_config: PodcastConfig) -> (r: Result<
        Config,
        ConfigError,
    >)
        ensures
            r is Err <==> resolved_mode(*global_config, podcast_config) is Err,
            r is Err ==> r->Err_0 == resolved_mode(*global_config, podcast_config)->Err_0,
            r is Ok ==> ({
                let c = r->Ok_0;
                &&& c.mode == resolved_mode(*global_config, podcast_config)->Ok_0
                &&& c.mode.wf()
                &&& c.url == podcast_config.url
                &&& c.name_pattern@ == global_config.name_pattern@
                &&& c.download_path@ == (match podcast_config.path {
                    Some(p) => p@,
                    None => global_config.path@,
                })
                &&& c.download_hook == resolve(podcast_config.download_hook, global_config.download_hook)
                &&& c.custom_tags@ == global_config.custom_tags@ + podcast_config.custom_tags@
            }),
    {
        let mode = match resolve_mode(global_config, &podcast_config) {
            Ok(m) => m,
            Err(e) => {
                return Err(e);
            },
        };
        let download_hook = resolve_string(&podcast_config.download_hook, &global_config.download_hook);
        let download_path = match podcast_config.path {
            Some(p) => p,
            None => global_config.path.clone(),
        };
        let mut custom_tags: Vec<(String, String)> = Vec::new();
        let mut i: usize = 0;
        while i < global_config.custom_tags.len()
            invariant
                i <= global_config.custom_tags@.len(),
                custom_tags@ == global_config.custom_tags@.take(i as int),
            decreases global_config.custom_tags@.len() - i,
        {
            let (k, v) = &global_config.custom_tags[i];
            custom_tags.push((k.clone(), v.clone()));
            assert(global_config.custom_tags@.take(i + 1) =~= global_config.custom_tags@.take(i as int).push(global_config.custom_tags@[i as int]));
            i = i + 1;
        }
        assert(global_config.custom_tags@.take(i as int) =~= global_config.custom_tags@);
        let mut tags = podcast_config.custom_tags;
        custom_tags.append(&mut tags);
        Ok(Config {
            url: podcast_config.url,
            name_pattern: global_config.name_pattern.clone(),
            download_path,
            custom_tags,
            download_hook,
            mode,
        })
    }
}

} // verus!
