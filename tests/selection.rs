use cringecast::config::{Config, DownloadMode};
use cringecast::episode::{Episode, Metadata};
use cringecast::ledger::{DownloadedEpisodes, LedgerEntry};
use cringecast::podcast::Podcast;

const DAY: i64 = 86400;
const NOW: i64 = 1_700_000_000;

fn episode(index: usize, published: i64) -> Episode {
    Episode {
        title: format!("Episode {}", index),
        url: format!("https://example.com/{}.mp3", index),
        guid: format!("guid-{}", index),
        published,
        index,
        raw: Metadata { fields: vec![] },
    }
}

fn podcast(mode: DownloadMode, done: &[&str]) -> Podcast {
    Podcast {
        name: "show".to_string(),
        config: Config {
            url: "https://example.com/feed.xml".to_string(),
            name_pattern: "{rss::episode::title}".to_string(),
            download_path: "/tmp/pods".to_string(),
            custom_tags: vec![],
            download_hook: None,
            mode,
        },
        downloaded: DownloadedEpisodes {
            entries: done
                .iter()
                .map(|id| LedgerEntry { id: id.to_string(), recorded_at: 0 })
                .collect(),
        },
    }
}

fn indices(eps: &[Episode]) -> Vec<usize> {
    eps.iter().map(|e| e.index).collect()
}

fn standard(max_days: Option<i64>, earliest_date: Option<i64>, max_episodes: Option<i64>) -> DownloadMode {
    DownloadMode::Standard { max_days, earliest_date, max_episodes }
}

#[test]
fn standard_max_episodes_keeps_newest_first() {
    let pod = podcast(standard(None, None, Some(2)), &[]);
    let eps = vec![episode(0, NOW - 3 * DAY), episode(1, NOW - 2 * DAY), episode(2, NOW - DAY)];
    let selected = pod.select_episodes(eps, NOW);
    assert_eq!(indices(&selected), vec![2, 1]);
    let ledger: String = selected
        .iter()
        .map(|e| DownloadedEpisodes::entry_line(&e.guid, NOW, &e.title))
        .collect();
    let loaded = DownloadedEpisodes::parse(&ledger);
    let mut ids: Vec<String> = loaded.entries.iter().map(|e| e.id.clone()).collect();
    ids.sort();
    assert_eq!(ids, vec!["guid-1".to_string(), "guid-2".to_string()]);
}

#[test]
fn standard_without_bounds_keeps_all() {
    let pod = podcast(standard(None, None, None), &[]);
    let eps = vec![episode(0, 0), episode(1, NOW - 1000 * DAY), episode(2, NOW)];
    assert_eq!(indices(&pod.select_episodes(eps, NOW)), vec![2, 1, 0]);
}

#[test]
fn standard_bounds_combine_with_and() {
    // 0 is too old, 1 is before the earliest date, 2 passes all, 3 passes all.
    let mode = standard(Some(10), Some(NOW - 8 * DAY), Some(4));
    let pod = podcast(mode, &[]);
    let eps = vec![
        episode(0, NOW - 11 * DAY),
        episode(1, NOW - 9 * DAY),
        episode(2, NOW - 5 * DAY),
        episode(3, NOW - DAY),
    ];
    assert_eq!(indices(&pod.select_episodes(eps, NOW)), vec![3, 2]);
}

#[test]
fn standard_max_days_boundary() {
    let pod = podcast(standard(Some(1), None, None), &[]);
    assert!(pod.should_download(&episode(0, NOW - DAY), 1, NOW));
    assert!(!pod.should_download(&episode(0, NOW - DAY - 1), 1, NOW));
}

#[test]
fn standard_earliest_date_boundary() {
    let pod = podcast(standard(None, Some(NOW), None), &[]);
    assert!(pod.should_download(&episode(0, NOW), 1, NOW));
    assert!(!pod.should_download(&episode(0, NOW - 1), 1, NOW));
}

#[test]
fn ledger_excludes_episode() {
    let pod = podcast(standard(None, None, None), &["guid-1"]);
    let eps = vec![episode(0, NOW), episode(1, NOW), episode(2, NOW)];
    assert_eq!(indices(&pod.select_episodes(eps, NOW)), vec![2, 0]);
}

#[test]
fn backlog_weekly_pacing() {
    let start = NOW;
    let pod = podcast(DownloadMode::Backlog { start, interval: 7 }, &[]);
    assert!(pod.should_download(&episode(0, 0), 5, start));
    assert!(!pod.should_download(&episode(1, 0), 5, start));
    assert!(!pod.should_download(&episode(1, 0), 5, start + 7 * DAY - 1));
    assert!(pod.should_download(&episode(1, 0), 5, start + 7 * DAY));
    assert!(!pod.should_download(&episode(0, 0), 5, start - 1));
}

#[test]
fn backlog_ledger_never_reselected() {
    let start = NOW - 100 * DAY;
    let pod = podcast(DownloadMode::Backlog { start, interval: 7 }, &["guid-0"]);
    assert!(!pod.should_download(&episode(0, 0), 5, NOW));
    assert!(pod.should_download(&episode(1, 0), 5, NOW));
}

#[test]
fn backlog_two_days_daily_keeps_oldest_three_ascending() {
    let pod = podcast(DownloadMode::Backlog { start: NOW - 2 * DAY, interval: 1 }, &[]);
    let eps: Vec<Episode> = (0..5).map(|i| episode(i, NOW - (5 - i as i64) * DAY)).collect();
    assert_eq!(indices(&pod.select_episodes(eps, NOW)), vec![0, 1, 2]);
}

#[test]
fn download_folder_joins_name() {
    let pod = podcast(standard(None, None, None), &[]);
    assert_eq!(pod.download_folder(), "/tmp/pods/show");
    assert_eq!(DownloadedEpisodes::file_path(&pod.config, "show"), "/tmp/pods/show/.downloaded");
}
