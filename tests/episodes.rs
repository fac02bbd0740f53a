use cringecast::episode::{episodes_from_items, Episode, FeedItem, Metadata};
use cringecast::podcast::{StepOutcome, SyncState};

fn item(guid: &str, date: Option<&str>) -> FeedItem {
    FeedItem {
        title: Some(format!("title {}", guid)),
        url: Some(format!("https://e.com/{}.mp3", guid)),
        guid: Some(guid.to_string()),
        pub_date: date.map(|d| d.to_string()),
        raw: Metadata { fields: vec![("title".to_string(), Some(format!("title {}", guid)))] },
    }
}

#[test]
fn episode_new_requires_fields() {
    let raw = Metadata { fields: vec![] };
    let e = Episode::new(
        Some("t".to_string()),
        Some("u".to_string()),
        Some("g".to_string()),
        Some("Mon, 01 Jan 2024 00:00:00 +0000".to_string()),
        3,
        raw.clone(),
    )
    .unwrap();
    assert_eq!(e.published, 1704067200);
    assert_eq!(e.index, 3);
    assert!(Episode::new(None, Some("u".to_string()), Some("g".to_string()), Some("Mon, 01 Jan 2024 00:00:00 +0000".to_string()), 0, raw.clone()).is_none());
    assert!(Episode::new(Some("t".to_string()), Some("u".to_string()), Some("g".to_string()), Some("not a date".to_string()), 0, raw).is_none());
}

#[test]
fn get_text_value_reads_scalars() {
    let e = Episode {
        title: "t".to_string(),
        url: "u".to_string(),
        guid: "g".to_string(),
        published: 0,
        index: 0,
        raw: Metadata {
            fields: vec![("title".to_string(), Some("T".to_string())), ("enclosure".to_string(), None)],
        },
    };
    assert_eq!(e.get_text_value("title"), Some("T".to_string()));
    assert_eq!(e.get_text_value("enclosure"), None);
    assert_eq!(e.get_text_value("missing"), None);
}

#[test]
fn feed_items_sorted_and_numbered() {
    let items = vec![
        item("c", Some("Wed, 03 Jan 2024 00:00:00 +0000")),
        item("a", Some("Mon, 01 Jan 2024 00:00:00 +0000")),
        item("nodate", None),
        item("b", Some("Tue, 02 Jan 2024 00:00:00 +0000")),
        item("b2", Some("Tue, 02 Jan 2024 00:00:00 +0000")),
    ];
    let eps = episodes_from_items(items);
    let got: Vec<(String, usize)> = eps.iter().map(|e| (e.guid.clone(), e.index)).collect();
    assert_eq!(
        got,
        vec![
            ("a".to_string(), 1),
            ("b".to_string(), 2),
            ("b2".to_string(), 3),
            ("c".to_string(), 4)
        ]
    );
}

#[test]
fn sync_state_machine() {
    let ok = StepOutcome::Succeeded;
    let mut s = SyncState::Fetching;
    let mut seen = vec![];
    while s != SyncState::Done && s != SyncState::Failed {
        seen.push(s);
        s = s.step(ok, 2, true);
    }
    assert_eq!(seen.len(), 10);
    assert_eq!(s, SyncState::Done);
    assert_eq!(SyncState::Naming(0).step(ok, 2, false), SyncState::Transferring(1));
    assert_eq!(SyncState::Naming(1).step(ok, 2, false), SyncState::Done);
    assert_eq!(SyncState::Selecting.step(ok, 0, true), SyncState::Done);
    assert_eq!(SyncState::Recording(0).step(StepOutcome::Failed, 2, true), SyncState::Failed);
    assert_eq!(SyncState::Failed.step(ok, 2, true), SyncState::Failed);
}

const FEED: &str = r#"<?xml version="1.0"?>
<rss version="2.0"><channel><title>Show</title><link>https://e.com</link><description>d</description>
<item><title>Second</title><guid>g2</guid><pubDate>Tue, 02 Jan 2024 00:00:00 +0000</pubDate><enclosure url="https://e.com/2.mp3" length="1" type="audio/mpeg"/></item>
<item><title>First</title><guid>g1</guid><pubDate>Mon, 01 Jan 2024 00:00:00 +0000</pubDate><enclosure url="https://e.com/1.mp3" length="1" type="audio/mpeg"/></item>
<item><title>No enclosure</title><guid>g3</guid><pubDate>Wed, 03 Jan 2024 00:00:00 +0000</pubDate></item>
</channel></rss>"#;

#[test]
fn rss_feed_items_with_raw_fields() {
    let raws = vec![(
        "g1".to_string(),
        Metadata { fields: vec![("title".to_string(), Some("First".to_string()))] },
    )];
    let items = cringecast::episode::feed_items(FEED, &raws).unwrap();
    assert_eq!(items.len(), 3);
    assert_eq!(items[0].title.as_deref(), Some("Second"));
    assert_eq!(items[0].url.as_deref(), Some("https://e.com/2.mp3"));
    assert_eq!(items[1].guid.as_deref(), Some("g1"));
    assert_eq!(items[1].raw.fields.len(), 1);
    assert_eq!(items[0].raw.fields.len(), 0);
    assert_eq!(items[2].url, None);
    let eps = episodes_from_items(items);
    let got: Vec<(String, usize)> = eps.iter().map(|e| (e.guid.clone(), e.index)).collect();
    assert_eq!(got, vec![("g1".to_string(), 0), ("g2".to_string(), 1)]);
    assert_eq!(eps[0].get_text_value("title"), Some("First".to_string()));
}

#[test]
fn not_rss_gives_none() {
    assert!(cringecast::episode::feed_items("not xml at all", &vec![]).is_none());
}
