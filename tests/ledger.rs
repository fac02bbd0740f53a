use cringecast::episode::{Episode, Metadata};
use cringecast::ledger::DownloadedEpisodes;

fn ep(guid: &str) -> Episode {
    Episode {
        title: "t".to_string(),
        url: "u".to_string(),
        guid: guid.to_string(),
        published: 0,
        index: 0,
        raw: Metadata { fields: vec![] },
    }
}

#[test]
fn entry_line_format() {
    assert_eq!(
        DownloadedEpisodes::entry_line("abc-123", 1700000000, "My title"),
        "abc-123 1700000000 \"My title\"\n"
    );
    assert_eq!(DownloadedEpisodes::entry_line("x", -5, ""), "x -5 \"\"\n");
}

#[test]
fn ledger_round_trip() {
    let mut text = String::new();
    for i in 0..5 {
        text.push_str(&DownloadedEpisodes::entry_line(&format!("id{}", i), 100 + i, "some title"));
    }
    let d = DownloadedEpisodes::parse(&text);
    assert_eq!(d.entries.len(), 5);
    for i in 0..5 {
        assert_eq!(d.entries[i as usize].id, format!("id{}", i));
        assert_eq!(d.entries[i as usize].recorded_at, 100 + i);
        assert!(d.contains_episode(&ep(&format!("id{}", i))));
    }
    assert!(!d.contains_episode(&ep("id5")));
}

#[test]
fn ledger_skips_corrupt_line() {
    let text = "a 1 \"one\"\nbroken\nb 2 \"two\"\n\n   \nc 3 \"three\"\n";
    let d = DownloadedEpisodes::parse(text);
    let ids: Vec<&str> = d.entries.iter().map(|e| e.id.as_str()).collect();
    assert_eq!(ids, vec!["a", "b", "c"]);
}

#[test]
fn ledger_skips_bad_timestamp_and_reads_last_line_without_newline() {
    let d = DownloadedEpisodes::parse("a notanumber \"x\"\n  b\t-7 rest\r\nc 9");
    let got: Vec<(String, i64)> = d.entries.iter().map(|e| (e.id.clone(), e.recorded_at)).collect();
    assert_eq!(got, vec![("b".to_string(), -7), ("c".to_string(), 9)]);
}

#[test]
fn ledger_empty() {
    assert_eq!(DownloadedEpisodes::parse("").entries.len(), 0);
    assert_eq!(DownloadedEpisodes::empty().entries.len(), 0);
}
