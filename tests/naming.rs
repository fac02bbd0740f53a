use cringecast::config::default_name_pattern;
use cringecast::episode::Metadata;
use cringecast::namer::{render_name, NameError};

const JAN_1_2024: i64 = 1704067200;

fn meta(fields: &[(&str, Option<&str>)]) -> Metadata {
    Metadata {
        fields: fields
            .iter()
            .map(|(k, v)| (k.to_string(), v.map(|s| s.to_string())))
            .collect(),
    }
}

#[test]
fn default_pattern_renders_date_and_title() {
    let ep = meta(&[("title", Some("Hello World"))]);
    let ch = meta(&[]);
    let r = render_name(&default_name_pattern(), JAN_1_2024 + 3600, &ep, &ch, &None);
    assert_eq!(r, Ok("2024-01-01 Hello World".to_string()));
    let again = render_name(&default_name_pattern(), JAN_1_2024 + 3600, &ep, &ch, &None);
    assert_eq!(r, again);
}

#[test]
fn default_name_pattern_text() {
    assert_eq!(default_name_pattern(), "{pubdate::%Y-%m-%d} {rss::episode::title}");
}

#[test]
fn id3_frames() {
    let ep = meta(&[]);
    let ch = meta(&[]);
    let tags = Some(meta(&[("TIT2", Some("Tag title"))]));
    assert_eq!(render_name("{id3::TIT2}", 0, &ep, &ch, &tags), Ok("Tag title".to_string()));
    assert_eq!(render_name("a{id3::TALB}b", 0, &ep, &ch, &tags), Ok("a<<invalid id3 tag>>b".to_string()));
    assert_eq!(render_name("a{id3::TIT2}b", 0, &ep, &ch, &None), Ok("ab".to_string()));
}

#[test]
fn unknown_and_malformed_placeholders() {
    let ep = meta(&[]);
    let ch = meta(&[]);
    assert_eq!(render_name("x{foo::bar}y", 0, &ep, &ch, &None), Ok("x<<unknown tag>>y".to_string()));
    assert_eq!(render_name("{}{ab", 0, &ep, &ch, &None), Ok("{}{ab".to_string()));
    assert_eq!(render_name("plain", 0, &ep, &ch, &None), Ok("plain".to_string()));
    assert_eq!(render_name("", 0, &ep, &ch, &None), Ok("".to_string()));
}

#[test]
fn nested_open_brace_is_part_of_key() {
    let ep = meta(&[]);
    let ch = meta(&[]);
    assert_eq!(render_name("{a{b}c", 0, &ep, &ch, &None), Ok("<<unknown tag>>c".to_string()));
}

#[test]
fn channel_field_and_missing_fields() {
    let ep = meta(&[("title", None)]);
    let ch = meta(&[("title", Some("\"Show\""))]);
    assert_eq!(render_name("{rss::channel::title}", 0, &ep, &ch, &None), Ok("\"Show\"".to_string()));
    assert_eq!(render_name("{rss::channel::link}", 0, &ep, &ch, &None), Err(NameError::MissingChannelField));
    assert_eq!(render_name("{rss::episode::title}", 0, &ep, &ch, &None), Err(NameError::MissingEpisodeField));
    assert_eq!(render_name("{rss::episode::guid}", 0, &ep, &ch, &None), Err(NameError::MissingEpisodeField));
}

#[test]
fn invalid_date_format() {
    let ep = meta(&[]);
    let ch = meta(&[]);
    assert_eq!(render_name("{pubdate::%Q}", 0, &ep, &ch, &None), Err(NameError::InvalidDate));
    assert_eq!(render_name("{pubdate::%Y}", i64::MAX, &ep, &ch, &None), Err(NameError::InvalidDate));
    assert_eq!(render_name("{pubdate::%H:%M}", 3660, &ep, &ch, &None), Ok("01:01".to_string()));
}
