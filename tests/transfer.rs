use cringecast::transfer::{
    advance_progress, content_type_or_default, extension_for, partial_file_name, range_header,
    truncate_string,
};

#[test]
fn partial_name() {
    assert_eq!(partial_file_name("abc"), "abc.partial");
}

#[test]
fn range_header_only_when_resuming() {
    assert_eq!(range_header(0), None);
    assert_eq!(range_header(1234), Some("bytes=1234-".to_string()));
}

#[test]
fn content_type_default() {
    assert_eq!(content_type_or_default(None), "application/octet-stream");
    assert_eq!(content_type_or_default(Some("audio/mpeg".to_string())), "audio/mpeg");
}

#[test]
fn extension_prefers_mp3() {
    assert_eq!(extension_for("audio/mpeg"), Some("mp3".to_string()));
    assert_eq!(extension_for("text/plain"), Some("asm".to_string()));
    assert_eq!(extension_for("application/pdf"), Some("pdf".to_string()));
    assert_eq!(extension_for("nonsense"), None);
    assert_eq!(extension_for("application/x-made-up-type"), None);
}

#[test]
fn progress_is_capped() {
    assert_eq!(advance_progress(10, 5, 100), 15);
    assert_eq!(advance_progress(98, 5, 100), 100);
    assert_eq!(advance_progress(u64::MAX, u64::MAX, 7), 7);
    assert_eq!(advance_progress(0, 5, 0), 0);
}

#[test]
fn truncation_by_width() {
    assert_eq!(truncate_string("hello world", 5), "hello");
    assert_eq!(truncate_string("日本語", 5), "日本");
    assert_eq!(truncate_string("abc", 10), "abc");
    assert_eq!(truncate_string("abc", 0), "");
}
