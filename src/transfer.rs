use crate::external::{
    char_display_width, decimal_digits, display_width, extensions_for, mime_extensions, string_views,
    u64_to_string,
};
use vstd::prelude::*;

verus! {

/// The suffix of a download in progress.
pub open spec fn partial_suffix() -> Seq<char> {
    ".partial"@
}

/// The content type assumed where a response gives none.
pub open spec fn default_content_type() -> Seq<char> {
    "application/octet-stream"@
}

/// The name under which an episode is downloaded until it is complete.
pub fn partial_file_name(guid: &str) -> (r: String)
    ensures
        r@ == guid@ + partial_suffix(),
{
    String::from_str(guid).concat(".partial")
}

/// The `Range` header of a request that resumes after `downloaded` bytes:
/// none for a fresh download.
pub fn range_header(downloaded: u64) -> (r: Option<String>)
    ensures
        r is None <==> downloaded == 0,
        r is Some ==> r.unwrap()@ == "bytes="@ + decimal_digits(downloaded as nat) + "-"@,
{
    if downloaded == 0 {
        None
    } else {
        let n = u64_to_string(downloaded);
        Some(String::from_str("bytes=").concat(n.as_str()).concat("-"))
    }
}

/// The content type of a response, given its header if it has a readable one.
pub fn content_type_or_default(header: Option<String>) -> (r: String)
    ensures
        r@ == (match header {
            Some(h) => h@,
            None => default_content_type(),
        }),
{
    match header {
        Some(h) => h,
        None => String::from_str("application/octet-stream"),
    }
}

/// The extension to give a download among those known for its content
/// type: `mp3` where it is one of them, else the first; none where there
/// are none.
pub open spec fn pick_extension(exts: Seq<Seq<char>>) -> Option<Seq<char>> {
    if exts.contains("mp3"@) {
        Some("mp3"@)
    } else if exts.len() > 0 {
        Some(exts[0])
    } else {
        None
    }
}

/// The extension of a download with the given content type, or `None`
/// where the type is unknown or has no extension.
pub fn extension_for(content_type: &str) -> (r: Option<String>)
    ensures
        r is Some <==> (mime_extensions(content_type@) is Some && pick_extension(
            mime_extensions(content_type@).unwrap(),
        ) is Some),
        r is Some ==> r.unwrap()@ == pick_extension(mime_extensions(content_type@).unwrap()).unwrap(),
{
    let exts = match extensions_for(content_type) {
        Some(e) => e,
        None => {
            return None;
        },
    };
    let ghost v = string_views(exts@);
    assert(v == mime_extensions(content_type@).unwrap());
    let mut i: usize = 0;
    while i < exts.len()
        invariant
            v == string_views(exts@),
            v == mime_extensions(content_type@).unwrap(),
            mime_extensions(content_type@) is Some,
            i <= exts@.len(),
            forall|j: int| 0 <= j < i ==> v[j] != "mp3"@,
        decreases exts@.len() - i,
    {
        if crate::episode::chars_equal(exts[i].as_str(), "mp3") {
            assert(v[i as int] == "mp3"@);
            assert(v.contains("mp3"@));
            return Some(String::from_str("mp3"));
        }
        i = i + 1;
    }
    assert(!v.contains("mp3"@));
    if exts.len() > 0 {
        Some(exts[0].clone())
    } else {
        None
    }
}

/// Bytes shown as downloaded after a chunk arrives: the sum, but never more
/// than the announced total.
pub fn advance_progress(downloaded: u64, chunk_len: u64, total: u64) -> (r: u64)
    ensures
        r as int == if downloaded + chunk_len <= total {
            downloaded + chunk_len
        } else {
            total as int
        },
{
    if chunk_len > total || downloaded > total - chunk_len {
        total
    } else {
        downloaded + chunk_len
    }
}

/// The file that a download leaves: the bytes already on disk, then the
/// bytes of the content from that offset on, which is what a range request
/// from the partial file's length returns.
pub open spec fn resumed(partial: Seq<u8>, content: Seq<u8>) -> Seq<u8> {
    partial + content.skip(partial.len() as int)
}

/// A download resumed from any partial file that holds a prefix of the
/// content (none at all, or all of it) ends with exactly the content, the
/// same as a download from scratch; resuming a finished download again
/// changes nothing.
pub proof fn lemma_resume_idempotent(partial: Seq<u8>, content: Seq<u8>)
    requires
        partial.len() <= content.len(),
        partial == content.take(partial.len() as int),
    ensures
        resumed(partial, content) == content,
        resumed(resumed(partial, content), content) == resumed(seq![], content),
{
    assert(partial + content.skip(partial.len() as int) =~= content);
    assert(content.skip(content.len() as int) =~= Seq::<u8>::empty());
    assert(content + Seq::<u8>::empty() =~= content);
    assert(Seq::<u8>::empty() + content.skip(0) =~= content);
}

/// The longest prefix of `s` whose display width is at most `max_width`.
pub open spec fn truncated(s: Seq<char>, max_width: int) -> Seq<char>
    decreases s.len(),
{
    if s.len() == 0 || char_display_width(s[0]) > max_width {
        seq![]
    } else {
        seq![s[0]] + truncated(s.drop_first(), max_width - char_display_width(s[0]))
    }
}

/// Cuts `s` to at most `max_width` columns, keeping whole characters.
pub fn truncate_string(s: &str, max_width: usize) -> (r: String)
    ensures
        r@ == truncated(s@, max_width as int),
{
    let cs = crate::external::chars_of(s);
    let mut out: Vec<char> = Vec::new();
    let mut width: usize = 0;
    let mut i: usize = 0;
    assert(cs@.skip(0) =~= cs@);
    while i < cs.len()
        invariant
            cs@ == s@,
            i <= cs@.len(),
            width <= max_width,
            truncated(s@, max_width as int) == out@ + truncated(
                cs@.skip(i as int),
                max_width - width,
            ),
        decreases cs@.len() - i,
    {
        let ghost rest = cs@.skip(i as int);
        assert(rest.drop_first() =~= cs@.skip(i + 1));
        let w = display_width(cs[i]);
        if w > max_width - width {
            assert(truncated(rest, max_width - width) =~= Seq::<char>::empty());
            assert(out@ + Seq::<char>::empty() =~= out@);
            return crate::external::string_of(out.as_slice());
        }
        let ghost before = out@;
        out.push(cs[i]);
        assert(before + (seq![cs@[i as int]] + truncated(cs@.skip(i + 1), max_width - width - w))
            =~= out@ + truncated(cs@.skip(i + 1), max_width - width - w));
        width = width + w;
        i = i + 1;
    }
    assert(cs@.skip(i as int) =~= Seq::<char>::empty());
    assert(out@ + Seq::<char>::empty() =~= out@);
    crate::external::string_of(out.as_slice())
}

} // verus!
