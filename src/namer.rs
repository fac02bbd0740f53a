use crate::episode::{chars_equal, lookup, Metadata};
use crate::external::{chars_of, format_utc, string_of, utc_strftime};
use crate::ledger::copy_range;
use vstd::prelude::*;

verus! {

/// Why a file name could not be rendered.
#[derive(Clone, Copy, Debug, PartialEq, Eq, Structural)]
pub enum NameError {
    /// The publication time cannot be written in the requested pattern.
    InvalidDate,
    /// The episode has no scalar field of the requested name.
    MissingEpisodeField,
    /// The channel has no field of the requested name.
    MissingChannelField,
}

pub open spec fn invalid_id3_tag() -> Seq<char> {
    "<<invalid id3 tag>>"@
}

pub open spec fn unknown_tag() -> Seq<char> {
    "<<unknown tag>>"@
}

pub open spec fn starts_with(s: Seq<char>, prefix: Seq<char>) -> bool {
    prefix.len() <= s.len() && s.take(prefix.len() as int) == prefix
}

/// The text that replaces the placeholder `{key}`.
pub open spec fn resolve_tag(
    key: Seq<char>,
    published: i64,
    episode: Seq<(Seq<char>, Option<Seq<char>>)>,
    channel: Seq<(Seq<char>, Option<Seq<char>>)>,
    id3: Option<Seq<(Seq<char>, Option<Seq<char>>)>>,
) -> Result<Seq<char>, NameError> {
    if starts_with(key, "pubdate::"@) {
        match utc_strftime(published, key.skip("pubdate::"@.len() as int)) {
            Some(t) => Ok(t),
            None => Err(NameError::InvalidDate),
        }
    } else if starts_with(key, "id3::"@) {
        match id3 {
            None => Ok(seq![]),
            Some(frames) => match lookup(frames, key.skip("id3::"@.len() as int)) {
                Some(Some(t)) => Ok(t),
                _ => Ok(invalid_id3_tag()),
            },
        }
    } else if starts_with(key, "rss::episode::"@) {
        match lookup(episode, key.skip("rss::episode::"@.len() as int)) {
            Some(Some(t)) => Ok(t),
            _ => Err(NameError::MissingEpisodeField),
        }
    } else if starts_with(key, "rss::channel::"@) {
        match lookup(channel, key.skip("rss::channel::"@.len() as int)) {
            Some(Some(t)) => Ok(t),
            _ => Err(NameError::MissingChannelField),
        }
    } else {
        Ok(unknown_tag())
    }
}

/// The number of characters before the first `}` of `s` (all of them if none).
pub open spec fn close_len(s: Seq<char>) -> nat
    decreases s.len(),
{
    if s.len() > 0 && s[0] != '}' {
        1 + close_len(s.drop_first())
    } else {
        0
    }
}

/// Whether a placeholder starts `s`: a `{`, at least one character other
/// than `}`, then a `}`.
pub open spec fn placeholder_at(s: Seq<char>) -> bool {
    s.len() > 0 && s[0] == '{' && 1 <= close_len(s.drop_first()) && close_len(s.drop_first()) + 1
        < s.len()
}

pub open spec fn prepend(a: Seq<char>, r: Result<Seq<char>, NameError>) -> Result<
    Seq<char>,
    NameError,
> {
    match r {
        Ok(b) => Ok(a + b),
        Err(e) => Err(e),
    }
}

/// A name pattern rendered from left to right: each placeholder replaced by
/// its text, everything else copied; the first placeholder that fails
/// decides the error.
pub open spec fn render(
    s: Seq<char>,
    published: i64,
    episode: Seq<(Seq<char>, Option<Seq<char>>)>,
    channel: Seq<(Seq<char>, Option<Seq<char>>)>,
    id3: Option<Seq<(Seq<char>, Option<Seq<char>>)>>,
) -> Result<Seq<char>, NameError>
    decreases s.len(),
{
    if s.len() == 0 {
        Ok(seq![])
    } else if placeholder_at(s) {
        let k = close_len(s.drop_first()) as int;
        match resolve_tag(s.subrange(1, k + 1), published, episode, channel, id3) {
            Ok(t) => prepend(t, render(s.skip(k + 2), published, episode, channel, id3)),
            Err(e) => Err(e),
        }
    } else {
        prepend(seq![s[0]], render(s.drop_first(), published, episode, channel, id3))
    }
}

pub open spec fn opt_meta_view(m: Option<Metadata>) -> Option<Seq<(Seq<char>, Option<Seq<char>>)>> {
    match m {
        Some(m) => Some(m@),
        None => None,
    }
}

fn has_prefix(s: &Vec<char>, prefix: &str) -> (r: bool)
    ensures
        r == starts_with(s@, prefix@),
{
    let p = chars_of(prefix);
    if p.len() > s.len() {
        return false;
    }
    let mut i: usize = 0;
    while i < p.len()
        invariant
            p@ == prefix@,
            p@.len() <= s@.len(),
            i <= p@.len(),
            forall|j: int| 0 <= j < i ==> s@[j] == p@[j],
        decreases p@.len() - i,
    {
        if s[i] != p[i] {
            return false;
        }
        i = i + 1;
    }
    assert(s@.take(p@.len() as int) =~= p@);
    true
}

fn tail_string(s: &Vec<char>, from: usize) -> (r: String)
    requires
        from <= s@.len(),
    ensures
        r@ == s@.skip(from as int),
{
    let v = copy_range(s, from, s.len());
    assert(s@.subrange(from as int, s@.len() as int) =~= s@.skip(from as int));
    string_of(v.as_slice())
}

fn field_text(fields: &Metadata, key: &String) -> (r: Option<String>)
    ensures
        r is Some <==> lookup(fields@, key@) matches Some(Some(_)),
        r is Some ==> r.unwrap()@ == lookup(fields@, key@).unwrap().unwrap(),
{
    match fields.get(key.as_str()) {
        Some(Some(t)) => Some(t),
        _ => None,
    }
}

fn resolve_key(
    key: &Vec<char>,
    published: i64,
    episode: &Metadata,
    channel: &Metadata,
    id3: &Option<Metadata>,
) -> (r: Result<String, NameError>)
    ensures
        r is Ok <==> resolve_tag(key@, published, episode@, channel@, opt_meta_view(*id3)) is Ok,
        r is Ok ==> r->Ok_0@ == resolve_tag(
            key@,
            published,
            episode@,
            channel@,
            opt_meta_view(*id3),
        )->Ok_0,
        r is Err ==> r->Err_0 == resolve_tag(
            key@,
            published,
            episode@,
            channel@,
            opt_meta_view(*id3),
        )->Err_0,
{
    if has_prefix(key, "pubdate::") {
        let fmt = tail_string(key, chars_of("pubdate::").len());
        match format_utc(published, fmt.as_str()) {
            Some(t) => Ok(t),
            None => Err(NameError::InvalidDate),
        }
    } else if has_prefix(key, "id3::") {
        match id3 {
            None => Ok(String::new()),
            Some(frames) => {
                let frame = tail_string(key, chars_of("id3::").len());
                match field_text(frames, &frame) {
                    Some(t) => Ok(t),
                    None => Ok(String::from_str("<<invalid id3 tag>>")),
                }
            },
        }
    } else if has_prefix(key, "rss::episode::") {
        let field = tail_string(key, chars_of("rss::episode::").len());
        match field_text(episode, &field) {
            Some(t) => Ok(t),
            None => Err(NameError::MissingEpisodeField),
        }
    } else if has_prefix(key, "rss::channel::") {
        let field = tail_string(key, chars_of("rss::channel::").len());
        match field_text(channel, &field) {
            Some(t) => Ok(t),
            None => Err(NameError::MissingChannelField),
        }
    } else {
        Ok(String::from_str("<<unknown tag>>"))
    }
}

/// The index of the first `}` in `s` at or after `from`, or `s.len()`.
fn find_close(s: &Vec<char>, from: usize) -> (q: usize)
    requires
        from <= s@.len(),
    ensures
        from <= q <= s@.len(),
        q - from == close_len(s@.skip(from as int)),
{
    let mut q = from;
    while q < s.len() && s[q] != '}'
        invariant
            from <= q <= s@.len(),
            close_len(s@.skip(from as int)) == (q - from) + close_len(s@.skip(q as int)),
        decreases s@.len() - q,
    {
        assert(s@.skip(q as int).drop_first() =~= s@.skip(q + 1));
        q = q + 1;
    }
    q
}

/// Renders a file name pattern for an episode: `{pubdate::FORMAT}` is the
/// publication time in a strftime pattern, `{id3::FRAME}` a frame of the tags
/// written to the file (empty where none were written, a marker where the
/// frame is missing), `{rss::episode::FIELD}` and `{rss::channel::FIELD}` the
/// entry's and the channel's fields, and any other placeholder a marker.
pub fn render_name(
    pattern: &str,
    published: i64,
    episode: &Metadata,
    channel: &Metadata,
    id3: &Option<Metadata>,
) -> (r: Result<String, NameError>)
    ensures
        r is Ok <==> render(pattern@, published, episode@, channel@, opt_meta_view(*id3)) is Ok,
        r is Ok ==> r->Ok_0@ == render(
            pattern@,
            published,
            episode@,
            channel@,
            opt_meta_view(*id3),
        )->Ok_0,
        r is Err ==> r->Err_0 == render(
            pattern@,
            published,
            episode@,
            channel@,
            opt_meta_view(*id3),
        )->Err_0,
{
    let ghost ids = opt_meta_view(*id3);
    let cs = chars_of(pattern);
    let mut out: Vec<char> = Vec::new();
    let mut i: usize = 0;
    assert(cs@.skip(0) =~= cs@);
    while i < cs.len()
        invariant
            cs@ == pattern@,
            ids == opt_meta_view(*id3),
            i <= cs@.len(),
            render(pattern@, published, episode@, channel@, ids) == prepend(
                out@,
                render(cs@.skip(i as int), published, episode@, channel@, ids),
            ),
        decreases cs@.len() - i,
    {
        let ghost s = cs@.skip(i as int);
        assert(s.drop_first() =~= cs@.skip(i + 1));
        let mut tag_end: usize = i;
        if cs[i] == '{' {
            tag_end = find_close(&cs, i + 1);
        }
        if cs[i] == '{' && tag_end > i + 1 && tag_end < cs.len() {
            let ghost k = close_len(s.drop_first()) as int;
            assert(placeholder_at(s));
            let key = copy_range(&cs, i + 1, tag_end);
            assert(s.subrange(1, k + 1) =~= key@);
            assert(s.skip(k + 2) =~= cs@.skip(tag_end + 1));
            match resolve_key(&key, published, episode, channel, id3) {
                Ok(t) => {
                    let ghost before = out@;
                    let mut tv = chars_of(t.as_str());
                    out.append(&mut tv);
                    assert(prepend(before, prepend(t@, render(cs@.skip(tag_end + 1), published, episode@, channel@, ids)))
                        == prepend(out@, render(cs@.skip(tag_end + 1), published, episode@, channel@, ids))) by {
                        assert(before + t@ =~= out@);
                        match render(cs@.skip(tag_end + 1), published, episode@, channel@, ids) {
                            Ok(b) => {
                                assert(before + (t@ + b) =~= out@ + b);
                            },
                            Err(_) => {},
                        }
                    }
                    i = tag_end + 1;
                },
                Err(e) => {
                    assert(render(s, published, episode@, channel@, ids) == Err::<Seq<char>, NameError>(e));
                    return Err(e);
                },
            }
        } else {
            assert(!placeholder_at(s));
            let ghost before = out@;
            out.push(cs[i]);
            assert(prepend(before, prepend(seq![s[0]], render(cs@.skip(i + 1), published, episode@, channel@, ids)))
                == prepend(out@, render(cs@.skip(i + 1), published, episode@, channel@, ids))) by {
                assert(before + seq![s[0]] =~= out@);
                match render(cs@.skip(i + 1), published, episode@, channel@, ids) {
                    Ok(b) => {
                        assert(before + (seq![s[0]] + b) =~= out@ + b);
                    },
                    Err(_) => {},
                }
            }
            i = i + 1;
        }
    }
    assert(cs@.skip(i as int) =~= Seq::<char>::empty());
    assert(out@ + Seq::<char>::empty() =~= out@);
    Ok(string_of(out.as_slice()))
}

proof fn lemma_close_len_at(s: Seq<char>, k: int)
    requires
        0 <= k < s.len(),
        s[k] == '}',
        forall|j: int| 0 <= j < k ==> s[j] != '}',
    ensures
        close_len(s) == k,
    decreases k,
{
    if k > 0 {
        assert(s[0] != '}');
        lemma_close_len_at(s.drop_first(), k - 1);
    }
}

/// Rendering depends on nothing but the pattern, the publication time and
/// the metadata given: the same inputs always give the same name. For the
/// default pattern `{pubdate::%Y-%m-%d} {rss::episode::title}` that name is
/// the date, a space and the title, and it fails exactly when one of the two
/// cannot be had.
pub proof fn lemma_default_pattern_renders(
    published: i64,
    episode: Seq<(Seq<char>, Option<Seq<char>>)>,
    channel: Seq<(Seq<char>, Option<Seq<char>>)>,
    id3: Option<Seq<(Seq<char>, Option<Seq<char>>)>>,
)
    ensures
        ({
            let r = render("{pubdate::%Y-%m-%d} {rss::episode::title}"@, published, episode, channel, id3);
            let date = utc_strftime(published, "%Y-%m-%d"@);
            let title = lookup(episode, "title"@);
            &&& r == render("{pubdate::%Y-%m-%d} {rss::episode::title}"@, published, episode, channel, id3)
            &&& (date is None ==> r == Err::<Seq<char>, NameError>(NameError::InvalidDate))
            &&& (date is Some && !(title matches Some(Some(_))) ==> r == Err::<Seq<char>, NameError>(NameError::MissingEpisodeField))
            &&& (date is Some && (title matches Some(Some(_))) ==> r == Ok::<Seq<char>, NameError>(date.unwrap() + seq![' '] + title.unwrap().unwrap()))
        }),
{
    let p = "{pubdate::%Y-%m-%d} {rss::episode::title}"@;
    reveal_strlit("{pubdate::%Y-%m-%d} {rss::episode::title}");
    reveal_strlit("pubdate::");
    reveal_strlit("%Y-%m-%d");
    reveal_strlit("id3::");
    reveal_strlit("rss::episode::");
    reveal_strlit("title");
    let date = utc_strftime(published, "%Y-%m-%d"@);
    let title = lookup(episode, "title"@);
    lemma_close_len_at(p.drop_first(), 17);
    assert(placeholder_at(p));
    let key1 = p.subrange(1, 18);
    assert(key1.take(9) =~= "pubdate::"@);
    assert(key1.skip(9) =~= "%Y-%m-%d"@);
    let s2 = p.skip(19);
    assert(s2[0] == ' ');
    assert(!placeholder_at(s2));
    let s3 = s2.drop_first();
    assert(s3 =~= p.skip(20));
    lemma_close_len_at(s3.drop_first(), 19);
    assert(placeholder_at(s3));
    let key2 = s3.subrange(1, 20);
    assert(!starts_with(key2, "pubdate::"@)) by {
        assert(key2.take(9)[0] != "pubdate::"@[0]);
    }
    assert(!starts_with(key2, "id3::"@)) by {
        assert(key2.take(5)[0] != "id3::"@[0]);
    }
    assert(key2.take(14) =~= "rss::episode::"@);
    assert(key2.skip(14) =~= "title"@);
    assert(s3.skip(21) =~= Seq::<char>::empty());
    let rest = render(s3.skip(21), published, episode, channel, id3);
    assert(rest == Ok::<Seq<char>, NameError>(seq![]));
    if date is Some && (title matches Some(Some(_))) {
        let t = title.unwrap().unwrap();
        assert(render(s3, published, episode, channel, id3) == Ok::<Seq<char>, NameError>(t + seq![]));
        assert(t + seq![] =~= t);
        assert(render(s2, published, episode, channel, id3) == Ok::<Seq<char>, NameError>(seq![' '] + t));
        assert(date.unwrap() + (seq![' '] + t) =~= date.unwrap() + seq![' '] + t);
    }
}

} // verus!
