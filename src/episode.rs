use crate::external::{parse_rfc2822, read_rss_entries, rfc2822_seconds, rss_entries};
use vstd::prelude::*;

verus! {

/// Scalar fields of a feed entry or of a channel: each key with its text, or
/// `None` where the value is not a scalar.
#[derive(Clone, Debug)]
pub struct Metadata {
    pub fields: Vec<(String, Option<String>)>,
}

impl View for Metadata {
    type V = Seq<(Seq<char>, Option<Seq<char>>)>;

    open spec fn view(&self) -> Self::V {
        self.fields@.map_values(|f: (String, Option<String>)| (f.0@, opt_view(f.1)))
    }
}

pub open spec fn opt_view(o: Option<String>) -> Option<Seq<char>> {
    match o {
        Some(s) => Some(s@),
        None => None,
    }
}

/// The value under the first field named `key`: `None` where no field has
/// that name, `Some(None)` where its value is not a scalar.
pub open spec fn lookup(fields: Seq<(Seq<char>, Option<Seq<char>>)>, key: Seq<char>) -> Option<
    Option<Seq<char>>,
>
    decreases fields.len(),
{
    if fields.len() == 0 {
        None
    } else if fields[0].0 == key {
        Some(fields[0].1)
    } else {
        lookup(fields.drop_first(), key)
    }
}

/// Compares two character sequences.
pub(crate) fn chars_equal(a: &str, b: &str) -> (r: bool)
    ensures
        r == (a@ == b@),
{
    let av = crate::external::chars_of(a);
    let bv = crate::external::chars_of(b);
    if av.len() != bv.len() {
        return false;
    }
    let mut i: usize = 0;
    while i < av.len()
        invariant
            av@ == a@,
            bv@ == b@,
            av@.len() == bv@.len(),
            i <= av@.len(),
            forall|j: int| 0 <= j < i ==> av@[j] == bv@[j],
        decreases av@.len() - i,
    {
        if av[i] != bv[i] {
            return false;
        }
        i = i + 1;
    }
    assert(av@ =~= bv@);
    true
}

fn clone_opt(o: &Option<String>) -> (r: Option<String>)
    ensures
        r == *o,
{
    match o {
        Some(s) => Some(s.clone()),
        None => None,
    }
}

impl Metadata {
    /// A copy of the fields.
    pub fn duplicate(&self) -> (r: Metadata)
        ensures
            r@ == self@,
    {
        let mut fields: Vec<(String, Option<String>)> = Vec::new();
        let mut i: usize = 0;
        while i < self.fields.len()
            invariant
                i <= self.fields@.len(),
                fields@ == self.fields@.take(i as int),
            decreases self.fields@.len() - i,
        {
            let f = (self.fields[i].0.clone(), clone_opt(&self.fields[i].1));
            fields.push(f);
            assert(fields@ =~= self.fields@.take(i + 1));
            i = i + 1;
        }
        assert(self.fields@.take(i as int) =~= self.fields@);
        Metadata { fields }
    }

    /// The text of the first field named `key`, if it is a scalar.
    pub fn get(&self, key: &str) -> (r: Option<Option<String>>)
        ensures
            r.is_some() == lookup(self@, key@).is_some(),
            r.is_some() ==> opt_view(r.unwrap()) == lookup(self@, key@).unwrap(),
    {
        let mut i: usize = 0;
        assert(self@.skip(0) =~= self@);
        while i < self.fields.len()
            invariant
                i <= self.fields@.len(),
                lookup(self@, key@) == lookup(self@.skip(i as int), key@),
            decreases self.fields@.len() - i,
        {
            assert(self@.skip(i as int).drop_first() =~= self@.skip(i + 1));
            if chars_equal(self.fields[i].0.as_str(), key) {
                return Some(self.fields[i].1.clone());
            }
            i = i + 1;
        }
        None
    }
}

/// One entry of a feed with the fields that selection and naming need.
#[derive(Clone, Debug)]
pub struct Episode {
    pub title: String,
    pub url: String,
    pub guid: String,
    /// Publication time, seconds since the epoch.
    pub published: i64,
    /// Position in the feed sorted by publication date, 0 for the oldest.
    pub index: usize,
    /// The entry's own scalar fields.
    pub raw: Metadata,
}

/// The episode of a feed entry's fields: `None` where the title, the
/// enclosure URL or the guid is missing, or the date is missing or not a
/// valid RFC 2822 date.
pub open spec fn episode_of(
    title: Option<String>,
    url: Option<String>,
    guid: Option<String>,
    pub_date: Option<String>,
    index: usize,
    raw: Metadata,
) -> Option<Episode> {
    if title is Some && url is Some && guid is Some && pub_date is Some && rfc2822_seconds(
        pub_date.unwrap()@,
    ) is Some {
        Some(
            Episode {
                title: title.unwrap(),
                url: url.unwrap(),
                guid: guid.unwrap(),
                published: rfc2822_seconds(pub_date.unwrap()@).unwrap(),
                index,
                raw,
            },
        )
    } else {
        None
    }
}

impl Episode {
    /// An episode from a feed entry's fields, or `None` where the title, the
    /// enclosure URL or the guid is missing, or the date is missing or not a
    /// valid RFC 2822 date.
    pub fn new(
        title: Option<String>,
        url: Option<String>,
        guid: Option<String>,
        pub_date: Option<String>,
        index: usize,
        raw: Metadata,
    ) -> (r: Option<Episode>)
        ensures
            r == episode_of(title, url, guid, pub_date, index, raw),
    {
        let title = title?;
        let url = url?;
        let guid = guid?;
        let pub_date = pub_date?;
        let published = parse_rfc2822(pub_date.as_str())?;
        Some(Episode { title, url, guid, published, index, raw })
    }

    /// The text of the entry's field `tag`, if it is present and a scalar.
    pub fn get_text_value(&self, tag: &str) -> (r: Option<String>)
        ensures
            r.is_some() == (lookup(self.raw@, tag@) matches Some(Some(_))),
            r.is_some() ==> r.unwrap()@ == lookup(self.raw@, tag@).unwrap().unwrap(),
    {
        match self.raw.get(tag) {
            Some(Some(v)) => Some(v),
            _ => None,
        }
    }
}

/// The fields of one entry of a feed, as the feed gives them.
#[derive(Clone, Debug)]
pub struct FeedItem {
    pub title: Option<String>,
    pub url: Option<String>,
    pub guid: Option<String>,
    pub pub_date: Option<String>,
    pub raw: Metadata,
}

/// The date an entry is sorted by: its RFC 2822 date in seconds, or 0 where
/// it has none or it does not parse.
pub open spec fn date_key(item: FeedItem) -> i64 {
    let text = match item.pub_date {
        Some(d) => d@,
        None => seq![],
    };
    match rfc2822_seconds(text) {
        Some(t) => t,
        None => 0,
    }
}

/// Where an entry of date `k` goes in a list sorted by date: after every
/// entry that is not later.
pub open spec fn insert_pos(sorted: Seq<(i64, FeedItem)>, k: i64) -> nat
    decreases sorted.len(),
{
    if sorted.len() == 0 || sorted[0].0 > k {
        0
    } else {
        1 + insert_pos(sorted.drop_first(), k)
    }
}

/// Entries with their dates, sorted by date; entries of equal date keep
/// their order.
pub open spec fn by_date(items: Seq<FeedItem>) -> Seq<(i64, FeedItem)>
    decreases items.len(),
{
    if items.len() == 0 {
        seq![]
    } else {
        let s = by_date(items.drop_last());
        let x = items.last();
        s.insert(insert_pos(s, date_key(x)) as int, (date_key(x), x))
    }
}

/// The episodes of date-sorted entries, numbered from `from` by position;
/// entries that make no episode keep their number but give nothing.
pub open spec fn numbered(sorted: Seq<(i64, FeedItem)>, from: int) -> Seq<Episode>
    decreases sorted.len(),
{
    if sorted.len() == 0 {
        seq![]
    } else {
        let it = sorted[0].1;
        let rest = numbered(sorted.drop_first(), from + 1);
        match episode_of(it.title, it.url, it.guid, it.pub_date, from as usize, it.raw) {
            Some(e) => seq![e] + rest,
            None => rest,
        }
    }
}

proof fn lemma_insert_pos_bound(sorted: Seq<(i64, FeedItem)>, k: i64)
    ensures
        insert_pos(sorted, k) <= sorted.len(),
    decreases sorted.len(),
{
    if sorted.len() > 0 {
        lemma_insert_pos_bound(sorted.drop_first(), k);
    }
}

proof fn lemma_by_date_len(items: Seq<FeedItem>)
    ensures
        by_date(items).len() == items.len(),
    decreases items.len(),
{
    if items.len() > 0 {
        lemma_by_date_len(items.drop_last());
        lemma_insert_pos_bound(by_date(items.drop_last()), date_key(items.last()));
    }
}

/// Dates never falling along the sequence.
pub open spec fn dates_sorted(s: Seq<(i64, FeedItem)>) -> bool {
    forall|i: int, j: int| 0 <= i < j < s.len() ==> s[i].0 <= s[j].0
}

proof fn lemma_insert_pos_split(s: Seq<(i64, FeedItem)>, k: i64)
    ensures
        forall|m: int| 0 <= m < insert_pos(s, k) ==> s[m].0 <= k,
        insert_pos(s, k) < s.len() ==> s[insert_pos(s, k) as int].0 > k,
    decreases s.len(),
{
    lemma_insert_pos_bound(s, k);
    if s.len() > 0 && s[0].0 <= k {
        lemma_insert_pos_split(s.drop_first(), k);
        assert forall|m: int| 0 <= m < insert_pos(s, k) implies s[m].0 <= k by {
            if m > 0 {
                assert(s[m] == s.drop_first()[m - 1]);
            }
        }
    }
}

/// Entries come out of the date sort oldest first, each with its own date.
pub proof fn lemma_by_date_sorted(items: Seq<FeedItem>)
    ensures
        dates_sorted(by_date(items)),
        forall|i: int| 0 <= i < by_date(items).len() ==> #[trigger] by_date(items)[i].0 == date_key(by_date(items)[i].1),
    decreases items.len(),
{
    if items.len() > 0 {
        let s = by_date(items.drop_last());
        lemma_by_date_sorted(items.drop_last());
        let x = items.last();
        let k = date_key(x);
        let p = insert_pos(s, k) as int;
        lemma_insert_pos_bound(s, k);
        lemma_insert_pos_split(s, k);
        let r = s.insert(p, (k, x));
        assert(r == by_date(items));
        assert forall|i: int, j: int| 0 <= i < j < r.len() implies r[i].0 <= r[j].0 by {
            if j < p {
                assert(r[i] == s[i] && r[j] == s[j]);
            } else if j == p {
                assert(r[i] == s[i]);
            } else if i < p {
                assert(r[i] == s[i] && r[j] == s[j - 1]);
                if p < s.len() {
                    assert(s[p].0 > k);
                    assert(s[p].0 <= s[j - 1].0);
                }
            } else if i == p {
                assert(r[j] == s[j - 1]);
                assert(s[p].0 > k);
                assert(s[p].0 <= s[j - 1].0);
            } else {
                assert(r[i] == s[i - 1] && r[j] == s[j - 1]);
            }
        }
        assert forall|i: int| 0 <= i < r.len() implies #[trigger] r[i].0 == date_key(r[i].1) by {
            if i < p {
                assert(r[i] == s[i]);
            } else if i > p {
                assert(r[i] == s[i - 1]);
            }
        }
    }
}

fn sort_key(item: &FeedItem) -> (r: i64)
    ensures
        r == date_key(*item),
{
    let parsed = match &item.pub_date {
        Some(d) => parse_rfc2822(d.as_str()),
        None => parse_rfc2822(""),
    };
    proof {
        reveal_strlit("");
        assert(""@ =~= Seq::<char>::empty());
    }
    match parsed {
        Some(t) => t,
        None => 0,
    }
}

/// The episodes of a feed's entries: the entries sorted by date, oldest
/// first (entries of equal date in feed order), numbered by position, and
/// those that make no episode left out.
pub fn episodes_from_items(items: Vec<FeedItem>) -> (r: Vec<Episode>)
    requires
        items@.len() < usize::MAX,
    ensures
        r@ == numbered(by_date(items@), 0),
{
    let ghost all = items@;
    let mut rest = items;
    let mut sorted: Vec<(i64, FeedItem)> = Vec::new();
    let mut i: usize = 0;
    assert(all.skip(0) =~= all);
    assert(all.take(0) =~= Seq::<FeedItem>::empty());
    while rest.len() > 0
        invariant
            i <= all.len(),
            all.len() < usize::MAX,
            rest@ == all.skip(i as int),
            sorted@ == by_date(all.take(i as int)),
        decreases rest@.len(),
    {
        let ghost before = rest@;
        let x = rest.remove(0);
        assert(rest@ =~= all.skip(i + 1));
        let k = sort_key(&x);
        proof {
            lemma_by_date_len(all.take(i as int));
        }
        let mut p: usize = 0;
        assert(sorted@.skip(0) =~= sorted@);
        while p < sorted.len() && sorted[p].0 <= k
            invariant
                p <= sorted@.len(),
                insert_pos(sorted@, k) == p + insert_pos(sorted@.skip(p as int), k),
            decreases sorted@.len() - p,
        {
            assert(sorted@.skip(p as int).drop_first() =~= sorted@.skip(p + 1));
            p = p + 1;
        }
        assert(all.take(i + 1).drop_last() =~= all.take(i as int));
        assert(all.take(i + 1).last() == x);
        sorted.insert(p, (k, x));
        i = i + 1;
    }
    assert(all.take(i as int) =~= all);
    let ghost sorted_all = sorted@;
    let mut out: Vec<Episode> = Vec::new();
    let mut pos: usize = 0;
    proof {
        lemma_by_date_len(all);
    }
    assert(sorted_all.skip(0) =~= sorted_all);
    assert(out@ + numbered(sorted_all, 0) =~= numbered(sorted_all, 0));
    while sorted.len() > 0
        invariant
            sorted_all.len() == all.len(),
            all.len() < usize::MAX,
            pos <= sorted_all.len(),
            sorted@ == sorted_all.skip(pos as int),
            numbered(by_date(all), 0) == out@ + numbered(sorted@, pos as int),
            sorted_all == by_date(all),
        decreases sorted@.len(),
    {
        let ghost before = sorted@;
        let (_, it) = sorted.remove(0);
        assert(sorted@ =~= before.drop_first());
        assert(sorted@ =~= sorted_all.skip(pos + 1));
        let ghost prev = out@;
        match Episode::new(it.title, it.url, it.guid, it.pub_date, pos, it.raw) {
            Some(e) => {
                out.push(e);
                assert(prev + (seq![e] + numbered(sorted@, pos + 1)) =~= out@ + numbered(
                    sorted@,
                    pos + 1,
                ));
            },
            None => {},
        }
        pos = pos + 1;
    }
    assert(out@ + Seq::<Episode>::empty() =~= out@);
    out
}

/// The fields that the rss crate reads from one feed item.
#[derive(Clone, Debug)]
pub struct EntryFields {
    pub title: Option<String>,
    pub url: Option<String>,
    pub guid: Option<String>,
    pub pub_date: Option<String>,
}

pub open spec fn entry_views(v: Seq<EntryFields>) -> Seq<
    (Option<Seq<char>>, Option<Seq<char>>, Option<Seq<char>>, Option<Seq<char>>),
> {
    v.map_values(
        |e: EntryFields| (opt_view(e.title), opt_view(e.url), opt_view(e.guid), opt_view(e.pub_date)),
    )
}

pub open spec fn raws_view(raws: Seq<(String, Metadata)>) -> Seq<
    (Seq<char>, Seq<(Seq<char>, Option<Seq<char>>)>),
> {
    raws.map_values(|r: (String, Metadata)| (r.0@, r.1@))
}

/// The fields given for the entry with guid `guid`: those of the first
/// pair with that guid, none where no pair has it or the entry has no guid.
pub open spec fn raw_for(
    raws: Seq<(Seq<char>, Seq<(Seq<char>, Option<Seq<char>>)>)>,
    guid: Option<Seq<char>>,
) -> Seq<(Seq<char>, Option<Seq<char>>)>
    decreases raws.len(),
{
    if raws.len() == 0 || guid is None {
        seq![]
    } else if raws[0].0 == guid.unwrap() {
        raws[0].1
    } else {
        raw_for(raws.drop_first(), guid)
    }
}

fn find_raw(raws: &Vec<(String, Metadata)>, guid: &Option<String>) -> (r: Metadata)
    ensures
        r@ == raw_for(raws_view(raws@), opt_view(*guid)),
{
    let ghost rv = raws_view(raws@);
    match guid {
        None => Metadata { fields: Vec::new() },
        Some(g) => {
            let mut i: usize = 0;
            assert(rv.skip(0) =~= rv);
            assert(opt_view(*guid) == Some(g@));
            while i < raws.len()
                invariant
                    rv == raws_view(raws@),
                    opt_view(*guid) == Some(g@),
                    i <= raws@.len(),
                    raw_for(rv, Some(g@)) == raw_for(rv.skip(i as int), Some(g@)),
                decreases raws@.len() - i,
            {
                assert(rv.skip(i as int).drop_first() =~= rv.skip(i + 1));
                assert(rv.skip(i as int)[0] == rv[i as int]);
                assert(rv[i as int] == (raws@[i as int].0@, raws@[i as int].1@));
                if chars_equal(raws[i].0.as_str(), g.as_str()) {
                    let r = raws[i].1.duplicate();
                    assert(rv.skip(i as int).len() > 0);
                    assert(rv.skip(i as int)[0].0 == g@);
                    assert(raw_for(rv.skip(i as int), Some(g@)) == rv.skip(i as int)[0].1);
                    return r;
                }
                i = i + 1;
            }
            Metadata { fields: Vec::new() }
        },
    }
}

/// Whether a feed item carries an entry's fields and the raw fields `raw`.
pub open spec fn item_of(
    it: FeedItem,
    e: (Option<Seq<char>>, Option<Seq<char>>, Option<Seq<char>>, Option<Seq<char>>),
    raw: Seq<(Seq<char>, Option<Seq<char>>)>,
) -> bool {
    &&& opt_view(it.title) == e.0
    &&& opt_view(it.url) == e.1
    &&& opt_view(it.guid) == e.2
    &&& opt_view(it.pub_date) == e.3
    &&& it.raw@ == raw
}

/// The items of an RSS document, each with the raw fields given for its
/// guid in `raws`; `None` where the document is no RSS feed.
pub fn feed_items(xml: &str, raws: &Vec<(String, Metadata)>) -> (r: Option<Vec<FeedItem>>)
    ensures
        r is Some <==> rss_entries(xml@) is Some,
        r is Some ==> ({
            let es = rss_entries(xml@).unwrap();
            let items = r.unwrap()@;
            &&& items.len() == es.len()
            &&& forall|i: int|
                0 <= i < es.len() ==> item_of(
                    #[trigger] items[i],
                    es[i],
                    raw_for(raws_view(raws@), es[i].2),
                )
        }),
{
    let entries = read_rss_entries(xml)?;
    let ghost es = entry_views(entries@);
    let mut rest = entries;
    let mut items: Vec<FeedItem> = Vec::new();
    assert(es.skip(0) =~= es);
    while rest.len() > 0
        invariant
            es == rss_entries(xml@).unwrap(),
            items@.len() + rest@.len() == es.len(),
            entry_views(rest@) == es.skip(items@.len() as int),
            forall|i: int|
                0 <= i < items@.len() ==> item_of(
                    #[trigger] items@[i],
                    es[i],
                    raw_for(raws_view(raws@), es[i].2),
                ),
        decreases rest@.len(),
    {
        let ghost before = rest@;
        let e = rest.remove(0);
        let ghost k = items@.len() as int;
        assert(entry_views(before)[0] == es[k]);
        assert(rest@ =~= before.drop_first());
        assert(entry_views(rest@) =~= entry_views(before).drop_first());
        assert(entry_views(rest@) =~= es.skip(k + 1));
        let raw = find_raw(raws, &e.guid);
        items.push(FeedItem { title: e.title, url: e.url, guid: e.guid, pub_date: e.pub_date, raw });
    }
    Some(items)
}

} // verus!
