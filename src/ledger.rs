use crate::config::Config;
use crate::episode::Episode;
use crate::external::{
    all_digits, chars_of, decimal_digits, decimal_i64, digit_char, digits_value, i64_to_string, join_path, joined_path, parse_i64, parsed_i64, string_of,
};
use vstd::prelude::*;

verus! {

/// One line of the ledger: an episode's guid and when it was downloaded.
#[derive(Clone, Debug)]
pub struct LedgerEntry {
    pub id: String,
    pub recorded_at: i64,
}

/// Keeps track of which episodes have already been downloaded.
#[derive(Clone, Debug)]
pub struct DownloadedEpisodes {
    pub entries: Vec<LedgerEntry>,
}

impl View for DownloadedEpisodes {
    type V = Seq<(Seq<char>, i64)>;

    open spec fn view(&self) -> Self::V {
        self.entries@.map_values(|e: LedgerEntry| (e.id@, e.recorded_at))
    }
}

/// The ids of a ledger's entries.
pub open spec fn ids_of(entries: Seq<(Seq<char>, i64)>) -> Set<Seq<char>> {
    Set::new(|id: Seq<char>| exists|i: int| 0 <= i < entries.len() && #[trigger] entries[i].0 == id)
}

/// The name of the ledger file inside a podcast's folder.
pub open spec fn ledger_file_name() -> Seq<char> {
    ".downloaded"@
}

impl DownloadedEpisodes {
    pub open spec fn ids(&self) -> Set<Seq<char>> {
        ids_of(self@)
    }

    /// An empty ledger, as for a podcast with no ledger file yet.
    pub fn empty() -> (r: DownloadedEpisodes)
        ensures
            r@.len() == 0,
    {
        DownloadedEpisodes { entries: Vec::new() }
    }

    pub fn contains_episode(&self, episode: &Episode) -> (r: bool)
        ensures
            r == self.ids().contains(episode.guid@),
    {
        let mut i: usize = 0;
        while i < self.entries.len()
            invariant
                i <= self.entries@.len(),
                forall|j: int| 0 <= j < i ==> self@[j].0 != episode.guid@,
            decreases self.entries@.len() - i,
        {
            if crate::episode::chars_equal(self.entries[i].id.as_str(), episode.guid.as_str()) {
                assert(self@[i as int].0 == episode.guid@);
                return true;
            }
            i = i + 1;
        }
        false
    }

    /// Where the ledger of podcast `pod_name` is kept.
    pub fn file_path(config: &Config, pod_name: &str) -> (r: String)
        ensures
            r@ == joined_path(joined_path(config.download_path@, pod_name@), ledger_file_name()),
    {
        let folder = join_path(config.download_path.as_str(), pod_name);
        join_path(folder.as_str(), ".downloaded")
    }
}

/// Whitespace as `char::is_whitespace` reads it (Unicode `White_Space`).
pub open spec fn is_ws(c: char) -> bool {
    let u = c as u32;
    (0x09 <= u <= 0x0d) || u == 0x20 || u == 0x85 || u == 0xa0 || u == 0x1680 || (0x2000 <= u
        <= 0x200a) || u == 0x2028 || u == 0x2029 || u == 0x202f || u == 0x205f || u == 0x3000
}

fn is_space(c: char) -> (r: bool)
    ensures
        r == is_ws(c),
{
    let u = c as u32;
    (0x09 <= u && u <= 0x0d) || u == 0x20 || u == 0x85 || u == 0xa0 || u == 0x1680 || (0x2000
        <= u && u <= 0x200a) || u == 0x2028 || u == 0x2029 || u == 0x202f || u == 0x205f || u
        == 0x3000
}

/// `s` without its leading whitespace.
pub open spec fn skip_ws(s: Seq<char>) -> Seq<char>
    decreases s.len(),
{
    if s.len() > 0 && is_ws(s[0]) {
        skip_ws(s.drop_first())
    } else {
        s
    }
}

/// The length of the run of non-whitespace that starts `s`.
pub open spec fn word_len(s: Seq<char>) -> nat
    decreases s.len(),
{
    if s.len() > 0 && !is_ws(s[0]) {
        1 + word_len(s.drop_first())
    } else {
        0
    }
}

/// The entry of one ledger line: its first whitespace-separated word is the
/// id and its second the timestamp; a line with fewer words, or whose
/// timestamp is no `i64`, holds no entry. Later words (the title) are not read.
pub open spec fn line_entry(line: Seq<char>) -> Option<(Seq<char>, i64)> {
    let a = skip_ws(line);
    let id = a.take(word_len(a) as int);
    let b = skip_ws(a.skip(word_len(a) as int));
    let ts = b.take(word_len(b) as int);
    match parsed_i64(ts) {
        Some(t) => Some((id, t)),
        None => None,
    }
}

pub open spec fn emit(line: Seq<char>) -> Seq<(Seq<char>, i64)> {
    match line_entry(line) {
        Some(e) => seq![e],
        None => seq![],
    }
}

/// The entries of the text `s` that follows a line begun with `line`.
pub open spec fn entries_from(s: Seq<char>, line: Seq<char>) -> Seq<(Seq<char>, i64)>
    decreases s.len(),
{
    if s.len() == 0 {
        emit(line)
    } else if s[0] == '\n' {
        emit(line) + entries_from(s.drop_first(), seq![])
    } else {
        entries_from(s.drop_first(), line.push(s[0]))
    }
}

/// The entries of a ledger's text, line by line, skipping lines that hold none.
pub open spec fn ledger_entries(s: Seq<char>) -> Seq<(Seq<char>, i64)> {
    entries_from(s, seq![])
}

/// The line that records one download.
pub open spec fn entry_line(id: Seq<char>, recorded_at: i64, title: Seq<char>) -> Seq<char> {
    id + seq![' '] + decimal_i64(recorded_at) + seq![' ', '"'] + title + seq!['"', '\n']
}

fn skip_spaces(cs: &Vec<char>, a: usize, b: usize) -> (j: usize)
    requires
        a <= b <= cs@.len(),
    ensures
        a <= j <= b,
        cs@.subrange(j as int, b as int) == skip_ws(cs@.subrange(a as int, b as int)),
{
    let mut j = a;
    while j < b && is_space(cs[j])
        invariant
            a <= j <= b <= cs@.len(),
            skip_ws(cs@.subrange(a as int, b as int)) == skip_ws(cs@.subrange(j as int, b as int)),
        decreases b - j,
    {
        assert(cs@.subrange(j as int, b as int).drop_first() =~= cs@.subrange(j + 1, b as int));
        j = j + 1;
    }
    j
}

fn word_end(cs: &Vec<char>, a: usize, b: usize) -> (e: usize)
    requires
        a <= b <= cs@.len(),
    ensures
        a <= e <= b,
        e - a == word_len(cs@.subrange(a as int, b as int)),
{
    let mut e = a;
    while e < b && !is_space(cs[e])
        invariant
            a <= e <= b <= cs@.len(),
            word_len(cs@.subrange(a as int, b as int)) == (e - a) + word_len(
                cs@.subrange(e as int, b as int),
            ),
        decreases b - e,
    {
        assert(cs@.subrange(e as int, b as int).drop_first() =~= cs@.subrange(e + 1, b as int));
        e = e + 1;
    }
    e
}

pub(crate) fn copy_range(cs: &Vec<char>, a: usize, b: usize) -> (r: Vec<char>)
    requires
        a <= b <= cs@.len(),
    ensures
        r@ == cs@.subrange(a as int, b as int),
{
    let mut r: Vec<char> = Vec::new();
    let mut i = a;
    while i < b
        invariant
            a <= i <= b <= cs@.len(),
            r@ == cs@.subrange(a as int, i as int),
        decreases b - i,
    {
        r.push(cs[i]);
        assert(r@ =~= cs@.subrange(a as int, i + 1));
        i = i + 1;
    }
    r
}

fn read_line(cs: &Vec<char>, a: usize, b: usize) -> (r: Option<LedgerEntry>)
    requires
        a <= b <= cs@.len(),
    ensures
        r is Some <==> line_entry(cs@.subrange(a as int, b as int)) is Some,
        r is Some ==> (r.unwrap().id@, r.unwrap().recorded_at) == line_entry(
            cs@.subrange(a as int, b as int),
        ).unwrap(),
{
    let ghost line = cs@.subrange(a as int, b as int);
    let j = skip_spaces(cs, a, b);
    let e = word_end(cs, j, b);
    assert(cs@.subrange(j as int, b as int).skip(e - j) =~= cs@.subrange(e as int, b as int));
    assert(cs@.subrange(j as int, b as int).take(e - j) =~= cs@.subrange(j as int, e as int));
    let k = skip_spaces(cs, e, b);
    let f = word_end(cs, k, b);
    assert(cs@.subrange(k as int, b as int).take(f - k) =~= cs@.subrange(k as int, f as int));
    let ts = string_of(copy_range(cs, k, f).as_slice());
    match parse_i64(ts.as_str()) {
        Some(t) => {
            let id = string_of(copy_range(cs, j, e).as_slice());
            Some(LedgerEntry { id, recorded_at: t })
        },
        None => None,
    }
}

impl DownloadedEpisodes {
    /// Reads a ledger's text: one entry per line that has an id and a
    /// timestamp, in order; other lines are skipped.
    pub fn parse(text: &str) -> (r: DownloadedEpisodes)
        ensures
            r@ == ledger_entries(text@),
    {
        let cs = chars_of(text);
        let mut entries: Vec<LedgerEntry> = Vec::new();
        let mut start: usize = 0;
        let mut i: usize = 0;
        assert(cs@.skip(0) =~= cs@);
        assert(cs@.subrange(0, 0) =~= Seq::<char>::empty());
        assert(entries@.map_values(|e: LedgerEntry| (e.id@, e.recorded_at)) =~= Seq::empty());
        while i < cs.len()
            invariant
                cs@ == text@,
                start <= i <= cs@.len(),
                ledger_entries(text@) == entries@.map_values(
                    |e: LedgerEntry| (e.id@, e.recorded_at),
                ) + entries_from(cs@.skip(i as int), cs@.subrange(start as int, i as int)),
            decreases cs@.len() - i,
        {
            let ghost before = entries@.map_values(|e: LedgerEntry| (e.id@, e.recorded_at));
            assert(cs@.skip(i as int).drop_first() =~= cs@.skip(i + 1));
            if cs[i] == '\n' {
                let got = read_line(&cs, start, i);
                match got {
                    Some(entry) => {
                        entries.push(entry);
                    },
                    None => {},
                }
                assert(entries@.map_values(|e: LedgerEntry| (e.id@, e.recorded_at)) =~= before + emit(
                    cs@.subrange(start as int, i as int),
                ));
                assert(cs@.subrange(i + 1, i + 1) =~= Seq::<char>::empty());
                start = i + 1;
            } else {
                assert(cs@.subrange(start as int, i + 1) =~= cs@.subrange(start as int, i as int).push(
                    cs@[i as int],
                ));
            }
            i = i + 1;
        }
        let ghost before = entries@.map_values(|e: LedgerEntry| (e.id@, e.recorded_at));
        let got = read_line(&cs, start, i);
        match got {
            Some(entry) => {
                entries.push(entry);
            },
            None => {},
        }
        assert(entries@.map_values(|e: LedgerEntry| (e.id@, e.recorded_at)) =~= before + emit(
            cs@.subrange(start as int, i as int),
        ));
        assert(cs@.skip(i as int) =~= Seq::<char>::empty());
        DownloadedEpisodes { entries }
    }

    /// The ledger line that records `guid` as downloaded at `recorded_at`.
    pub fn entry_line(guid: &str, recorded_at: i64, title: &str) -> (r: String)
        ensures
            r@ == entry_line(guid@, recorded_at, title@),
    {
        let line = String::from_str(guid);
        let line = line.concat(" ");
        let ts = i64_to_string(recorded_at);
        let line = line.concat(ts.as_str());
        let line = line.concat(" \"");
        let line = line.concat(title);
        let line = line.concat("\"\n");
        proof {
            reveal_strlit(" ");
            reveal_strlit(" \"");
            reveal_strlit("\"\n");
        }
        assert(line@ =~= entry_line(guid@, recorded_at, title@));
        line
    }
}

/// The text of a ledger to which `records` (id, time, title) were appended in order.
pub open spec fn ledger_text(records: Seq<(Seq<char>, i64, Seq<char>)>) -> Seq<char>
    decreases records.len(),
{
    if records.len() == 0 {
        seq![]
    } else {
        entry_line(records[0].0, records[0].1, records[0].2) + ledger_text(records.drop_first())
    }
}

/// A record that its ledger line keeps intact: a non-empty id without
/// whitespace, and a title without a line break.
pub open spec fn recordable(id: Seq<char>, title: Seq<char>) -> bool {
    &&& id.len() > 0
    &&& forall|i: int| 0 <= i < id.len() ==> !is_ws(#[trigger] id[i])
    &&& forall|i: int| 0 <= i < title.len() ==> #[trigger] title[i] != '\n'
}

proof fn lemma_decimal_digits(n: nat)
    ensures
        decimal_digits(n).len() > 0,
        all_digits(decimal_digits(n)),
        digits_value(decimal_digits(n)) == n,
    decreases n,
{
    let d = n % 10;
    assert(digit_char(d) as int - '0' as int == d && '0' <= digit_char(d) <= '9') by {
        assert(0 <= d < 10);
    }
    if n >= 10 {
        lemma_decimal_digits(n / 10);
        vstd::arithmetic::div_mod::lemma_fundamental_div_mod(n as int, 10);
        let s = decimal_digits(n);
        assert(s.drop_last() =~= decimal_digits(n / 10));
        assert(s.last() == digit_char(d));
        assert(digits_value(s) == digits_value(s.drop_last()) * 10 + (s.last() as int - '0' as int));
        assert(digits_value(s) == (n / 10) * 10 + d);
    } else {
        let s = decimal_digits(n);
        assert(d == n);
        assert(s =~= seq![digit_char(n)]);
        assert(s.drop_last() =~= Seq::<char>::empty());
        assert(digits_value(s.drop_last()) == 0);
        assert(digits_value(s) == digits_value(s.drop_last()) * 10 + (s.last() as int - '0' as int));
    }
}

proof fn lemma_decimal_i64(t: i64)
    ensures
        parsed_i64(decimal_i64(t)) == Some(t),
        decimal_i64(t).len() > 0,
        forall|i: int| 0 <= i < decimal_i64(t).len() ==> !is_ws(#[trigger] decimal_i64(t)[i]),
{
    if t < 0 {
        let m = (-(t as int)) as nat;
        lemma_decimal_digits(m);
        let s = decimal_i64(t);
        assert(s.drop_first() =~= decimal_digits(m));
        assert forall|i: int| 0 <= i < s.len() implies !is_ws(#[trigger] s[i]) by {
            if i > 0 {
                assert(s[i] == decimal_digits(m)[i - 1]);
            }
        }
    } else {
        lemma_decimal_digits(t as nat);
        let s = decimal_digits(t as nat);
        assert(s[0] != '-' && s[0] != '+') by {
            assert(all_digits(s));
        }
        assert forall|i: int| 0 <= i < s.len() implies !is_ws(#[trigger] s[i]) by {
            assert(all_digits(s));
        }
    }
}

proof fn lemma_word_len_concat(w: Seq<char>, x: Seq<char>)
    requires
        forall|i: int| 0 <= i < w.len() ==> !is_ws(#[trigger] w[i]),
        x.len() == 0 || is_ws(x[0]),
    ensures
        word_len(w + x) == w.len(),
    decreases w.len(),
{
    if w.len() > 0 {
        assert((w + x).drop_first() =~= w.drop_first() + x);
        assert((w + x)[0] == w[0]);
        lemma_word_len_concat(w.drop_first(), x);
    } else {
        assert(w + x =~= x);
    }
}

proof fn lemma_line_entry_of_record(id: Seq<char>, t: i64, title: Seq<char>)
    requires
        recordable(id, title),
    ensures
        line_entry(id + seq![' '] + decimal_i64(t) + seq![' ', '"'] + title + seq!['"']) == Some(
            (id, t),
        ),
{
    let dec = decimal_i64(t);
    lemma_decimal_i64(t);
    let y = seq![' ', '"'] + title + seq!['"'];
    let x = seq![' '] + dec + y;
    let body = id + seq![' '] + dec + seq![' ', '"'] + title + seq!['"'];
    assert(body =~= id + x);
    assert(body[0] == id[0]);
    assert(skip_ws(body) == body);
    lemma_word_len_concat(id, x);
    assert(body.take(id.len() as int) =~= id);
    assert(body.skip(id.len() as int) =~= x);
    assert(x.drop_first() =~= dec + y);
    assert((dec + y)[0] == dec[0]);
    assert(x[0] == ' ');
    assert(is_ws(' '));
    assert(!is_ws((dec + y)[0]));
    assert(skip_ws(dec + y) == dec + y);
    assert(skip_ws(x) == dec + y);
    lemma_word_len_concat(dec, y);
    assert((dec + y).take(dec.len() as int) =~= dec);
}

proof fn lemma_entries_through_line(p: Seq<char>, rest: Seq<char>, cur: Seq<char>)
    requires
        forall|i: int| 0 <= i < p.len() ==> #[trigger] p[i] != '\n',
    ensures
        entries_from(p + seq!['\n'] + rest, cur) == emit(cur + p) + entries_from(rest, seq![]),
    decreases p.len(),
{
    let s = p + seq!['\n'] + rest;
    if p.len() == 0 {
        assert(s =~= seq!['\n'] + rest);
        assert(s.drop_first() =~= rest);
        assert(cur + p =~= cur);
    } else {
        assert(s[0] == p[0]);
        assert(s.drop_first() =~= p.drop_first() + seq!['\n'] + rest);
        lemma_entries_through_line(p.drop_first(), rest, cur.push(p[0]));
        assert(cur.push(p[0]) + p.drop_first() =~= cur + p);
    }
}

pub open spec fn record_pairs(records: Seq<(Seq<char>, i64, Seq<char>)>) -> Seq<(Seq<char>, i64)> {
    records.map_values(|r: (Seq<char>, i64, Seq<char>)| (r.0, r.1))
}

pub open spec fn all_recordable(records: Seq<(Seq<char>, i64, Seq<char>)>) -> bool {
    forall|i: int| 0 <= i < records.len() ==> recordable(#[trigger] records[i].0, records[i].2)
}

proof fn lemma_ledger_text_then(records: Seq<(Seq<char>, i64, Seq<char>)>, rest: Seq<char>)
    requires
        all_recordable(records),
    ensures
        entries_from(ledger_text(records) + rest, seq![]) == record_pairs(records) + entries_from(
            rest,
            seq![],
        ),
    decreases records.len(),
{
    let pairs = record_pairs(records);
    if records.len() == 0 {
        assert(ledger_text(records) + rest =~= rest);
        assert(pairs =~= Seq::<(Seq<char>, i64)>::empty());
        assert(pairs + entries_from(rest, seq![]) =~= entries_from(rest, seq![]));
    } else {
        let r = records[0];
        let tail = records.drop_first();
        assert(forall|i: int| 0 <= i < tail.len() ==> #[trigger] tail[i] == records[i + 1]);
        lemma_ledger_text_then(tail, rest);
        let body = r.0 + seq![' '] + decimal_i64(r.1) + seq![' ', '"'] + r.2 + seq!['"'];
        assert(recordable(r.0, r.2));
        lemma_decimal_i64(r.1);
        assert forall|i: int| 0 <= i < body.len() implies #[trigger] body[i] != '\n' by {
            let n1 = r.0.len() as int;
            let n2 = n1 + 1 + decimal_i64(r.1).len();
            if i < n1 {
                assert(body[i] == r.0[i]);
            } else if n1 < i < n2 {
                assert(body[i] == decimal_i64(r.1)[i - n1 - 1]);
            } else if n2 + 2 <= i < n2 + 2 + r.2.len() {
                assert(body[i] == r.2[i - n2 - 2]);
            }
        }
        assert(ledger_text(records) + rest =~= body + seq!['\n'] + (ledger_text(tail) + rest));
        lemma_entries_through_line(body, ledger_text(tail) + rest, seq![]);
        assert(Seq::<char>::empty() + body =~= body);
        lemma_line_entry_of_record(r.0, r.1, r.2);
        assert(pairs =~= seq![(r.0, r.1)] + record_pairs(tail));
        assert(seq![(r.0, r.1)] + (record_pairs(tail) + entries_from(rest, seq![])) =~= pairs
            + entries_from(rest, seq![]));
    }
}

proof fn lemma_no_entries_in_empty()
    ensures
        ledger_entries(seq![]) == Seq::<(Seq<char>, i64)>::empty(),
{
    assert(skip_ws(Seq::<char>::empty()) =~= Seq::<char>::empty());
}

/// Appending records to a ledger and reading it back gives exactly those
/// records' ids and times, in order, so its ids are exactly theirs.
pub proof fn lemma_ledger_round_trip(records: Seq<(Seq<char>, i64, Seq<char>)>)
    requires
        all_recordable(records),
    ensures
        ledger_entries(ledger_text(records)) == record_pairs(records),
        ids_of(ledger_entries(ledger_text(records))) == Set::new(
            |id: Seq<char>| exists|i: int| 0 <= i < records.len() && #[trigger] records[i].0 == id,
        ),
{
    lemma_ledger_text_then(records, seq![]);
    lemma_no_entries_in_empty();
    assert(ledger_text(records) + seq![] =~= ledger_text(records));
    let entries = ledger_entries(ledger_text(records));
    assert(entries =~= record_pairs(records));
    assert(ids_of(entries) =~= Set::new(
        |id: Seq<char>| exists|i: int| 0 <= i < records.len() && #[trigger] records[i].0 == id,
    )) by {
        assert forall|id: Seq<char>| ids_of(entries).contains(id) implies exists|i: int|
            0 <= i < records.len() && #[trigger] records[i].0 == id by {
            let i = choose|i: int| 0 <= i < entries.len() && #[trigger] entries[i].0 == id;
            assert(records[i].0 == id);
        }
        assert forall|id: Seq<char>|
            (exists|i: int| 0 <= i < records.len() && #[trigger] records[i].0 == id) implies ids_of(
            entries,
        ).contains(id) by {
            let i = choose|i: int| 0 <= i < records.len() && #[trigger] records[i].0 == id;
            assert(entries[i].0 == id);
        }
    }
}

/// A line without an entry (too few words, or a timestamp that is no
/// number) between well-formed records is skipped: reading gives the
/// records before and after it and nothing else.
pub proof fn lemma_malformed_line_skipped(
    before: Seq<(Seq<char>, i64, Seq<char>)>,
    bad: Seq<char>,
    after: Seq<(Seq<char>, i64, Seq<char>)>,
)
    requires
        all_recordable(before),
        all_recordable(after),
        forall|i: int| 0 <= i < bad.len() ==> #[trigger] bad[i] != '\n',
        line_entry(bad) is None,
    ensures
        ledger_entries(ledger_text(before) + bad + seq!['\n'] + ledger_text(after)) == record_pairs(
            before,
        ) + record_pairs(after),
{
    let rest = bad + seq!['\n'] + ledger_text(after);
    lemma_ledger_text_then(before, rest);
    assert(ledger_text(before) + bad + seq!['\n'] + ledger_text(after) =~= ledger_text(before)
        + rest);
    lemma_entries_through_line(bad, ledger_text(after), seq![]);
    assert(Seq::<char>::empty() + bad =~= bad);
    lemma_ledger_text_then(after, seq![]);
    lemma_no_entries_in_empty();
    assert(ledger_text(after) + seq![] =~= ledger_text(after));
    assert(entries_from(ledger_text(after), seq![]) =~= record_pairs(after));
    assert(emit(bad) =~= Seq::<(Seq<char>, i64)>::empty());
    assert(emit(bad) + entries_from(ledger_text(after), seq![]) =~= record_pairs(after));
}

} // verus!
