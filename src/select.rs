use crate::config::DownloadMode;
use crate::episode::Episode;
use vstd::arithmetic::div_mod::{lemma_fundamental_div_mod, lemma_mod_bound};
use vstd::prelude::*;

verus! {

/// Whether an episode passes every bound that is set (an unset bound always passes).
pub open spec fn passes_standard(
    max_days: Option<i64>,
    earliest_date: Option<i64>,
    max_episodes: Option<i64>,
    published: i64,
    index: int,
    total: int,
    now: i64,
) -> bool {
    &&& (max_days matches Some(d) ==> now - published <= d * 86400)
    &&& (max_episodes matches Some(n) ==> total - n <= index)
    &&& (earliest_date matches Some(t) ==> published >= t)
}

/// The backlog slot that has arrived at `now`: whole days since `start`
/// (rounded down), divided by the interval (rounded down).
pub open spec fn current_bucket(start: i64, interval: i64, now: i64) -> int {
    ((now - start) / 86400) / (interval as int)
}

/// Whether the mode wants an episode, leaving the ledger aside.
pub open spec fn mode_wants(mode: DownloadMode, e: Episode, total: int, now: i64) -> bool {
    match mode {
        DownloadMode::Standard { max_days, earliest_date, max_episodes } => passes_standard(
            max_days,
            earliest_date,
            max_episodes,
            e.published,
            e.index as int,
            total,
            now,
        ),
        DownloadMode::Backlog { start, interval } => e.index <= current_bucket(start, interval, now),
    }
}

/// Whether an episode is to be downloaded: not in the ledger, and wanted by the mode.
pub open spec fn wanted(
    mode: DownloadMode,
    done: Set<Seq<char>>,
    e: Episode,
    total: int,
    now: i64,
) -> bool {
    !done.contains(e.guid@) && mode_wants(mode, e, total, now)
}

/// The episodes to download, in feed order.
pub open spec fn kept(
    mode: DownloadMode,
    done: Set<Seq<char>>,
    eps: Seq<Episode>,
    total: int,
    now: i64,
) -> Seq<Episode> {
    eps.filter(|e: Episode| wanted(mode, done, e, total, now))
}

/// The episodes to download in download order: newest first in standard
/// mode, oldest first in backlog mode.
pub open spec fn selection(mode: DownloadMode, done: Set<Seq<char>>, eps: Seq<Episode>, now: i64) -> Seq<
    Episode,
> {
    let k = kept(mode, done, eps, eps.len() as int, now);
    match mode {
        DownloadMode::Standard { .. } => k.reverse(),
        DownloadMode::Backlog { .. } => k,
    }
}

/// Whether the mode wants the episode, leaving the ledger aside.
pub fn mode_allows(mode: &DownloadMode, episode: &Episode, total: usize, now: i64) -> (r: bool)
    requires
        mode.wf(),
    ensures
        r == mode_wants(*mode, *episode, total as int, now),
{
    match mode {
        DownloadMode::Backlog { start, interval } => {
            let d: i128 = now as i128 - *start as i128;
            if d < 0 {
                proof {
                    let dd: int = d as int;
                    let iv: int = *interval as int;
                    assert(dd / 86400 < 0) by (nonlinear_arith)
                        requires
                            dd < 0,
                    ;
                    let days: int = dd / 86400;
                    assert(days / iv < 0) by (nonlinear_arith)
                        requires
                            days < 0,
                            iv > 0,
                    ;
                }
                false
            } else {
                let days: i128 = d / 86400;
                let bucket: i128 = days / (*interval as i128);
                (episode.index as i128) <= bucket
            }
        },
        DownloadMode::Standard { max_days, earliest_date, max_episodes } => {
            let age_ok = match max_days {
                Some(d) => (now as i128 - episode.published as i128) <= (*d as i128) * 86400,
                None => true,
            };
            let count_ok = match max_episodes {
                Some(n) => (total as i128) - (*n as i128) <= episode.index as i128,
                None => true,
            };
            let date_ok = match earliest_date {
                Some(t) => episode.published >= *t,
                None => true,
            };
            age_ok && count_ok && date_ok
        },
    }
}

/// `v` in reverse order.
pub(crate) fn reverse_vec<T>(v: Vec<T>) -> (r: Vec<T>)
    ensures
        r@ == v@.reverse(),
{
    let ghost v0 = v@;
    let mut rest = v;
    let mut r: Vec<T> = Vec::new();
    while rest.len() > 0
        invariant
            rest@ == v0.take(v0.len() - r@.len()),
            r@.len() <= v0.len(),
            forall|j: int| 0 <= j < r@.len() ==> r@[j] == v0[v0.len() - 1 - j],
        decreases rest@.len(),
    {
        let x = rest.pop().unwrap();
        r.push(x);
        assert(rest@ =~= v0.take(v0.len() - r@.len()));
    }
    assert(r@ =~= v0.reverse());
    r
}

/// Every element that a filter keeps comes from the filtered sequence and passes the predicate.
proof fn lemma_filter_members<A>(s: Seq<A>, p: spec_fn(A) -> bool, x: A)
    ensures
        s.filter(p).contains(x) <==> (s.contains(x) && p(x)),
    decreases s.len(),
{
    reveal(Seq::filter);
    broadcast use vstd::seq_lib::group_filter_ensures;

    if s.len() > 0 {
        lemma_filter_members(s.drop_last(), p, x);
        if s.contains(x) && p(x) {
            let i = choose|i: int| 0 <= i < s.len() && s[i] == x;
            assert(s.filter(p).contains(s[i]));
        }
        if s.filter(p).contains(x) {
            if x != s.last() || !p(s.last()) {
                let j = choose|j: int| 0 <= j < s.filter(p).len() && s.filter(p)[j] == x;
                let sub = s.drop_last().filter(p);
                if p(s.last()) {
                    assert(j < sub.len());
                    assert(sub[j] == x);
                } else {
                    assert(sub[j] == x);
                }
                assert(sub.contains(x));
                let k = choose|k: int| 0 <= k < s.drop_last().len() && s.drop_last()[k] == x;
                assert(s[k] == x);
            } else {
                assert(s[s.len() - 1] == x);
            }
        }
    }
}

/// An episode of the feed is selected in standard mode exactly when it is
/// not in the ledger and passes every bound that is set; a bound that is not
/// set lets every episode pass.
pub proof fn lemma_standard_selects_iff_all_bounds(
    max_days: Option<i64>,
    earliest_date: Option<i64>,
    max_episodes: Option<i64>,
    done: Set<Seq<char>>,
    eps: Seq<Episode>,
    e: Episode,
    now: i64,
)
    ensures
        ({
            let mode = DownloadMode::Standard { max_days, earliest_date, max_episodes };
            selection(mode, done, eps, now).contains(e) <==> {
                &&& eps.contains(e)
                &&& !done.contains(e.guid@)
                &&& (max_days matches Some(d) ==> now - e.published <= d * 86400)
                &&& (max_episodes matches Some(n) ==> eps.len() - n <= e.index)
                &&& (earliest_date matches Some(t) ==> e.published >= t)
            }
        }),
{
    let mode = DownloadMode::Standard { max_days, earliest_date, max_episodes };
    let k = kept(mode, done, eps, eps.len() as int, now);
    lemma_filter_members(eps, |x: Episode| wanted(mode, done, x, eps.len() as int, now), e);
    if k.contains(e) {
        let i = choose|i: int| 0 <= i < k.len() && k[i] == e;
        assert(k.reverse()[k.len() - 1 - i] == e);
    }
    if k.reverse().contains(e) {
        let i = choose|i: int| 0 <= i < k.reverse().len() && k.reverse()[i] == e;
        assert(k[k.len() - 1 - i] == e);
    }
}

/// Whole backlog slots: `index` has arrived exactly when `index` intervals
/// of days have passed since `start`.
pub proof fn lemma_backlog_slot_arrival(start: i64, interval: i64, now: i64, index: nat)
    requires
        interval > 0,
    ensures
        index <= current_bucket(start, interval, now) <==> now - start >= index * interval * 86400,
{
    let d: int = now - start;
    let iv: int = interval as int;
    let days: int = d / 86400;
    let k: int = index as int;
    lemma_fundamental_div_mod(d, 86400);
    lemma_mod_bound(d, 86400);
    lemma_fundamental_div_mod(days, iv);
    lemma_mod_bound(days, iv);
    let b: int = days / iv;
    if k <= b {
        assert(k * iv <= b * iv) by (nonlinear_arith)
            requires
                k <= b,
                iv > 0,
        ;
        assert(k * iv * 86400 <= days * 86400) by (nonlinear_arith)
            requires
                k * iv <= b * iv,
                days == iv * b + days % iv,
                days % iv >= 0,
        ;
    } else {
        assert(b + 1 <= k);
        assert(k * iv >= (b + 1) * iv) by (nonlinear_arith)
            requires
                b + 1 <= k,
                iv > 0,
        ;
        assert((b + 1) * iv > days) by (nonlinear_arith)
            requires
                days == iv * b + days % iv,
                days % iv < iv,
        ;
        assert(k * iv * 86400 > d) by (nonlinear_arith)
            requires
                k * iv > days,
                d == 86400 * days + d % 86400,
                d % 86400 < 86400,
        ;
    }
}

/// Backlog pacing: with weekly slots from `start`, the oldest episode is
/// eligible at `start` itself, the next one only once seven days have
/// passed, and an episode in the ledger is never selected.
pub proof fn lemma_backlog_pacing(start: i64, now: i64, done: Set<Seq<char>>, eps: Seq<Episode>, e: Episode)
    ensures
        ({
            let mode = DownloadMode::Backlog { start, interval: 7 };
            &&& (e.index == 0 ==> mode_wants(mode, e, eps.len() as int, start))
            &&& (e.index == 1 ==> (mode_wants(mode, e, eps.len() as int, now) <==> now >= start + 7 * 86400))
            &&& (done.contains(e.guid@) ==> !selection(mode, done, eps, now).contains(e))
        }),
{
    let mode = DownloadMode::Backlog { start, interval: 7 };
    lemma_backlog_slot_arrival(start, 7, start, e.index as nat);
    lemma_backlog_slot_arrival(start, 7, now, e.index as nat);
    lemma_filter_members(eps, |x: Episode| wanted(mode, done, x, eps.len() as int, now), e);
}

/// Indices strictly rising along the sequence.
pub open spec fn ascending(eps: Seq<Episode>) -> bool {
    forall|i: int, j: int| 0 <= i < j < eps.len() ==> eps[i].index < eps[j].index
}

/// Indices strictly falling along the sequence.
pub open spec fn descending(eps: Seq<Episode>) -> bool {
    forall|i: int, j: int| 0 <= i < j < eps.len() ==> eps[i].index > eps[j].index
}

proof fn lemma_filter_ascending(s: Seq<Episode>, p: spec_fn(Episode) -> bool)
    requires
        ascending(s),
    ensures
        ascending(s.filter(p)),
    decreases s.len(),
{
    reveal(Seq::filter);
    if s.len() > 0 {
        let init = s.drop_last();
        assert(ascending(init));
        lemma_filter_ascending(init, p);
        let f = init.filter(p);
        if p(s.last()) {
            assert forall|k: int| 0 <= k < f.len() implies f[k].index < s.last().index by {
                lemma_filter_members(init, p, f[k]);
                assert(f.contains(f[k]));
                let m = choose|m: int| 0 <= m < init.len() && init[m] == f[k];
                assert(s[m] == init[m]);
            }
            assert(s.filter(p) == f.push(s.last()));
        }
    }
}

/// Download order: for a feed listed oldest first, standard mode fetches
/// the selected episodes newest first and backlog mode oldest first.
pub proof fn lemma_selection_order(mode: DownloadMode, done: Set<Seq<char>>, eps: Seq<Episode>, now: i64)
    requires
        ascending(eps),
    ensures
        mode is Standard ==> descending(selection(mode, done, eps, now)),
        mode is Backlog ==> ascending(selection(mode, done, eps, now)),
{
    let k = kept(mode, done, eps, eps.len() as int, now);
    lemma_filter_ascending(eps, |e: Episode| wanted(mode, done, e, eps.len() as int, now));
    assert(ascending(k));
    let r = k.reverse();
    assert forall|i: int, j: int| 0 <= i < j < r.len() implies r[i].index > r[j].index by {
        assert(r[i] == k[k.len() - 1 - i]);
        assert(r[j] == k[k.len() - 1 - j]);
    }
}

} // verus!
