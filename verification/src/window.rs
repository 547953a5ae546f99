//! Trailing activity windows.
//!
//! Per client identity the throttle keeps the timestamps of recent gated
//! attempts.  Only attempts younger than [`crate::WINDOW_SECONDS`] count;
//! at most [`crate::WINDOW_SLOTS`] are retained, and when the window is full
//! the oldest surviving attempt is evicted in favour of the new one.

use vstd::prelude::*;
use crate::FREE_ATTEMPTS;
use crate::WINDOW_SECONDS;
use crate::WINDOW_SLOTS;

verus! {

/// An attempt at time `t` still counts at time `now`.
///
/// A timestamp that reads later than `now` (a clock that stepped backwards)
/// counts as current, as an elapsed time of zero would.
pub open spec fn fresh_at(t: u64, now: u64) -> bool {
    t + WINDOW_SECONDS > now
}

/// The still-counting attempts of a window, in order.
pub open spec fn fresh_of(w: Seq<u64>, now: u64) -> Seq<u64> {
    w.filter(|t: u64| fresh_at(t, now))
}

/// How many attempts of the window still count at `now`.
pub open spec fn trailing_count(w: Seq<u64>, now: u64) -> nat {
    fresh_of(w, now).len()
}

/// `i` points at the first occurrence of the window's oldest entry.
pub open spec fn is_oldest_index(w: Seq<u64>, i: int) -> bool {
    &&& 0 <= i < w.len()
    &&& forall|j: int| 0 <= j < w.len() ==> w[i] <= #[trigger] w[j]
    &&& forall|j: int| 0 <= j < i ==> w[i] < #[trigger] w[j]
}

/// The window after an attempt at `now` is recorded: expired entries are
/// dropped, and if the window is still full the oldest entry gives way.
pub open spec fn record_result(w: Seq<u64>, now: u64) -> Seq<u64> {
    let f = fresh_of(w, now);
    if f.len() < WINDOW_SLOTS {
        f.push(now)
    } else {
        f.remove(choose|i: int| is_oldest_index(f, i)).push(now)
    }
}

/// The trailing count reported for an attempt at `now`, the attempt itself
/// included.
pub open spec fn recorded_count(w: Seq<u64>, now: u64) -> nat {
    record_result(w, now).len()
}

pub proof fn lemma_oldest_index_exists(w: Seq<u64>)
    requires
        w.len() > 0,
    ensures
        exists|i: int| is_oldest_index(w, i),
    decreases w.len(),
{
    if w.len() == 1 {
        assert(is_oldest_index(w, 0));
    } else {
        lemma_oldest_index_exists(w.drop_last());
        let i = choose|i: int| is_oldest_index(w.drop_last(), i);
        assert forall|j: int| 0 <= j < w.len() - 1 implies w.drop_last()[j] == #[trigger] w[j] by {}
        if w.last() < w[i] {
            assert(is_oldest_index(w, w.len() - 1));
        } else {
            assert(is_oldest_index(w, i));
        }
    }
}

pub proof fn lemma_oldest_index_unique(w: Seq<u64>, i: int, j: int)
    requires
        is_oldest_index(w, i),
        is_oldest_index(w, j),
    ensures
        i == j,
{
    if i < j {
        assert(w[j] < w[i]);
    }
    if j < i {
        assert(w[i] < w[j]);
    }
}

/// Recording reports the prior still-counting attempts plus the new one,
/// saturating at the window's capacity.
pub proof fn lemma_recorded_count(w: Seq<u64>, now: u64)
    requires
        w.len() <= WINDOW_SLOTS,
    ensures
        recorded_count(w, now) == if trailing_count(w, now) < WINDOW_SLOTS {
            trailing_count(w, now) + 1
        } else {
            WINDOW_SLOTS as nat
        },
        recorded_count(w, now) <= WINDOW_SLOTS,
        1 <= recorded_count(w, now) <= trailing_count(w, now) + 1,
{
    let f = fresh_of(w, now);
    w.lemma_filter_len(|t: u64| fresh_at(t, now));
    if f.len() >= WINDOW_SLOTS {
        lemma_oldest_index_exists(f);
        let i = choose|i: int| is_oldest_index(f, i);
        assert(0 <= i < f.len());
    }
}

/// An identity that stops transacting for the window span counts as idle
/// again: every entry older than the span contributes nothing.
pub proof fn lemma_window_expires(w: Seq<u64>, now: u64)
    requires
        forall|i: int| 0 <= i < w.len() ==> #[trigger] w[i] + WINDOW_SECONDS <= now,
    ensures
        trailing_count(w, now) == 0,
    decreases w.len(),
{
    reveal(Seq::filter);
    if w.len() > 0 {
        assert forall|i: int| 0 <= i < w.drop_last().len() implies #[trigger] w.drop_last()[i]
            + WINDOW_SECONDS <= now by {
            assert(w.drop_last()[i] == w[i]);
        }
        lemma_window_expires(w.drop_last(), now);
        assert(!fresh_at(w.last(), now));
    }
}

/// Filtering by `q` after filtering by a weaker `p` is filtering by `q`.
proof fn lemma_filter_subsumed(s: Seq<u64>, p: spec_fn(u64) -> bool, q: spec_fn(u64) -> bool)
    requires
        forall|i: int| 0 <= i < s.len() ==> (q(#[trigger] s[i]) ==> p(s[i])),
    ensures
        s.filter(p).filter(q) == s.filter(q),
    decreases s.len(),
{
    reveal(Seq::filter);
    if s.len() > 0 {
        let dl = s.drop_last();
        assert forall|i: int| 0 <= i < dl.len() implies (q(#[trigger] dl[i]) ==> p(dl[i])) by {
            assert(dl[i] == s[i]);
        }
        lemma_filter_subsumed(dl, p, q);
        let x = s.last();
        if p(x) {
            assert(s.filter(p) == dl.filter(p).push(x));
            assert(s.filter(p).drop_last() =~= dl.filter(p));
            assert(s.filter(p).last() == x);
        } else {
            assert(!q(x));
            assert(s.filter(p) == dl.filter(p));
            assert(s.filter(q) == dl.filter(q));
        }
    }
}

/// Counts the still-counting attempts of a window, without recording.
pub fn window_count(w: &Vec<u64>, now: u64) -> (r: u32)
    requires
        w@.len() <= WINDOW_SLOTS,
    ensures
        r == trailing_count(w@, now),
{
    let mut cnt: u32 = 0;
    let mut i: usize = 0;
    while i < w.len()
        invariant
            w@.len() <= WINDOW_SLOTS,
            i <= w@.len(),
            cnt == trailing_count(w@.take(i as int), now),
            cnt <= i,
        decreases w@.len() - i,
    {
        let t = w[i];
        let is_fresh = t >= now || now - t < WINDOW_SECONDS;
        proof {
            reveal(Seq::filter);
            assert(w@.take(i as int + 1).drop_last() =~= w@.take(i as int));
            assert(w@.take(i as int + 1).last() == w@[i as int]);
            assert(is_fresh == fresh_at(w@[i as int], now));
        }
        if is_fresh {
            cnt = cnt + 1;
        }
        i += 1;
    }
    proof {
        assert(w@.take(w@.len() as int) =~= w@);
    }
    cnt
}

/// The index of the first occurrence of the window's oldest entry.
fn oldest_index(w: &Vec<u64>) -> (r: usize)
    requires
        w@.len() > 0,
    ensures
        is_oldest_index(w@, r as int),
{
    let mut best: usize = 0;
    let mut j: usize = 1;
    while j < w.len()
        invariant
            w@.len() > 0,
            best < j,
            j <= w@.len(),
            forall|x: int| 0 <= x < j ==> w@[best as int] <= #[trigger] w@[x],
            forall|x: int| 0 <= x < best ==> w@[best as int] < #[trigger] w@[x],
        decreases w@.len() - j,
    {
        if w[j] < w[best] {
            best = j;
        }
        j += 1;
    }
    best
}

/// Records an attempt at `now` into a copy of the window.
pub fn window_record(w: &Vec<u64>, now: u64) -> (r: Vec<u64>)
    requires
        w@.len() <= WINDOW_SLOTS,
    ensures
        r@ == record_result(w@, now),
        1 <= r@.len() <= WINDOW_SLOTS,
{
    let mut f: Vec<u64> = Vec::new();
    let mut i: usize = 0;
    while i < w.len()
        invariant
            i <= w@.len(),
            f@ == fresh_of(w@.take(i as int), now),
            f@.len() <= i,
        decreases w@.len() - i,
    {
        let t = w[i];
        let is_fresh = t >= now || now - t < WINDOW_SECONDS;
        proof {
            reveal(Seq::filter);
            assert(w@.take(i as int + 1).drop_last() =~= w@.take(i as int));
            assert(w@.take(i as int + 1).last() == w@[i as int]);
            assert(is_fresh == fresh_at(w@[i as int], now));
        }
        if is_fresh {
            f.push(t);
        }
        i += 1;
    }
    proof {
        assert(w@.take(w@.len() as int) =~= w@);
        w@.lemma_filter_len(|t: u64| fresh_at(t, now));
    }
    let ghost f0 = fresh_of(w@, now);
    if f.len() < WINDOW_SLOTS {
        f.push(now);
    } else {
        let idx = oldest_index(&f);
        proof {
            assert(is_oldest_index(f0, idx as int));
            let ci = choose|j: int| is_oldest_index(f0, j);
            lemma_oldest_index_unique(f0, ci, idx as int);
        }
        f.remove(idx);
        f.push(now);
    }
    f
}

/// The attempt timestamps of one identity never step backwards.
pub open spec fn nondecreasing(ts: Seq<u64>) -> bool {
    forall|i: int, j: int| 0 <= i <= j < ts.len() ==> #[trigger] ts[i] <= #[trigger] ts[j]
}

/// At each attempt, at most [`FREE_ATTEMPTS`] of the attempts so far (the
/// current one included) fall within the trailing window span.
pub open spec fn burst_bounded(ts: Seq<u64>) -> bool {
    forall|k: int|
        0 <= k < ts.len() ==> trailing_count(#[trigger] ts.take(k + 1), ts[k]) <= FREE_ATTEMPTS
}

/// The window an identity holds after making its attempts at the given
/// times, starting from no window at all.
pub open spec fn window_after(ts: Seq<u64>) -> Seq<u64>
    decreases ts.len(),
{
    if ts.len() == 0 {
        Seq::empty()
    } else {
        record_result(window_after(ts.drop_last()), ts.last())
    }
}

/// Under a bounded burst the window never fills and is exactly the
/// still-counting attempts.
proof fn lemma_window_after_low_rate(ts: Seq<u64>)
    requires
        nondecreasing(ts),
        burst_bounded(ts),
        ts.len() > 0,
    ensures
        window_after(ts) == fresh_of(ts, ts.last()),
        window_after(ts).len() <= FREE_ATTEMPTS,
    decreases ts.len(),
{
    reveal(Seq::filter);
    let x = ts.last();
    let u = ts.drop_last();
    assert(fresh_at(x, x));
    assert(ts.filter(|t: u64| fresh_at(t, x)) == u.filter(|t: u64| fresh_at(t, x)).push(x));
    let last: int = ts.len() - 1;
    assert(trailing_count(ts.take(last + 1), ts[last]) <= FREE_ATTEMPTS);
    assert(ts.take(last + 1) =~= ts);
    assert(fresh_of(u, x).len() + 1 <= FREE_ATTEMPTS);
    if u.len() == 0 {
        assert(u =~= Seq::<u64>::empty());
        assert(window_after(u) == Seq::<u64>::empty());
        assert(fresh_of(u, x) =~= Seq::<u64>::empty());
        assert(window_after(ts) == record_result(window_after(u), x));
    } else {
        assert(nondecreasing(u)) by {
            assert forall|i: int, j: int| 0 <= i <= j < u.len() implies #[trigger] u[i] <= #[trigger] u[j] by {
                assert(u[i] == ts[i] && u[j] == ts[j]);
            }
        }
        assert(burst_bounded(u)) by {
            assert forall|k: int|
                0 <= k < u.len() implies trailing_count(#[trigger] u.take(k + 1), u[k])
                <= FREE_ATTEMPTS by {
                assert(u.take(k + 1) =~= ts.take(k + 1));
                assert(u[k] == ts[k]);
            }
        }
        lemma_window_after_low_rate(u);
        let wu = window_after(u);
        assert(wu == fresh_of(u, u.last()));
        assert forall|i: int|
            0 <= i < u.len() implies (fresh_at(#[trigger] u[i], x) ==> fresh_at(u[i], u.last())) by {
            assert(u.last() == ts[ts.len() - 2]);
            assert(u.last() <= x);
        }
        lemma_filter_subsumed(u, |t: u64| fresh_at(t, u.last()), |t: u64| fresh_at(t, x));
        assert(fresh_of(wu, x) == fresh_of(u, x));
        assert(fresh_of(wu, x).len() < WINDOW_SLOTS);
        assert(window_after(ts) == fresh_of(u, x).push(x));
    }
}

/// Law: an identity whose attempts are never more than [`FREE_ATTEMPTS`]
/// deep within any trailing window span sees a reported trailing count of at
/// most [`FREE_ATTEMPTS`] at every single attempt, so no attempt ever draws
/// a challenge.
pub proof fn lemma_low_rate_always_admitted(ts: Seq<u64>, k: int)
    requires
        nondecreasing(ts),
        burst_bounded(ts),
        0 <= k < ts.len(),
    ensures
        recorded_count(window_after(ts.take(k)), ts[k]) <= FREE_ATTEMPTS,
{
    let pre = ts.take(k + 1);
    assert(nondecreasing(pre)) by {
        assert forall|i: int, j: int| 0 <= i <= j < pre.len() implies #[trigger] pre[i] <= #[trigger] pre[j] by {
            assert(pre[i] == ts[i] && pre[j] == ts[j]);
        }
    }
    assert(burst_bounded(pre)) by {
        assert forall|x: int|
            0 <= x < pre.len() implies trailing_count(#[trigger] pre.take(x + 1), pre[x])
            <= FREE_ATTEMPTS by {
            assert(pre.take(x + 1) =~= ts.take(x + 1));
            assert(pre[x] == ts[x]);
        }
    }
    lemma_window_after_low_rate(pre);
    assert(pre.drop_last() =~= ts.take(k));
    assert(pre.last() == ts[k]);
    assert(window_after(pre) == record_result(window_after(ts.take(k)), ts[k]));
}

} // verus!
