//! The multi-cadence poll scheduler: which widgets are due on each tick.

use vstd::arithmetic::div_mod::{
    lemma_fundamental_div_mod, lemma_fundamental_div_mod_converse, lemma_mod_pos_bound,
};
use vstd::prelude::*;

verus! {

/// One widget's poll interval and the time of its last poll (in
/// milliseconds on the caller's monotonic clock).
#[derive(Debug, Clone, Copy, PartialEq, Eq, Structural)]
pub struct ScheduleEntry {
    pub interval_ms: u64,
    pub last_polled_ms: Option<u64>,
}

/// A widget is due when it has never been polled, or when at least its
/// interval has passed since its last poll.
pub open spec fn is_due(e: ScheduleEntry, now: u64) -> bool {
    match e.last_polled_ms {
        None => true,
        Some(t) => now >= t && now - t >= e.interval_ms,
    }
}

/// An entry after a tick at `now`.
pub open spec fn after_tick(e: ScheduleEntry, now: u64) -> ScheduleEntry {
    if is_due(e, now) {
        ScheduleEntry { last_polled_ms: Some(now), ..e }
    } else {
        e
    }
}

/// Owns the schedule entries, one per widget in layout order.
pub struct Scheduler {
    pub entries: Vec<ScheduleEntry>,
}

impl Scheduler {
    /// A schedule in which no widget has been polled yet.
    pub fn new(intervals_ms: &Vec<u64>) -> (r: Scheduler)
        ensures
            r.entries@.len() == intervals_ms@.len(),
            forall|i: int|
                0 <= i < intervals_ms@.len() ==> r.entries@[i] == (ScheduleEntry {
                    interval_ms: intervals_ms@[i],
                    last_polled_ms: None,
                }),
    {
        let mut entries: Vec<ScheduleEntry> = Vec::new();
        let mut i: usize = 0;
        while i < intervals_ms.len()
            invariant
                i <= intervals_ms.len(),
                entries@.len() == i,
                forall|j: int|
                    0 <= j < i ==> entries@[j] == (ScheduleEntry {
                        interval_ms: intervals_ms@[j],
                        last_polled_ms: None,
                    }),
            decreases intervals_ms.len() - i,
        {
            entries.push(ScheduleEntry { interval_ms: intervals_ms[i], last_polled_ms: None });
            i = i + 1;
        }
        Scheduler { entries }
    }

    /// One tick at `now`: returns the indices of the due widgets in
    /// increasing order, and records `now` as their last poll. The caller
    /// polls exactly those widgets, then renders all of them.
    pub fn tick(&mut self, now_ms: u64) -> (r: Vec<usize>)
        ensures
            final(self).entries@.len() == old(self).entries@.len(),
            forall|i: int|
                0 <= i < old(self).entries@.len() ==> final(self).entries@[i] == after_tick(
                    old(self).entries@[i],
                    now_ms,
                ),
            forall|k: int| 0 <= k < r@.len() ==> r@[k] < old(self).entries@.len(),
            forall|k: int, l: int| 0 <= k < l < r@.len() ==> r@[k] < r@[l],
            forall|i: int|
                0 <= i < old(self).entries@.len() ==> (r@.contains(i as usize) <==> is_due(
                    old(self).entries@[i],
                    now_ms,
                )),
    {
        let ghost start = self.entries@;
        let mut due: Vec<usize> = Vec::new();
        let mut i: usize = 0;
        while i < self.entries.len()
            invariant
                i <= self.entries@.len(),
                self.entries@.len() == start.len(),
                forall|j: int|
                    0 <= j < i ==> self.entries@[j] == after_tick(start[j], now_ms),
                forall|j: int| i <= j < start.len() ==> self.entries@[j] == start[j],
                forall|k: int| 0 <= k < due@.len() ==> due@[k] < i,
                forall|k: int, l: int| 0 <= k < l < due@.len() ==> due@[k] < due@[l],
                forall|j: int| 0 <= j < i ==> (due@.contains(j as usize) <==> is_due(start[j], now_ms)),
            decreases start.len() - i,
        {
            let e = self.entries[i];
            let is_due_now = match e.last_polled_ms {
                None => true,
                Some(t) => now_ms >= t && now_ms - t >= e.interval_ms,
            };
            let ghost before = due@;
            if is_due_now {
                self.entries.set(i, ScheduleEntry { last_polled_ms: Some(now_ms), ..e });
                due.push(i);
                proof {
                    assert(due@ == before.push(i));
                    assert forall|j: int| 0 <= j < i + 1 implies (due@.contains(j as usize)
                        <==> is_due(start[j], now_ms)) by {
                        if j < i {
                            if before.contains(j as usize) {
                                let k = choose|k: int| 0 <= k < before.len() && before[k] == j as usize;
                                assert(due@[k] == j as usize);
                            }
                            if due@.contains(j as usize) {
                                let k = choose|k: int| 0 <= k < due@.len() && due@[k] == j as usize;
                                assert(k < before.len());
                                assert(before[k] == j as usize);
                            }
                        } else {
                            assert(due@[before.len() as int] == i);
                        }
                    }
                }
            } else {
                proof {
                    assert(!before.contains(i));
                }
            }
            i = i + 1;
        }
        due
    }
}

/// The tick times at which a widget with `interval` is polled, when the
/// scheduler ticks at each of `times` in turn.
pub open spec fn poll_times(interval: u64, times: Seq<u64>) -> Seq<u64>
    decreases times.len(),
{
    if times.len() == 0 {
        Seq::empty()
    } else {
        let p = poll_times(interval, times.drop_last());
        if is_due(entry_polled_at(interval, p), times.last()) {
            p.push(times.last())
        } else {
            p
        }
    }
}

/// The entry of a widget with `interval` after ticks at each of `times`: its
/// last poll is the last of its poll times.
pub open spec fn entry_after(interval: u64, times: Seq<u64>) -> ScheduleEntry {
    entry_polled_at(interval, poll_times(interval, times))
}

/// The entry of a widget with `interval` that was polled at the times `p`.
pub open spec fn entry_polled_at(interval: u64, p: Seq<u64>) -> ScheduleEntry {
    ScheduleEntry {
        interval_ms: interval,
        last_polled_ms: if p.len() == 0 {
            None
        } else {
            Some(p.last())
        },
    }
}

/// `Scheduler::tick` follows `poll_times`: ticking at `now` an entry that
/// stands after `times` leaves it as it stands after `times` and then `now`.
pub proof fn lemma_tick_follows_poll_times(interval: u64, times: Seq<u64>, now: u64)
    ensures
        after_tick(entry_after(interval, times), now) == entry_after(interval, times.push(now)),
{
    assert(times.push(now).drop_last() =~= times);
}

/// A widget is polled on the very first tick, before anything is rendered,
/// whatever its interval; after that, two of its polls are never closer than
/// its interval, and no tick at which its interval has passed goes without a
/// poll.
pub proof fn lemma_poll_cadence(interval: u64, times: Seq<u64>)
    requires
        forall|a: int, b: int| 0 <= a < b < times.len() ==> times[a] <= times[b],
    ensures
        times.len() > 0 ==> poll_times(interval, times).len() > 0 && poll_times(interval, times)[0]
            == times[0],
        forall|k: int|
            #![trigger poll_times(interval, times)[k]]
            0 <= k < poll_times(interval, times).len() - 1 ==> poll_times(interval, times)[k + 1]
                - poll_times(interval, times)[k] >= interval,
        times.len() > 0 && poll_times(interval, times.drop_last()).len() > 0 && times.last()
            - poll_times(interval, times.drop_last()).last() >= interval ==> poll_times(
            interval,
            times,
        ).last() == times.last(),
    decreases times.len(),
{
    if times.len() > 0 {
        let pre = times.drop_last();
        lemma_poll_cadence(interval, pre);
        lemma_poll_times_within(interval, pre);
        let p = poll_times(interval, pre);
        if p.len() > 0 {
            let q = choose|q: int| 0 <= q < pre.len() && pre[q] == p.last();
            assert(times[q] <= times[times.len() - 1]);
        }
    }
}

/// Every poll time is one of the tick times.
proof fn lemma_poll_times_within(interval: u64, times: Seq<u64>)
    ensures
        forall|k: int|
            #![trigger poll_times(interval, times)[k]]
            0 <= k < poll_times(interval, times).len() ==> exists|q: int|
                0 <= q < times.len() && times[q] == poll_times(interval, times)[k],
    decreases times.len(),
{
    if times.len() > 0 {
        let pre = times.drop_last();
        lemma_poll_times_within(interval, pre);
        let p = poll_times(interval, pre);
        assert forall|k: int|
            #![trigger poll_times(interval, times)[k]]
            0 <= k < poll_times(interval, times).len() implies exists|q: int|
            0 <= q < times.len() && times[q] == poll_times(interval, times)[k] by {
            if k < p.len() {
                let q = choose|q: int| 0 <= q < pre.len() && pre[q] == p[k];
                assert(times[q] == pre[q]);
            } else {
                assert(times[times.len() - 1] == poll_times(interval, times)[k]);
            }
        }
    }
}

/// Ticks at `0, d, 2d, ...`, `n` of them.
pub open spec fn even_ticks(d: u64, n: nat) -> Seq<u64> {
    Seq::new(n, |j: int| (j * d) as u64)
}

/// With ticks every `d` milliseconds, `d` dividing the interval, a widget is
/// polled at every multiple of its interval up to the last tick `T`:
/// `T / interval + 1` times, the last one at the largest such multiple.
pub proof fn lemma_even_ticks_poll_count(interval: u64, d: u64, n: nat)
    requires
        d > 0,
        interval > 0,
        interval % d == 0,
        n >= 1,
        (n - 1) * d <= u64::MAX,
    ensures
        poll_times(interval, even_ticks(d, n)).len() == ((n - 1) * d) / (interval as int) + 1,
        poll_times(interval, even_ticks(d, n)).last() == ((n - 1) * d) / (interval as int) * (
        interval as int),
    decreases n,
{
    let t = even_ticks(d, n);
    let ii = interval as int;
    let di = d as int;
    if n == 1 {
        assert(t.drop_last() =~= Seq::<u64>::empty());
        assert(t.last() == t[0]);
        assert(t[0] == (0int * (d as int)) as u64);
        assert(0int * (d as int) == 0);
        assert((n - 1) * di == 0) by (nonlinear_arith)
            requires
                n == 1,
        ;
        assert(poll_times(interval, t.drop_last()) == Seq::<u64>::empty());
        assert(poll_times(interval, t) == seq![0u64]);
        lemma_fundamental_div_mod_converse(0, ii, 0, 0);
    } else {
        let m = (n - 1) as nat;
        assert((m - 1) * di <= m * di) by (nonlinear_arith)
            requires
                m >= 1,
                di > 0,
        ;
        lemma_even_ticks_poll_count(interval, d, m);
        assert(t.drop_last() =~= even_ticks(d, m));
        assert(t.last() == m * di);
        let p = poll_times(interval, even_ticks(d, m));
        lemma_fundamental_div_mod(ii, di);
        let c = ii / di;
        assert(ii == di * c);
        let x = (m - 1) * di;
        let q = x / ii;
        assert(x >= 0) by (nonlinear_arith)
            requires
                m >= 1,
                di > 0,
                x == (m - 1) * di,
        ;
        lemma_fundamental_div_mod(x, ii);
        lemma_mod_pos_bound(x, ii);
        assert(ii * q == q * ii) by (nonlinear_arith);
        assert(q * ii <= x < q * ii + ii);
        assert(q >= 0) by (nonlinear_arith)
            requires
                q * ii + ii > x,
                x >= 0,
                ii > 0,
        ;
        assert((q + 1) * ii == q * ii + ii) by (nonlinear_arith);
        assert((m - 1) < (q + 1) * c) by (nonlinear_arith)
            requires
                (m - 1) * di < (q + 1) * ii,
                ii == di * c,
                di > 0,
        ;
        assert(m * di <= (q + 1) * ii) by (nonlinear_arith)
            requires
                m <= (q + 1) * c,
                di > 0,
                ii == di * c,
        ;
        assert(p.len() == q + 1 && p.last() == q * ii);
        if m * di == (q + 1) * ii {
            lemma_fundamental_div_mod_converse(m * di, ii, q + 1, 0);
            assert(poll_times(interval, t) == p.push(t.last()));
        } else {
            lemma_fundamental_div_mod_converse(m * di, ii, q, m * di - q * ii);
            assert(poll_times(interval, t) == p);
        }
    }
}

/// Ticking every `d` milliseconds (`d` dividing 100 ms) for 2.05 s, widgets
/// with intervals of 1 s, 100 ms and 2 s are polled at least 2, 20 and 1
/// times, counting the first-tick poll.
pub proof fn lemma_end_to_end_poll_counts(d: u64, n: nat)
    requires
        d > 0,
        100int % (d as int) == 0,
        (n - 1) * d <= 2050 < n * d,
    ensures
        poll_times(1000, even_ticks(d, n)).len() >= 2,
        poll_times(100, even_ticks(d, n)).len() >= 20,
        poll_times(2000, even_ticks(d, n)).len() >= 1,
{
    let di = d as int;
    lemma_fundamental_div_mod(100, di);
    let k = 100int / di;
    assert(100int == di * k);
    assert(di <= 100) by (nonlinear_arith)
        requires
            100int == di * k,
            di > 0,
    ;
    assert(n >= 1) by (nonlinear_arith)
        requires
            2050 < n * di,
    ;
    assert(1000 == (10 * k) * di && 2000 == (20 * k) * di) by (nonlinear_arith)
        requires
            100int == di * k,
    ;
    lemma_fundamental_div_mod_converse(1000, di, 10 * k, 0);
    lemma_fundamental_div_mod_converse(2000, di, 20 * k, 0);
    assert((n - 1) * di == n * di - di) by (nonlinear_arith);
    let last = (n - 1) * di;
    assert(last >= 1951);
    lemma_even_ticks_poll_count(1000, d, n);
    lemma_even_ticks_poll_count(100, d, n);
    lemma_even_ticks_poll_count(2000, d, n);
    lemma_fundamental_div_mod(last, 1000);
    lemma_mod_pos_bound(last, 1000);
    lemma_fundamental_div_mod(last, 100);
    lemma_mod_pos_bound(last, 100);
    lemma_fundamental_div_mod(last, 2000);
    lemma_mod_pos_bound(last, 2000);
}

} // verus!
