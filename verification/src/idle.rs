//! Detection of idle windows: maximal runs of idle hours in a series sorted by time.
use vstd::prelude::*;

use crate::series::{
    Datapoint, timestamps_of, is_stable_order, time_order, lemma_time_order, stable_order,
    timestamps, hourly_grid, precedes, lemma_time_order_exists,
};
use crate::time::{MAX_TIMESTAMP, representable};

verus! {

/// A contiguous block of idle observations.
#[derive(Debug, Clone, Copy, PartialEq, Eq, Structural)]
pub struct IdleWindow {
    /// Instant of the first idle observation.
    pub start: i64,
    /// Instant of the first observation after the block, or one hour after the
    /// last observation when the series ends idle.
    pub end: i64,
    /// Number of observations in the block.
    pub duration_hours: u64,
}

/// An idle window together with the observed values inside it, in time order.
pub struct IdleRun<V> {
    pub window: IdleWindow,
    pub values: Vec<V>,
}

/// The series sorted by time, equal timestamps in series order.
pub open spec fn sorted_points<V>(d: Seq<Datapoint<V>>) -> Seq<Datapoint<V>> {
    let o = time_order(timestamps_of(d));
    Seq::new(d.len(), |k: int| d[o[k] as int])
}

/// The flags of `sorted_points(d)`, where `flags[i]` belongs to `d[i]`.
pub open spec fn sorted_flags<V>(d: Seq<Datapoint<V>>, flags: Seq<bool>) -> Seq<bool> {
    let o = time_order(timestamps_of(d));
    Seq::new(d.len(), |k: int| flags[o[k] as int])
}

/// First position at or after `p` whose flag is false (or the length).
pub open spec fn run_end(f: Seq<bool>, p: int) -> int
    decreases f.len() - p,
{
    if 0 <= p < f.len() && f[p] {
        run_end(f, p + 1)
    } else {
        p
    }
}

/// A run of true flags begins at `p`.
pub open spec fn starts_run(f: Seq<bool>, p: int) -> bool {
    0 <= p < f.len() && f[p] && (p == 0 || !f[p - 1])
}

/// A run begins at `p` and holds at least `min` flags.
pub open spec fn qualifies(f: Seq<bool>, min: int, p: int) -> bool {
    starts_run(f, p) && run_end(f, p) - p >= min
}

/// The positions below `n` at which a qualifying run begins, ascending.
pub open spec fn qualifying_starts(f: Seq<bool>, min: int, n: int) -> Seq<int>
    decreases n,
{
    if n <= 0 {
        Seq::empty()
    } else if qualifies(f, min, n - 1) {
        qualifying_starts(f, min, n - 1).push(n - 1)
    } else {
        qualifying_starts(f, min, n - 1)
    }
}

/// The window of the run that begins at `p` in the sorted series `pts`.
pub open spec fn window_at<V>(pts: Seq<Datapoint<V>>, f: Seq<bool>, p: int) -> IdleWindow {
    let e = run_end(f, p);
    IdleWindow {
        start: pts[p].timestamp,
        end: if e < pts.len() {
            pts[e].timestamp
        } else {
            (pts[pts.len() - 1].timestamp + 3600) as i64
        },
        duration_hours: (e - p) as u64,
    }
}

/// The values of a series, in order.
pub open spec fn values_of<V>(s: Seq<Datapoint<V>>) -> Seq<V> {
    s.map_values(|x: Datapoint<V>| x.value)
}

/// The values of the run that begins at `p`.
pub open spec fn run_values<V>(pts: Seq<Datapoint<V>>, f: Seq<bool>, p: int) -> Seq<V> {
    values_of(pts.subrange(p, run_end(f, p)))
}

/// `r` is the idle run that begins at `p`.
pub open spec fn is_run_at<V>(r: IdleRun<V>, pts: Seq<Datapoint<V>>, f: Seq<bool>, p: int) -> bool {
    &&& r.window == window_at(pts, f, p)
    &&& r.values@ == run_values(pts, f, p)
}

/// The windows of a sorted series with flags `f`, of at least `min` observations.
pub open spec fn windows_of<V>(pts: Seq<Datapoint<V>>, f: Seq<bool>, min: int) -> Seq<IdleWindow> {
    qualifying_starts(f, min, f.len() as int).map_values(|p: int| window_at(pts, f, p))
}

/// What `detect_idle_windows` asks of its input: one flag per point, instants that a
/// UTC date-time can hold, and room for one more hour after the last point when the
/// series ends idle.
pub open spec fn detect_input_ok<V>(d: Seq<Datapoint<V>>, idle: Seq<bool>) -> bool {
    &&& idle.len() == d.len()
    &&& forall|i: int| 0 <= i < d.len() ==> representable(#[trigger] d[i].timestamp as int)
    &&& (d.len() > 0 && sorted_flags(d, idle)[d.len() - 1]) ==> sorted_points(d)[d.len()
        - 1].timestamp + 3600 <= MAX_TIMESTAMP
}

proof fn lemma_run_end_at(f: Seq<bool>, s: int, p: int, e: int)
    requires
        0 <= s <= p <= e <= f.len(),
        forall|q: int| s <= q < e ==> f[q],
        e == f.len() || !f[e],
    ensures
        run_end(f, p) == e,
    decreases e - p,
{
    if p < e {
        lemma_run_end_at(f, s, p + 1, e);
    }
}

proof fn lemma_run_end_bounds(f: Seq<bool>, p: int)
    requires
        0 <= p <= f.len(),
    ensures
        p <= run_end(f, p) <= f.len(),
        forall|q: int| p <= q < run_end(f, p) ==> f[q],
        run_end(f, p) == f.len() || !f[run_end(f, p)],
    decreases f.len() - p,
{
    if p < f.len() && f[p] {
        lemma_run_end_bounds(f, p + 1);
    }
}

proof fn lemma_no_new_starts(f: Seq<bool>, min: int, s: int, k: int)
    requires
        0 <= s < k <= f.len(),
        forall|q: int| s <= q < k ==> f[q],
    ensures
        qualifying_starts(f, min, k) == qualifying_starts(f, min, s + 1),
    decreases k - s,
{
    if k > s + 1 {
        lemma_no_new_starts(f, min, s, k - 1);
        assert(!starts_run(f, k - 1));
    }
}

/// Walks the series sorted by time and returns its maximal runs of idle points that
/// hold at least `min_idle_hours` points, each with its start, its end and the
/// values inside it.
///
/// `idle[i]` tells whether `datapoints[i]` is idle; a point that is not idle closes
/// the current run, and its instant is the run's end. A run still open at the end
/// of the series ends one hour after the last point.
pub fn detect_idle_windows<V: Copy>(
    datapoints: &[Datapoint<V>],
    idle: &[bool],
    min_idle_hours: u64,
) -> (runs: Vec<IdleRun<V>>)
    requires
        detect_input_ok(datapoints@, idle@),
    ensures
        ({
            let pts = sorted_points(datapoints@);
            let f = sorted_flags(datapoints@, idle@);
            let qs = qualifying_starts(f, min_idle_hours as int, f.len() as int);
            &&& runs@.len() == qs.len()
            &&& forall|j: int| 0 <= j < runs@.len() ==> is_run_at(#[trigger] runs@[j], pts, f, qs[j])
            &&& forall|j: int| 0 <= j < runs@.len() ==> (#[trigger] runs@[j]).window == windows_of(pts, f, min_idle_hours as int)[j]
            &&& is_sorted_by_time(pts)
        }),
{
    let ghost d = datapoints@;
    let ts = timestamps(datapoints);
    let order = stable_order(&ts);
    proof {
        lemma_time_order(ts@, order@);
    }
    let ghost pts = sorted_points(d);
    let ghost f = sorted_flags(d, idle@);
    let ghost min = min_idle_hours as int;
    let n = order.len();
    assert(n == d.len());
    assert forall|k: int| 0 <= k < n implies #[trigger] pts[k] == d[order@[k] as int] by {}
    assert forall|k: int| 0 <= k < n implies #[trigger] f[k] == idle@[order@[k] as int] by {}

    proof {
        assert forall|a: int, b: int| 0 <= a <= b < pts.len() implies pts[a].timestamp <= pts[b].timestamp by {
            assert(pts[a] == d[order@[a] as int]);
            assert(pts[b] == d[order@[b] as int]);
            assert(ts@[order@[a] as int] == d[order@[a] as int].timestamp);
            assert(ts@[order@[b] as int] == d[order@[b] as int].timestamp);
            if a < b {
                assert(crate::series::precedes(ts@, order@[a] as int, order@[b] as int));
            }
        }
    }
    let mut runs: Vec<IdleRun<V>> = Vec::new();
    let mut in_run = false;
    let mut run_start: usize = 0;
    let mut vals: Vec<V> = Vec::new();
    let mut k: usize = 0;
    while k < n
        invariant
            n == d.len(),
            order@.len() == n,
            d == datapoints@,
            idle@.len() == n,
            is_stable_order(ts@, order@),
            pts == sorted_points(d),
            f == sorted_flags(d, idle@),
            min == min_idle_hours as int,
            f.len() == n,
            pts.len() == n,
            forall|q: int| 0 <= q < n ==> #[trigger] pts[q] == d[order@[q] as int],
            forall|q: int| 0 <= q < n ==> #[trigger] f[q] == idle@[order@[q] as int],
            k <= n,
            in_run ==> run_start < k && starts_run(f, run_start as int),
            in_run ==> forall|q: int| run_start <= q < k ==> f[q],
            in_run ==> vals@ == values_of(pts.subrange(run_start as int, k as int)),
            !in_run ==> (k == 0 || !f[k - 1]),
            ({
                let cut = if in_run { run_start as int } else { k as int };
                let qs = qualifying_starts(f, min, cut);
                &&& runs@.len() == qs.len()
                &&& forall|j: int| 0 <= j < runs@.len() ==> is_run_at(#[trigger] runs@[j], pts, f, qs[j])
            }),
        decreases n - k,
    {
        let i = order[k];
        if idle[i] {
            if !in_run {
                in_run = true;
                run_start = k;
                vals = Vec::new();
                assert(starts_run(f, k as int));
            }
            let ghost old_vals = vals@;
            vals.push(datapoints[i].value);
            proof {
                assert(pts[k as int] == d[i as int]);
                assert(values_of(pts.subrange(run_start as int, k + 1))
                    =~= old_vals.push(pts[k as int].value));
            }
        } else if in_run {
            let dur = (k - run_start) as u64;
            proof {
                lemma_run_end_at(f, run_start as int, run_start as int, k as int);
                lemma_no_new_starts(f, min, run_start as int, k as int);
                assert(qualifying_starts(f, min, k as int + 1) == qualifying_starts(f, min, k as int));
            }
            if dur >= min_idle_hours {
                let w = IdleWindow {
                    start: datapoints[order[run_start]].timestamp,
                    end: datapoints[i].timestamp,
                    duration_hours: dur,
                };
                let ghost qs_old = qualifying_starts(f, min, run_start as int);
                runs.push(IdleRun { window: w, values: vals });
                proof {
                    assert(qualifies(f, min, run_start as int));
                    assert(qualifying_starts(f, min, run_start as int + 1) == qs_old.push(run_start as int));
                }
            } else {
                proof {
                    assert(!qualifies(f, min, run_start as int));
                }
            }
            vals = Vec::new();
            in_run = false;
        } else {
            proof {
                assert(!starts_run(f, k as int));
            }
        }
        k = k + 1;
    }
    if in_run {
        let dur = (n - run_start) as u64;
        proof {
            lemma_run_end_at(f, run_start as int, run_start as int, n as int);
            lemma_no_new_starts(f, min, run_start as int, n as int);
        }
        if dur >= min_idle_hours {
            let last = datapoints[order[n - 1]].timestamp;
            let w = IdleWindow {
                start: datapoints[order[run_start]].timestamp,
                end: last + 3600,
                duration_hours: dur,
            };
            let ghost qs_old = qualifying_starts(f, min, run_start as int);
            runs.push(IdleRun { window: w, values: vals });
            proof {
                assert(qualifies(f, min, run_start as int));
                assert(qualifying_starts(f, min, run_start as int + 1) == qs_old.push(run_start as int));
            }
        } else {
            proof {
                assert(!qualifies(f, min, run_start as int));
            }
        }
    }
    runs
}

} // verus!

verus! {

/// The series is in time order.
pub open spec fn is_sorted_by_time<V>(pts: Seq<Datapoint<V>>) -> bool {
    forall|a: int, b: int| 0 <= a <= b < pts.len() ==> pts[a].timestamp <= pts[b].timestamp
}

/// Total number of observations in a sequence of windows.
pub open spec fn sum_durations(ws: Seq<IdleWindow>) -> int
    decreases ws.len(),
{
    if ws.len() == 0 {
        0
    } else {
        sum_durations(ws.drop_last()) + ws.last().duration_hours
    }
}

spec fn idle_total(f: Seq<bool>, min: int, m: int) -> int
    decreases m,
{
    if m <= 0 {
        0
    } else if qualifies(f, min, m - 1) {
        idle_total(f, min, m - 1) + run_end(f, m - 1) - (m - 1)
    } else {
        idle_total(f, min, m - 1)
    }
}

proof fn lemma_idle_total_bound(f: Seq<bool>, min: int, m: int)
    requires
        0 <= m <= f.len(),
    ensures
        idle_total(f, min, m) <= if m == 0 { 0 } else if run_end(f, m - 1) > m { run_end(f, m - 1) } else { m },
    decreases m,
{
    if m > 0 {
        lemma_idle_total_bound(f, min, m - 1);
        lemma_run_end_bounds(f, m - 1);
        if m >= 2 {
            lemma_run_end_bounds(f, m - 2);
        }
    }
}

proof fn lemma_sum_matches_total<V>(pts: Seq<Datapoint<V>>, f: Seq<bool>, min: int, m: int)
    requires
        0 <= m <= f.len(),
        f.len() == pts.len(),
        f.len() <= u64::MAX,
    ensures
        sum_durations(qualifying_starts(f, min, m).map_values(|p: int| window_at(pts, f, p)))
            == idle_total(f, min, m),
    decreases m,
{
    if m > 0 {
        lemma_sum_matches_total(pts, f, min, m - 1);
        let prev = qualifying_starts(f, min, m - 1);
        if qualifies(f, min, m - 1) {
            lemma_run_end_bounds(f, m - 1);
            let ws = prev.map_values(|p: int| window_at(pts, f, p));
            let w = window_at(pts, f, m - 1);
            assert(qualifying_starts(f, min, m).map_values(|p: int| window_at(pts, f, p))
                =~= ws.push(w));
            assert(ws.push(w).drop_last() =~= ws);
            assert(w.duration_hours == run_end(f, m - 1) - (m - 1));
        } else {
            assert(qualifying_starts(f, min, m) == prev);
        }
    }
}

/// Idle windows never hold more observations than the series: the idle hours that
/// the windows add up to are at most the number of hours observed, so the idle
/// percentage of a resource never exceeds 100.
pub proof fn lemma_idle_hours_within_series<V>(pts: Seq<Datapoint<V>>, f: Seq<bool>, min: int)
    requires
        f.len() == pts.len(),
        f.len() <= u64::MAX,
    ensures
        sum_durations(windows_of(pts, f, min)) <= pts.len(),
{
    lemma_sum_matches_total(pts, f, min, f.len() as int);
    lemma_idle_total_bound(f, min, f.len() as int);
    if f.len() > 0 {
        lemma_run_end_bounds(f, f.len() - 1);
    }
}

proof fn lemma_qualifying_starts_props(f: Seq<bool>, min: int, n: int)
    requires
        0 <= n <= f.len(),
    ensures
        forall|j: int|
            0 <= j < qualifying_starts(f, min, n).len() ==> #[trigger] qualifies(
                f,
                min,
                qualifying_starts(f, min, n)[j],
            ) && 0 <= qualifying_starts(f, min, n)[j] < n,
        forall|j: int, k: int|
            0 <= j < k < qualifying_starts(f, min, n).len() ==> run_end(
                f,
                qualifying_starts(f, min, n)[j],
            ) <= qualifying_starts(f, min, n)[k],
    decreases n,
{
    if n > 0 {
        lemma_qualifying_starts_props(f, min, n - 1);
        let prev = qualifying_starts(f, min, n - 1);
        if qualifies(f, min, n - 1) {
            let cur = qualifying_starts(f, min, n);
            assert forall|j: int, k: int| 0 <= j < k < cur.len() implies run_end(f, cur[j]) <= cur[k] by {
                if k == cur.len() - 1 {
                    let p = cur[j];
                    assert(qualifies(f, min, p));
                    lemma_run_end_bounds(f, p);
                    assert(cur[k] == n - 1);
                    assert(p < n - 1);
                    if run_end(f, p) > n - 1 {
                        assert(f[n - 2]);
                    }
                } else {
                    assert(cur[j] == prev[j] && cur[k] == prev[k]);
                }
            }
            assert forall|j: int| 0 <= j < cur.len() implies #[trigger] qualifies(f, min, cur[j]) && 0 <= cur[j] < n by {
                if j < prev.len() {
                    assert(cur[j] == prev[j]);
                    assert(qualifies(f, min, prev[j]));
                }
            }
        } else {
            let cur = qualifying_starts(f, min, n);
            assert(cur == prev);
            assert forall|j: int| 0 <= j < cur.len() implies #[trigger] qualifies(f, min, cur[j]) && 0 <= cur[j] < n by {
                assert(qualifies(f, min, prev[j]));
            }
        }
    }
}

/// In a series sorted by time, every idle window starts no later than it ends, and
/// each window ends no later than the next one starts: the windows come in time
/// order and never overlap. Each holds at least `min` observations, and at least one.
pub proof fn lemma_windows_ordered<V>(pts: Seq<Datapoint<V>>, f: Seq<bool>, min: int)
    requires
        f.len() == pts.len(),
        is_sorted_by_time(pts),
        pts.len() <= u64::MAX,
        forall|i: int| 0 <= i < pts.len() ==> #[trigger] pts[i].timestamp <= MAX_TIMESTAMP - 3600,
    ensures
        forall|j: int|
            0 <= j < windows_of(pts, f, min).len() ==> (#[trigger] windows_of(pts, f, min)[j]).start
                <= windows_of(pts, f, min)[j].end && windows_of(pts, f, min)[j].duration_hours
                >= min && windows_of(pts, f, min)[j].duration_hours >= 1,
        forall|j: int|
            0 <= j < windows_of(pts, f, min).len() - 1 ==> (#[trigger] windows_of(pts, f, min)[j]).end
                <= windows_of(pts, f, min)[j + 1].start,
{
    let n = f.len() as int;
    let qs = qualifying_starts(f, min, n);
    let ws = windows_of(pts, f, min);
    lemma_qualifying_starts_props(f, min, n);
    assert forall|j: int| 0 <= j < ws.len() implies (#[trigger] ws[j]).start <= ws[j].end
        && ws[j].duration_hours >= min && ws[j].duration_hours >= 1 by {
        let p = qs[j];
        assert(qualifies(f, min, qs[j]));
        lemma_run_end_bounds(f, p);
        let e = run_end(f, p);
        if e < n {
            assert(pts[p].timestamp <= pts[e].timestamp);
        } else {
            assert(pts[p].timestamp <= pts[n - 1].timestamp);
        }
    }
    assert forall|j: int| 0 <= j < ws.len() - 1 implies (#[trigger] ws[j]).end <= ws[j + 1].start by {
        let p = qs[j];
        let q = qs[j + 1];
        assert(qualifies(f, min, qs[j]));
        assert(qualifies(f, min, qs[j + 1]));
        lemma_run_end_bounds(f, p);
        assert(run_end(f, p) <= q);
        let e = run_end(f, p);
        assert(e < n);
        assert(pts[e].timestamp <= pts[q].timestamp);
    }
}

/// A series whose instants strictly increase is already in time order: sorting it
/// leaves its points, and their flags, where they are.
pub proof fn lemma_sorted_identity<V>(d: Seq<Datapoint<V>>, flags: Seq<bool>)
    requires
        flags.len() == d.len(),
        d.len() <= usize::MAX,
        forall|a: int, b: int| 0 <= a < b < d.len() ==> d[a].timestamp < d[b].timestamp,
    ensures
        sorted_points(d) == d,
        sorted_flags(d, flags) == flags,
{
    let keys = timestamps_of(d);
    let o = Seq::new(d.len(), |k: int| k as usize);
    assert forall|i: usize| i < keys.len() implies #[trigger] o.contains(i) by {
        assert(o[i as int] == i);
    }
    assert forall|j: int, k: int| 0 <= j < k < o.len() implies precedes(keys, o[j] as int, o[k] as int) by {
        assert(o[j] as int == j && o[k] as int == k);
        assert(keys[j] == d[j].timestamp && keys[k] == d[k].timestamp);
    }
    assert(is_stable_order(keys, o));
    lemma_time_order(keys, o);
    assert forall|k: int| 0 <= k < d.len() implies #[trigger] sorted_points(d)[k] == d[k] && sorted_flags(d, flags)[k] == flags[k] by {
        assert(o[k] as int == k);
    }
    assert(sorted_points(d) =~= d);
    assert(sorted_flags(d, flags) =~= flags);
}

/// On an hourly grid every idle window is made of hours of the grid: it starts no
/// earlier than the grid, holds at least one hour, and the hour after its last hour
/// is no later than the hour after the grid's last point.
pub proof fn lemma_windows_on_grid<V>(pts: Seq<Datapoint<V>>, f: Seq<bool>, min: int)
    requires
        f.len() == pts.len(),
        pts.len() <= u64::MAX,
        hourly_grid(pts),
    ensures
        forall|j: int|
            0 <= j < windows_of(pts, f, min).len() ==> pts[0].timestamp <= (
            #[trigger] windows_of(pts, f, min)[j]).start && windows_of(pts, f, min)[j].start + 3600
                * windows_of(pts, f, min)[j].duration_hours <= pts[0].timestamp + 3600 * pts.len()
                && windows_of(pts, f, min)[j].duration_hours >= 1,
{
    let n = f.len() as int;
    let qs = qualifying_starts(f, min, n);
    let ws = windows_of(pts, f, min);
    lemma_qualifying_starts_props(f, min, n);
    assert forall|j: int| 0 <= j < ws.len() implies pts[0].timestamp <= (#[trigger] ws[j]).start
        && ws[j].start + 3600 * ws[j].duration_hours <= pts[0].timestamp + 3600 * pts.len()
        && ws[j].duration_hours >= 1 by {
        let p = qs[j];
        assert(qualifies(f, min, qs[j]));
        lemma_run_end_bounds(f, p);
        let e = run_end(f, p);
        assert(ws[j] == window_at(pts, f, p));
        assert(pts[p].timestamp == pts[0].timestamp + 3600 * p);
        assert(ws[j].duration_hours == e - p);
    }
}

/// `p` reorders `n` positions: every position below `n` appears in it exactly once.
pub open spec fn is_reordering(p: Seq<usize>, n: int) -> bool {
    &&& p.len() == n
    &&& forall|i: int| 0 <= i < n ==> (#[trigger] p[i]) < n
    &&& forall|i: int, j: int| 0 <= i < j < n ==> p[i] != p[j]
    &&& forall|x: usize| x < n ==> #[trigger] p.contains(x)
}

/// Detection does not depend on the order in which the datapoints arrive: a series
/// that holds the same points, with their flags, in another order gives the same
/// idle windows, as long as no two points share an instant.
pub proof fn lemma_detection_ignores_order<V>(
    d1: Seq<Datapoint<V>>,
    f1: Seq<bool>,
    d2: Seq<Datapoint<V>>,
    f2: Seq<bool>,
    p: Seq<usize>,
    min: int,
)
    requires
        f1.len() == d1.len(),
        d2.len() == d1.len(),
        f2.len() == d1.len(),
        is_reordering(p, d1.len() as int),
        forall|i: int| 0 <= i < d2.len() ==> #[trigger] d2[i] == d1[p[i] as int] && f2[i] == f1[p[i] as int],
        forall|i: int, j: int| 0 <= i < j < d1.len() ==> d1[i].timestamp != d1[j].timestamp,
        d1.len() <= usize::MAX,
    ensures
        sorted_points(d1) == sorted_points(d2),
        sorted_flags(d1, f1) == sorted_flags(d2, f2),
        windows_of(sorted_points(d1), sorted_flags(d1, f1), min) == windows_of(sorted_points(d2), sorted_flags(d2, f2), min),
{
    let n = d1.len() as int;
    let k1 = timestamps_of(d1);
    let k2 = timestamps_of(d2);
    let o2 = time_order(k2);
    lemma_time_order_exists(k2);
    let o = Seq::new(n as nat, |k: int| p[o2[k] as int]);
    assert forall|k: int| 0 <= k < n implies (#[trigger] o[k]) < n && k1[o[k] as int] == k2[o2[k] as int] by {
        assert(o2[k] < n);
        assert(d2[o2[k] as int] == d1[p[o2[k] as int] as int]);
    }
    assert forall|j: int, k: int| 0 <= j < k < n implies precedes(k1, o[j] as int, o[k] as int) by {
        assert(precedes(k2, o2[j] as int, o2[k] as int));
        assert(k1[o[j] as int] == k2[o2[j] as int]);
        assert(k1[o[k] as int] == k2[o2[k] as int]);
        assert(o2[j] != o2[k]);
        assert(p[o2[j] as int] != p[o2[k] as int]);
        assert(k1[o[j] as int] != k1[o[k] as int]);
    }
    assert forall|x: usize| x < n implies #[trigger] o.contains(x) by {
        assert(p.contains(x));
        let i = choose|i: int| 0 <= i < p.len() && p[i] == x;
        assert((i as usize) < k2.len());
        assert(o2.contains(i as usize));
        let k = choose|k: int| 0 <= k < o2.len() && o2[k] == i as usize;
        assert(o[k] == x);
    }
    assert(is_stable_order(k1, o));
    lemma_time_order(k1, o);
    assert forall|k: int| 0 <= k < n implies #[trigger] sorted_points(d1)[k] == sorted_points(d2)[k]
        && sorted_flags(d1, f1)[k] == sorted_flags(d2, f2)[k] by {
        assert(d2[o2[k] as int] == d1[p[o2[k] as int] as int]);
    }
    assert(sorted_points(d1) =~= sorted_points(d2));
    assert(sorted_flags(d1, f1) =~= sorted_flags(d2, f2));
}

/// The first position of the run of true flags that holds position `q`.
pub open spec fn run_start(f: Seq<bool>, q: int) -> int
    decreases q,
{
    if 0 < q <= f.len() && f[q - 1] {
        run_start(f, q - 1)
    } else {
        q
    }
}

proof fn lemma_run_start(f: Seq<bool>, q: int)
    requires
        0 <= q < f.len(),
        f[q],
    ensures
        0 <= run_start(f, q) <= q,
        starts_run(f, run_start(f, q)),
        forall|m: int| run_start(f, q) <= m <= q ==> f[m],
        run_end(f, run_start(f, q)) == run_end(f, q),
    decreases q,
{
    if q > 0 && f[q - 1] {
        lemma_run_start(f, q - 1);
    }
}

proof fn lemma_qualifying_start_listed(f: Seq<bool>, min: int, n: int, p: int)
    requires
        0 <= p < n <= f.len(),
        qualifies(f, min, p),
    ensures
        exists|j: int| 0 <= j < qualifying_starts(f, min, n).len() && qualifying_starts(f, min, n)[j] == p,
    decreases n,
{
    let qs = qualifying_starts(f, min, n);
    if p == n - 1 {
        assert(qs[qs.len() - 1] == p);
    } else {
        lemma_qualifying_start_listed(f, min, n - 1, p);
        let prev = qualifying_starts(f, min, n - 1);
        let j = choose|j: int| 0 <= j < prev.len() && prev[j] == p;
        if qualifies(f, min, n - 1) {
            assert(qs == prev.push(n - 1));
            assert(qs[j] == p);
        } else {
            assert(qs == prev);
        }
    }
}

/// The idle windows are exactly the maximal runs of idle observations that hold
/// at least `min` of them: inside a window every observation is idle, the one just
/// before it and the one that ends it are not, and it holds at least `min` (and at
/// least one); and every idle observation whose run holds at least `min` lies in a
/// window.
pub proof fn lemma_windows_are_long_runs(f: Seq<bool>, min: int)
    ensures
        forall|j: int|
            0 <= j < qualifying_starts(f, min, f.len() as int).len() ==> {
                let p = #[trigger] qualifying_starts(f, min, f.len() as int)[j];
                let e = run_end(f, p);
                &&& 0 <= p < e <= f.len()
                &&& forall|q: int| p <= q < e ==> f[q]
                &&& p == 0 || !f[p - 1]
                &&& e == f.len() || !f[e]
                &&& e - p >= min
            },
        forall|q: int|
            0 <= q < f.len() && f[q] && run_end(f, q) - run_start(f, q) >= min ==> exists|j: int|
                0 <= j < qualifying_starts(f, min, f.len() as int).len() && #[trigger] qualifying_starts(f, min, f.len() as int)[j] <= q
                    < run_end(f, qualifying_starts(f, min, f.len() as int)[j]),
{
    let n = f.len() as int;
    let qs = qualifying_starts(f, min, n);
    lemma_qualifying_starts_props(f, min, n);
    assert forall|j: int| 0 <= j < qs.len() implies {
        let p = #[trigger] qs[j];
        let e = run_end(f, p);
        &&& 0 <= p < e <= f.len()
        &&& forall|q: int| p <= q < e ==> f[q]
        &&& p == 0 || !f[p - 1]
        &&& e == f.len() || !f[e]
        &&& e - p >= min
    } by {
        let p = qs[j];
        assert(qualifies(f, min, p));
        lemma_run_end_bounds(f, p);
        if p < f.len() && f[p] {
            lemma_run_end_bounds(f, p + 1);
        }
    }
    assert forall|q: int| 0 <= q < f.len() && f[q] && run_end(f, q) - run_start(f, q) >= min implies exists|j: int|
        0 <= j < qs.len() && #[trigger] qs[j] <= q < run_end(f, qs[j]) by {
        lemma_run_start(f, q);
        let s = run_start(f, q);
        lemma_run_end_bounds(f, q);
        assert(qualifies(f, min, s));
        lemma_qualifying_start_listed(f, min, n, s);
        let j = choose|j: int| 0 <= j < qs.len() && qs[j] == s;
        assert(qs[j] <= q < run_end(f, qs[j]));
    }
}

} // verus!
