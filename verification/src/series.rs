//! Time series of hourly (or finer) observations and their ordering by time.
use vstd::prelude::*;

use crate::time::{MAX_TIMESTAMP, MIN_TIMESTAMP, representable, hour_key, hour_floor, hour_number, start_of_hour};



verus! {

/// One observation of a metric at a UTC instant (seconds since the epoch).
/// The library never computes with `value`: it only moves it.
#[derive(Debug, Clone, Copy)]
pub struct Datapoint<V> {
    pub timestamp: i64,
    pub value: V,
}

/// The timestamps of a series, in series order.
pub open spec fn timestamps_of<V>(d: Seq<Datapoint<V>>) -> Seq<i64> {
    d.map_values(|p: Datapoint<V>| p.timestamp)
}

/// Position `a` comes before position `b` when the series is sorted by time,
/// points with equal timestamps keeping their order in the series.
pub open spec fn precedes(keys: Seq<i64>, a: int, b: int) -> bool {
    keys[a] < keys[b] || (keys[a] == keys[b] && a < b)
}

/// `order` lists every position of `keys` exactly once, by increasing key, positions
/// with equal keys in increasing position (a stable sort).
pub open spec fn is_stable_order(keys: Seq<i64>, order: Seq<usize>) -> bool {
    &&& order.len() == keys.len()
    &&& forall|k: int| 0 <= k < order.len() ==> (#[trigger] order[k]) < keys.len()
    &&& forall|j: int, k: int|
        0 <= j < k < order.len() ==> precedes(keys, order[j] as int, order[k] as int)
    &&& forall|i: usize| i < keys.len() ==> #[trigger] order.contains(i)
}

/// The same as `is_stable_order`, for the first `n` positions of `keys` only.
pub open spec fn is_stable_order_of_prefix(keys: Seq<i64>, order: Seq<usize>, n: int) -> bool {
    &&& order.len() == n
    &&& forall|k: int| 0 <= k < order.len() ==> (#[trigger] order[k]) < n
    &&& forall|j: int, k: int|
        0 <= j < k < order.len() ==> precedes(keys, order[j] as int, order[k] as int)
    &&& forall|i: usize| i < n ==> #[trigger] order.contains(i)
}

/// The stable ascending order of the positions of `keys` (there is exactly one:
/// see `lemma_stable_order_unique`).
pub open spec fn time_order(keys: Seq<i64>) -> Seq<usize> {
    choose|o: Seq<usize>| is_stable_order(keys, o)
}

/// A stable sort is determined by its keys: two orders that both list every
/// position once, by key and then by position, are the same order.
pub proof fn lemma_stable_order_unique(keys: Seq<i64>, o1: Seq<usize>, o2: Seq<usize>)
    requires
        is_stable_order(keys, o1),
        is_stable_order(keys, o2),
    ensures
        o1 == o2,
{
    assert forall|k: int| 0 <= k < o1.len() implies o1[k] == o2[k] by {
        lemma_orders_agree_up_to(keys, o1, o2, k);
    }
    assert(o1 =~= o2);
}

proof fn lemma_orders_agree_up_to(keys: Seq<i64>, o1: Seq<usize>, o2: Seq<usize>, k: int)
    requires
        is_stable_order(keys, o1),
        is_stable_order(keys, o2),
        0 <= k < o1.len(),
    ensures
        forall|j: int| 0 <= j <= k ==> o1[j] == o2[j],
    decreases k,
{
    if k > 0 {
        lemma_orders_agree_up_to(keys, o1, o2, k - 1);
    }
    let a = o1[k];
    let b = o2[k];
    if a != b {
        assert(o2.contains(a));
        let m = choose|m: int| 0 <= m < o2.len() && o2[m] == a;
        assert(o1.contains(b));
        let m2 = choose|m: int| 0 <= m < o1.len() && o1[m] == b;
        if m < k {
            assert(o1[m] == a);
            assert(precedes(keys, o1[m] as int, o1[k] as int));
        }
        if m2 < k {
            assert(o2[m2] == b);
            assert(precedes(keys, o2[m2] as int, o2[k] as int));
        }
        assert(precedes(keys, b as int, a as int));
        assert(precedes(keys, a as int, b as int));
    }
}

/// `time_order` is the stable order whenever one is known.
pub proof fn lemma_time_order(keys: Seq<i64>, o: Seq<usize>)
    requires
        is_stable_order(keys, o),
    ensures
        time_order(keys) == o,
{
    lemma_stable_order_unique(keys, o, time_order(keys));
}

/// The first position at or after `k` whose key in `o` exceeds `kn` (or the end).
spec fn insert_pos(keys: Seq<i64>, o: Seq<usize>, kn: i64, k: int) -> int
    decreases o.len() - k,
{
    if 0 <= k < o.len() && keys[o[k] as int] <= kn {
        insert_pos(keys, o, kn, k + 1)
    } else {
        k
    }
}

/// The stable order of the first `n` positions, built by insertion.
spec fn insertion_order(keys: Seq<i64>, n: int) -> Seq<usize>
    decreases n,
{
    if n <= 0 {
        Seq::empty()
    } else {
        let o = insertion_order(keys, n - 1);
        o.insert(insert_pos(keys, o, keys[n - 1], 0), (n - 1) as usize)
    }
}

proof fn lemma_insert_pos(keys: Seq<i64>, o: Seq<usize>, kn: i64, k: int)
    requires
        0 <= k <= o.len(),
    ensures
        k <= insert_pos(keys, o, kn, k) <= o.len(),
        forall|m: int| k <= m < insert_pos(keys, o, kn, k) ==> keys[#[trigger] o[m] as int] <= kn,
        insert_pos(keys, o, kn, k) < o.len() ==> keys[o[insert_pos(keys, o, kn, k)] as int] > kn,
    decreases o.len() - k,
{
    if k < o.len() && keys[o[k] as int] <= kn {
        lemma_insert_pos(keys, o, kn, k + 1);
    }
}

proof fn lemma_insertion_order(keys: Seq<i64>, n: int)
    requires
        0 <= n <= keys.len(),
        keys.len() <= usize::MAX,
    ensures
        is_stable_order_of_prefix(keys, insertion_order(keys, n), n),
    decreases n,
{
    if n > 0 {
        lemma_insertion_order(keys, n - 1);
        let old_order = insertion_order(keys, n - 1);
        let i = (n - 1) as usize;
        let ki = keys[n - 1];
        let p = insert_pos(keys, old_order, ki, 0);
        lemma_insert_pos(keys, old_order, ki, 0);
        let o = insertion_order(keys, n);
        assert(o == old_order.insert(p, i));
        assert forall|k: int| p <= k < old_order.len() implies keys[#[trigger] old_order[k] as int] > ki by {
            assert(keys[old_order[p] as int] > ki);
            if k > p {
                assert(precedes(keys, old_order[p] as int, old_order[k] as int));
            }
        }
        assert forall|j: int, k: int| 0 <= j < k < o.len() implies precedes(keys, o[j] as int, o[k] as int) by {
            if k < p {
                assert(o[j] == old_order[j] && o[k] == old_order[k]);
            } else if k == p {
                assert(o[j] == old_order[j]);
                assert(keys[old_order[j] as int] <= ki);
                assert(old_order[j] < i);
            } else if j < p {
                assert(o[j] == old_order[j] && o[k] == old_order[k - 1]);
                assert(precedes(keys, old_order[j] as int, old_order[k - 1] as int));
            } else if j == p {
                assert(o[k] == old_order[k - 1]);
                assert(keys[old_order[k - 1] as int] > ki);
            } else {
                assert(o[j] == old_order[j - 1] && o[k] == old_order[k - 1]);
                assert(precedes(keys, old_order[j - 1] as int, old_order[k - 1] as int));
            }
        }
        assert forall|m: usize| m < n implies #[trigger] o.contains(m) by {
            if m == i {
                assert(o[p] == i);
            } else {
                assert(old_order.contains(m));
                let w = choose|w: int| 0 <= w < old_order.len() && old_order[w] == m;
                if w < p {
                    assert(o[w] == m);
                } else {
                    assert(o[w + 1] == m);
                }
            }
        }
        assert forall|k: int| 0 <= k < o.len() implies (#[trigger] o[k]) < n by {
            if k < p {
                assert(o[k] == old_order[k]);
            } else if k > p {
                assert(o[k] == old_order[k - 1]);
            }
        }
    }
}

/// Every sequence of keys that a slice can hold has a stable order, and
/// `time_order` is it.
pub proof fn lemma_time_order_exists(keys: Seq<i64>)
    requires
        keys.len() <= usize::MAX,
    ensures
        is_stable_order(keys, time_order(keys)),
{
    lemma_insertion_order(keys, keys.len() as int);
    lemma_time_order(keys, insertion_order(keys, keys.len() as int));
}

/// The positions of `keys` in stable ascending order of key.
pub fn stable_order(keys: &Vec<i64>) -> (order: Vec<usize>)
    ensures
        is_stable_order(keys@, order@),
{
    let n = keys.len();
    let mut order: Vec<usize> = Vec::new();
    let mut i: usize = 0;
    while i < n
        invariant
            n == keys@.len(),
            i <= n,
            order@ == insertion_order(keys@, i as int),
        decreases n - i,
    {
        let ki = keys[i];
        proof {
            lemma_insertion_order(keys@, i as int);
        }
        let mut p: usize = 0;
        while p < order.len() && keys[order[p]] <= ki
            invariant
                n == keys@.len(),
                i < n,
                ki == keys@[i as int],
                order@ == insertion_order(keys@, i as int),
                is_stable_order_of_prefix(keys@, order@, i as int),
                p <= order@.len(),
                insert_pos(keys@, order@, ki, 0) == insert_pos(keys@, order@, ki, p as int),
            decreases order@.len() - p,
        {
            p = p + 1;
        }
        order.insert(p, i);
        i = i + 1;
    }
    proof {
        lemma_insertion_order(keys@, n as int);
    }
    order
}

/// The timestamps of a slice of datapoints, in order.
pub fn timestamps<V>(datapoints: &[Datapoint<V>]) -> (ts: Vec<i64>)
    ensures
        ts@ == timestamps_of(datapoints@),
{
    let mut ts: Vec<i64> = Vec::new();
    let mut i: usize = 0;
    while i < datapoints.len()
        invariant
            i <= datapoints@.len(),
            ts@ == timestamps_of(datapoints@.take(i as int)),
        decreases datapoints@.len() - i,
    {
        ts.push(datapoints[i].timestamp);
        assert(timestamps_of(datapoints@.take(i + 1)) == timestamps_of(datapoints@.take(i as int)).push(datapoints@[i as int].timestamp));
        i = i + 1;
    }
    assert(datapoints@.take(datapoints@.len() as int) == datapoints@);
    ts
}

} // verus!

verus! {

/// The value of the last point of `d` whose timestamp lies in hour `key`
/// (`hour_key`), or `fill` when there is none: what a map from hour to value
/// built from `d` in order holds for `key`.
pub open spec fn latest_value<V>(d: Seq<Datapoint<V>>, key: int, fill: V) -> V
    decreases d.len(),
{
    if d.len() == 0 {
        fill
    } else if hour_key(d.last().timestamp as int) == key {
        d.last().value
    } else {
        latest_value(d.drop_last(), key, fill)
    }
}

/// The map from hour number (`hour_key`) to value that `d` builds when its points
/// are inserted in order: a later point of the same hour replaces an earlier one.
pub open spec fn hour_map<V>(d: Seq<Datapoint<V>>) -> Map<i64, V>
    decreases d.len(),
{
    if d.len() == 0 {
        Map::empty()
    } else {
        hour_map(d.drop_last()).insert(hour_key(d.last().timestamp as int) as i64, d.last().value)
    }
}

proof fn lemma_hour_map<V>(d: Seq<Datapoint<V>>, key: i64, fill: V)
    ensures
        (if hour_map(d).contains_key(key) { hour_map(d)[key] } else { fill }) == latest_value(d, key as int, fill),
    decreases d.len(),
{
    if d.len() > 0 {
        lemma_hour_map(d.drop_last(), key, fill);
        let t = d.last().timestamp as int;
        assert(hour_key(t) == (hour_key(t) as i64) as int);
    }
}

/// The hour map of `datapoints` (see `hour_map`).
pub(crate) fn hour_values<V: Copy>(datapoints: &[Datapoint<V>]) -> (m: std::collections::HashMap<i64, V>)
    ensures
        m@ == hour_map(datapoints@),
{
    broadcast use vstd::std_specs::hash::group_hash_axioms;
    let mut m: std::collections::HashMap<i64, V> = std::collections::HashMap::new();
    let mut i: usize = 0;
    while i < datapoints.len()
        invariant
            i <= datapoints@.len(),
            m@ == hour_map(datapoints@.take(i as int)),
        decreases datapoints@.len() - i,
    {
        assert(datapoints@.take(i + 1).drop_last() =~= datapoints@.take(i as int));
        m.insert(hour_number(datapoints[i].timestamp), datapoints[i].value);
        i = i + 1;
    }
    assert(datapoints@.take(datapoints@.len() as int) =~= datapoints@);
    m
}

/// The value that the last point of `d` in hour `key` holds, or `fill`, looked up
/// in the hour map of `d`.
pub(crate) fn value_at_hour<V: Copy>(m: &std::collections::HashMap<i64, V>, key: i64, fill: V, d: Ghost<Seq<Datapoint<V>>>) -> (v: V)
    requires
        m@ == hour_map(d@),
    ensures
        v == latest_value(d@, key as int, fill),
{
    broadcast use vstd::std_specs::hash::group_hash_axioms;
    proof {
        lemma_hour_map(d@, key, fill);
    }
    match m.get(&key) {
        Some(v) => *v,
        None => fill,
    }
}

/// Number of whole hours from `first` (an hour start) that begin before `end`.
pub open spec fn grid_len(first: int, end: int) -> int {
    if end <= first {
        0
    } else {
        (end - first + 3599) / 3600
    }
}

/// One point for each hour, in order, an hour apart, from a representable instant,
/// with the hour after the last point representable too: what `fill_full_window`
/// builds.
pub open spec fn hourly_grid<V>(s: Seq<Datapoint<V>>) -> bool {
    &&& forall|k: int| 0 <= k < s.len() ==> #[trigger] s[k].timestamp == s[0].timestamp + 3600 * k
    &&& s.len() > 0 ==> representable(s[0].timestamp as int) && s[0].timestamp + 3600 * s.len()
        <= MAX_TIMESTAMP
}

/// What `fill_full_window` asks of its input: instants a UTC date-time can hold,
/// and room for the hour that follows the last hour of the grid.
pub open spec fn fill_input_ok(start: int, end: int) -> bool {
    &&& representable(start)
    &&& hour_floor(start) + 3600 * grid_len(hour_floor(start), end) <= MAX_TIMESTAMP
}

/// One point for every hour from the start of the hour of `start` up to (but not
/// including) `end`, in order. Each point takes the value of the last datapoint
/// in the same hour (hours numbered as `hour_key`), and `fill` when no datapoint
/// falls in it: a missing hour means the metric was zero.
pub fn fill_full_window<V: Copy>(datapoints: &[Datapoint<V>], start: i64, end: i64, fill: V) -> (r: Vec<Datapoint<V>>)
    requires
        fill_input_ok(start as int, end as int),
    ensures
        r@.len() == grid_len(hour_floor(start as int), end as int),
        forall|k: int| 0 <= k < r@.len() ==> (#[trigger] r@[k]).timestamp == hour_floor(start as int) + 3600 * k,
        forall|k: int| 0 <= k < r@.len() ==> (#[trigger] r@[k]).value == latest_value(datapoints@, hour_key(hour_floor(start as int) + 3600 * k), fill),
        hourly_grid(r@),
{
    let first = start_of_hour(start);
    let data_map = hour_values(datapoints);
    let ghost n = grid_len(first as int, end as int);
    let mut r: Vec<Datapoint<V>> = Vec::new();
    let mut t = first;
    while t < end
        invariant
            data_map@ == hour_map(datapoints@),
            first == hour_floor(start as int),
            n == grid_len(first as int, end as int),
            first + 3600 * n <= MAX_TIMESTAMP,
            t == first + 3600 * r@.len(),
            r@.len() <= n,
            r@.len() < n <==> t < end,
            forall|k: int| 0 <= k < r@.len() ==> (#[trigger] r@[k]).timestamp == first + 3600 * k,
            forall|k: int| 0 <= k < r@.len() ==> (#[trigger] r@[k]).value == latest_value(datapoints@, hour_key(first + 3600 * k), fill),
        decreases n - r@.len(),
    {
        let key = hour_number(t);
        let v = value_at_hour(&data_map, key, fill, Ghost(datapoints@));
        r.push(Datapoint { timestamp: t, value: v });
        proof {
            let m = r@.len() as int;
            assert((end - first + 3599) / 3600 > m - 1);
            assert(m < n <==> first + 3600 * m < end) by {
                assert(n == (end - first + 3599) / 3600);
                if first + 3600 * m < end {
                    assert((end - first + 3599) / 3600 >= m + 1) by (nonlinear_arith)
                        requires first + 3600 * m < end, m >= 0;
                } else {
                    assert((end - first + 3599) / 3600 <= m) by (nonlinear_arith)
                        requires first + 3600 * m >= end, m >= 0;
                }
            }
        }
        t = t + 3600;
    }
    proof {
        if r@.len() > 0 {
            assert(r@[0].timestamp == first);
            assert(first >= MIN_TIMESTAMP) by {
                assert(MIN_TIMESTAMP % 3600 == 0);
            }
        }
    }
    r
}

} // verus!

verus! {

/// The observations that fall in one clock hour.
pub struct HourGroup {
    /// Start of the hour.
    pub hour_start: i64,
    /// Positions of the observations in that hour, ascending.
    pub members: Vec<usize>,
}

/// Positions below `n` whose instant lies in the hour that starts at `h`, ascending.
pub open spec fn positions_in_hour(ts: Seq<i64>, h: int, n: int) -> Seq<usize>
    decreases n,
{
    if n <= 0 {
        Seq::empty()
    } else if hour_floor(ts[n - 1] as int) == h {
        positions_in_hour(ts, h, n - 1).push((n - 1) as usize)
    } else {
        positions_in_hour(ts, h, n - 1)
    }
}

/// Every instant can be held by a UTC date-time.
pub open spec fn all_representable(ts: Seq<i64>) -> bool {
    forall|i: int| 0 <= i < ts.len() ==> representable(#[trigger] ts[i] as int)
}

/// The start of the hour of each instant.
pub open spec fn hour_floors(ts: Seq<i64>) -> Seq<i64> {
    ts.map_values(|t: i64| hour_floor(t as int) as i64)
}

/// The hour starts of the groups.
pub open spec fn group_starts(g: Seq<HourGroup>) -> Seq<i64> {
    g.map_values(|x: HourGroup| x.hour_start)
}

fn hour_starts(ts: &Vec<i64>) -> (f: Vec<i64>)
    requires
        all_representable(ts@),
    ensures
        f@.len() == ts@.len(),
        forall|i: int| 0 <= i < ts@.len() ==> #[trigger] f@[i] == hour_floor(ts@[i] as int),
{
    let mut f: Vec<i64> = Vec::new();
    let mut i: usize = 0;
    while i < ts.len()
        invariant
            all_representable(ts@),
            i <= ts@.len(),
            f@.len() == i,
            forall|k: int| 0 <= k < i ==> #[trigger] f@[k] == hour_floor(ts@[k] as int),
        decreases ts@.len() - i,
    {
        f.push(start_of_hour(ts[i]));
        i = i + 1;
    }
    f
}

fn positions_in(ts: &Vec<i64>, starts: &Vec<i64>, h: i64) -> (m: Vec<usize>)
    requires
        all_representable(ts@),
        starts@ == hour_floors(ts@),
    ensures
        m@ == positions_in_hour(ts@, h as int, ts@.len() as int),
{
    let mut m: Vec<usize> = Vec::new();
    let mut i: usize = 0;
    assert forall|k: int| 0 <= k < ts@.len() implies #[trigger] starts@[k] == hour_floor(ts@[k] as int) by {
        assert(representable(ts@[k] as int));
    }
    while i < starts.len()
        invariant
            starts@.len() == ts@.len(),
            forall|k: int| 0 <= k < ts@.len() ==> #[trigger] starts@[k] == hour_floor(ts@[k] as int),
            i <= ts@.len(),
            m@ == positions_in_hour(ts@, h as int, i as int),
        decreases ts@.len() - i,
    {
        if starts[i] == h {
            m.push(i);
        }
        i = i + 1;
    }
    m
}

/// `x` is one of the values of `v`.
pub open spec fn occurs_in(x: i64, v: Seq<i64>) -> bool {
    exists|i: int| 0 <= i < v.len() && v[i] == x
}

/// The distinct values of `v`, ascending.
pub fn distinct_ascending(v: &Vec<i64>) -> (keys: Vec<i64>)
    ensures
        forall|a: int, b: int| 0 <= a < b < keys@.len() ==> keys@[a] < keys@[b],
        forall|a: int| 0 <= a < keys@.len() ==> occurs_in(#[trigger] keys@[a], v@),
        forall|i: int| 0 <= i < v@.len() ==> occurs_in(#[trigger] v@[i], keys@),
{
    let order = stable_order(v);
    let n = order.len();
    let mut keys: Vec<i64> = Vec::new();
    let mut k: usize = 0;
    while k < n
        invariant
            n == order@.len(),
            n == v@.len(),
            is_stable_order(v@, order@),
            k <= n,
            forall|a: int, b: int| 0 <= a < b < keys@.len() ==> keys@[a] < keys@[b],
            k > 0 ==> keys@.len() > 0 && keys@.last() == v@[order@[k - 1] as int],
            k == 0 ==> keys@.len() == 0,
            forall|a: int| 0 <= a < keys@.len() ==> occurs_in(#[trigger] keys@[a], v@),
            forall|q: int| 0 <= q < k ==> occurs_in(#[trigger] v@[order@[q] as int], keys@),
        decreases n - k,
    {
        let key = v[order[k]];
        if k > 0 {
            assert(precedes(v@, order@[k - 1] as int, order@[k as int] as int));
        }
        if keys.len() == 0 || keys[keys.len() - 1] != key {
            let ghost old_keys = keys@;
            keys.push(key);
            proof {
                assert forall|q: int| 0 <= q < k + 1 implies occurs_in(#[trigger] v@[order@[q] as int], keys@) by {
                    if q < k {
                        assert(occurs_in(v@[order@[q] as int], old_keys));
                        let a = choose|a: int| 0 <= a < old_keys.len() && old_keys[a] == v@[order@[q] as int];
                        assert(keys@[a] == old_keys[a]);
                    } else {
                        assert(keys@[keys@.len() - 1] == key);
                    }
                }
                assert forall|a: int| 0 <= a < keys@.len() implies occurs_in(#[trigger] keys@[a], v@) by {
                    if a < old_keys.len() {
                        assert(keys@[a] == old_keys[a]);
                        assert(occurs_in(old_keys[a], v@));
                    } else {
                        assert(keys@[a] == v@[order@[k as int] as int]);
                    }
                }
            }
        } else {
            proof {
                assert forall|q: int| 0 <= q < k + 1 implies occurs_in(#[trigger] v@[order@[q] as int], keys@) by {
                    if q == k {
                        assert(v@[order@[q] as int] == keys@[keys@.len() - 1]);
                    }
                }
            }
        }
        k = k + 1;
    }
    proof {
        assert forall|i: int| 0 <= i < v@.len() implies occurs_in(#[trigger] v@[i], keys@) by {
            assert(order@.contains(i as usize));
            let q = choose|q: int| 0 <= q < order@.len() && order@[q] == i as usize;
            assert(occurs_in(v@[order@[q] as int], keys@));
        }
    }
    keys
}

/// Groups the instants `ts` by clock hour (hours as divided by 3600 rounding down),
/// in ascending order of hour, with the positions of each hour's observations in
/// series order: the buckets into which finer readings are summed or averaged.
pub fn hourly_groups(ts: &Vec<i64>) -> (g: Vec<HourGroup>)
    requires
        all_representable(ts@),
    ensures
        forall|j: int, k: int| 0 <= j < k < g@.len() ==> g@[j].hour_start < g@[k].hour_start,
        forall|j: int| 0 <= j < g@.len() ==> (#[trigger] g@[j]).members@ == positions_in_hour(ts@, g@[j].hour_start as int, ts@.len() as int),
        forall|j: int| 0 <= j < g@.len() ==> occurs_in((#[trigger] g@[j]).hour_start, hour_floors(ts@)),
        forall|i: int| 0 <= i < ts@.len() ==> occurs_in(#[trigger] hour_floors(ts@)[i], group_starts(g@)),
{
    let starts = hour_starts(ts);
    assert(starts@ =~= hour_floors(ts@));
    let keys = distinct_ascending(&starts);
    let mut g: Vec<HourGroup> = Vec::new();
    let mut j: usize = 0;
    while j < keys.len()
        invariant
            all_representable(ts@),
            starts@ == hour_floors(ts@),
            j <= keys@.len(),
            g@.len() == j,
            forall|a: int| 0 <= a < j ==> (#[trigger] g@[a]).hour_start == keys@[a],
            forall|a: int| 0 <= a < j ==> (#[trigger] g@[a]).members@ == positions_in_hour(ts@, g@[a].hour_start as int, ts@.len() as int),
        decreases keys@.len() - j,
    {
        let h = keys[j];
        let m = positions_in(ts, &starts, h);
        g.push(HourGroup { hour_start: h, members: m });
        j = j + 1;
    }
    proof {
        assert(group_starts(g@) =~= keys@);
    }
    g
}

} // verus!
