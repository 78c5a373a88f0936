//! What the idle hours of a resource have in common: nights, weekends, or a held
//! connection pool; and the connection floor of a database.
use vstd::prelude::*;

use crate::idle::IdleWindow;
use crate::series::{Datapoint, latest_value, hour_map, hour_values, value_at_hour};
use crate::time::{
    MAX_TIMESTAMP, representable, is_night_at, is_weekend_at, hour_key, is_night, is_weekend,
    hour_number,
};

verus! {

/// Idle hours counted over the windows `ws[0..m]`, as (all, at night, at weekends):
/// hour `h` of a window is the hour that begins `h` hours after its start.
pub open spec fn pattern_counts(ws: Seq<IdleWindow>, m: int) -> (int, int, int)
    decreases m,
{
    if m <= 0 {
        (0, 0, 0)
    } else {
        let prev = pattern_counts(ws, m - 1);
        let w = ws[m - 1];
        (
            prev.0 + w.duration_hours,
            prev.1 + night_hours(w.start as int, w.duration_hours as int),
            prev.2 + weekend_hours(w.start as int, w.duration_hours as int),
        )
    }
}

/// Of the `n` hours that begin at `start`, `start + 3600`, ..., those at night.
pub open spec fn night_hours(start: int, n: int) -> int
    decreases n,
{
    if n <= 0 {
        0
    } else {
        night_hours(start, n - 1) + if is_night_at(start + 3600 * (n - 1)) { 1int } else { 0int }
    }
}

/// Of the `n` hours that begin at `start`, `start + 3600`, ..., those on a weekend.
pub open spec fn weekend_hours(start: int, n: int) -> int
    decreases n,
{
    if n <= 0 {
        0
    } else {
        weekend_hours(start, n - 1) + if is_weekend_at(start + 3600 * (n - 1)) { 1int } else { 0int }
    }
}

/// Total of the durations of `ws[0..m]`.
pub open spec fn total_hours(ws: Seq<IdleWindow>, m: int) -> int
    decreases m,
{
    if m <= 0 {
        0
    } else {
        total_hours(ws, m - 1) + ws[m - 1].duration_hours
    }
}

/// At least 60 % (`part / whole >= 0.60`, with `whole > 0`).
pub open spec fn at_least_60_percent(part: int, whole: int) -> bool {
    5 * part >= 3 * whole
}

/// The idle pattern of the windows: "nights + weekends", "nights" or "weekends"
/// when at least 60 % of the idle hours fall at night (18:00 to 08:00 UTC) and/or
/// on weekend days, and no pattern otherwise or when there are no idle hours.
pub open spec fn pattern_of(ws: Seq<IdleWindow>) -> Option<Seq<char>> {
    let c = pattern_counts(ws, ws.len() as int);
    if ws.len() == 0 || c.0 == 0 {
        None
    } else {
        let nights = at_least_60_percent(c.1, c.0);
        let weekends = at_least_60_percent(c.2, c.0);
        if nights && weekends {
            Some("nights + weekends"@)
        } else if nights {
            Some("nights"@)
        } else if weekends {
            Some("weekends"@)
        } else {
            None
        }
    }
}

/// What `infer_pattern` asks of the windows: each starts at a representable instant
/// and the hour after its last hour is representable too, and the idle hours add up
/// to less than 2^50 (below which the 60 % test on whole hours is exactly the test
/// on the ratio in double precision).
pub open spec fn pattern_input_ok(ws: Seq<IdleWindow>) -> bool {
    &&& forall|i: int|
        0 <= i < ws.len() ==> representable((#[trigger] ws[i]).start as int) && ws[i].start + 3600
            * ws[i].duration_hours <= MAX_TIMESTAMP
    &&& total_hours(ws, ws.len() as int) < 0x4_0000_0000_0000
}

proof fn lemma_hour_counts_bounded(start: int, n: int)
    requires
        n >= 0,
    ensures
        0 <= night_hours(start, n) <= n,
        0 <= weekend_hours(start, n) <= n,
    decreases n,
{
    if n > 0 {
        lemma_hour_counts_bounded(start, n - 1);
    }
}

proof fn lemma_pattern_counts_bounded(ws: Seq<IdleWindow>, m: int)
    requires
        0 <= m <= ws.len(),
    ensures
        pattern_counts(ws, m).0 == total_hours(ws, m),
        0 <= pattern_counts(ws, m).1 <= pattern_counts(ws, m).0,
        0 <= pattern_counts(ws, m).2 <= pattern_counts(ws, m).0,
        total_hours(ws, m) <= total_hours(ws, ws.len() as int),
    decreases m,
{
    if m > 0 {
        lemma_pattern_counts_bounded(ws, m - 1);
        let w = ws[m - 1];
        lemma_hour_counts_bounded(w.start as int, w.duration_hours as int);
    }
    lemma_total_mono(ws, m, ws.len() as int);
}

proof fn lemma_total_mono(ws: Seq<IdleWindow>, m: int, k: int)
    requires
        0 <= m <= k <= ws.len(),
    ensures
        total_hours(ws, m) <= total_hours(ws, k),
    decreases k - m,
{
    if m < k {
        lemma_total_mono(ws, m, k - 1);
    }
}

/// Infers the idle pattern of a resource from its idle windows (see `pattern_of`).
pub fn infer_pattern(windows: &[IdleWindow]) -> (p: Option<String>)
    requires
        pattern_input_ok(windows@),
    ensures
        match pattern_of(windows@) {
            None => p.is_none(),
            Some(s) => p matches Some(t) && t@ == s,
        },
{
    if windows.len() == 0 {
        return None;
    }
    let ghost ws = windows@;
    let mut night: u64 = 0;
    let mut weekend: u64 = 0;
    let mut total: u64 = 0;
    let mut i: usize = 0;
    while i < windows.len()
        invariant
            ws == windows@,
            pattern_input_ok(ws),
            i <= ws.len(),
            (total as int, night as int, weekend as int) == pattern_counts(ws, i as int),
        decreases ws.len() - i,
    {
        let w = &windows[i];
        let n = w.duration_hours;
        let mut cursor = w.start;
        let mut h: u64 = 0;
        proof {
            lemma_pattern_counts_bounded(ws, i + 1);
            lemma_pattern_counts_bounded(ws, i as int);
            lemma_hour_counts_bounded(w.start as int, n as int);
        }
        while h < n
            invariant
                ws == windows@,
                pattern_input_ok(ws),
                i < ws.len(),
                *w == ws[i as int],
                n == w.duration_hours,
                h <= n,
                cursor == w.start + 3600 * h,
                pattern_counts(ws, i as int + 1).0 < 0x4_0000_0000_0000,
                total as int == pattern_counts(ws, i as int).0 + h,
                night as int == pattern_counts(ws, i as int).1 + night_hours(w.start as int, h as int),
                weekend as int == pattern_counts(ws, i as int).2 + weekend_hours(w.start as int, h as int),
                0 <= night_hours(w.start as int, h as int) <= h,
                0 <= weekend_hours(w.start as int, h as int) <= h,
                pattern_counts(ws, i as int).1 <= pattern_counts(ws, i as int).0,
                pattern_counts(ws, i as int).2 <= pattern_counts(ws, i as int).0,
            decreases n - h,
        {
            assert(w.start + 3600 * (h + 1) <= w.start + 3600 * n) by (nonlinear_arith)
                requires h + 1 <= n;
            total = total + 1;
            if is_night(cursor) {
                night = night + 1;
            }
            if is_weekend(cursor) {
                weekend = weekend + 1;
            }
            cursor = cursor + 3600;
            h = h + 1;
        }
        i = i + 1;
    }
    proof {
        lemma_pattern_counts_bounded(ws, ws.len() as int);
    }
    if total == 0 {
        return None;
    }
    let nights = 5 * night >= 3 * total;
    let weekends = 5 * weekend >= 3 * total;
    if nights && weekends {
        Some(String::from_str("nights + weekends"))
    } else if nights {
        Some(String::from_str("nights"))
    } else if weekends {
        Some(String::from_str("weekends"))
    } else {
        None
    }
}

/// Counting hours by their clock: the night hours and the weekend hours of `a + b`
/// consecutive hours from `start` are those of the first `a` hours plus those of
/// the `b` hours that follow; one hour counts when it itself falls at night, or on
/// a Saturday or Sunday.
pub proof fn lemma_hour_counts_add(start: int, a: int, b: int)
    requires
        a >= 0,
        b >= 0,
    ensures
        night_hours(start, a + b) == night_hours(start, a) + night_hours(start + 3600 * a, b),
        weekend_hours(start, a + b) == weekend_hours(start, a) + weekend_hours(start + 3600 * a, b),
        night_hours(start, 1) == (if is_night_at(start) { 1int } else { 0int }),
        weekend_hours(start, 1) == (if is_weekend_at(start) { 1int } else { 0int }),
    decreases b,
{
    reveal_with_fuel(night_hours, 2);
    reveal_with_fuel(weekend_hours, 2);
    assert(start + 3600 * 0 == start);
    if b > 0 {
        lemma_hour_counts_add(start, a, b - 1);
        assert(start + 3600 * (a + b - 1) == start + 3600 * a + 3600 * (b - 1));
    }
}

/// The offsets `k` in `0..n` whose hour `start + 3600 * k` falls on a Saturday or
/// Sunday.
pub open spec fn weekend_offsets(start: int, n: int) -> Set<int> {
    Set::new(|k: int| 0 <= k < n && is_weekend_at(start + 3600 * k))
}

/// The offsets `k` in `0..n` whose hour `start + 3600 * k` falls at night.
pub open spec fn night_offsets(start: int, n: int) -> Set<int> {
    Set::new(|k: int| 0 <= k < n && is_night_at(start + 3600 * k))
}

/// Every hour is looked at by its own clock: of the `n` hours from `start`, the
/// weekend count is the number of hours `start + 3600 * k` (`0 <= k < n`) that fall
/// on a Saturday or Sunday, and the night count the number that fall at night.
pub proof fn lemma_hour_counts_are_counts(start: int, n: int)
    requires
        n >= 0,
    ensures
        weekend_offsets(start, n).finite(),
        night_offsets(start, n).finite(),
        weekend_hours(start, n) == weekend_offsets(start, n).len(),
        night_hours(start, n) == night_offsets(start, n).len(),
    decreases n,
{
    if n == 0 {
        assert(weekend_offsets(start, 0) =~= Set::<int>::empty());
        assert(night_offsets(start, 0) =~= Set::<int>::empty());
    } else {
        lemma_hour_counts_are_counts(start, n - 1);
        let k = n - 1;
        assert(!weekend_offsets(start, n - 1).contains(k));
        assert(!night_offsets(start, n - 1).contains(k));
        if is_weekend_at(start + 3600 * k) {
            assert(weekend_offsets(start, n) =~= weekend_offsets(start, n - 1).insert(k));
        } else {
            assert(weekend_offsets(start, n) =~= weekend_offsets(start, n - 1));
        }
        if is_night_at(start + 3600 * k) {
            assert(night_offsets(start, n) =~= night_offsets(start, n - 1).insert(k));
        } else {
            assert(night_offsets(start, n) =~= night_offsets(start, n - 1));
        }
    }
}

/// The 60 % rule: of the idle hours of the windows, if at least 60 % fall at night
/// and at least 60 % on a weekend the pattern is "nights + weekends"; if only the
/// night hours reach 60 % it is "nights", if only the weekend hours do it is
/// "weekends"; if neither does, or there are no idle hours, there is none.
pub proof fn lemma_pattern_rule(ws: Seq<IdleWindow>)
    ensures
        ({
            let c = pattern_counts(ws, ws.len() as int);
            let total = c.0;
            let nights = 100 * c.1 >= 60 * total;
            let weekends = 100 * c.2 >= 60 * total;
            &&& total == 0 ==> pattern_of(ws) is None
            &&& total > 0 && nights && weekends ==> pattern_of(ws) == Some("nights + weekends"@)
            &&& total > 0 && nights && !weekends ==> pattern_of(ws) == Some("nights"@)
            &&& total > 0 && !nights && weekends ==> pattern_of(ws) == Some("weekends"@)
            &&& total > 0 && !nights && !weekends ==> pattern_of(ws) is None
        }),
{
}

/// The counts of a list of windows are the sums of the counts of its parts: all
/// idle hours, night hours and weekend hours of `a + b` are those of `a` plus those
/// of `b`.
pub proof fn lemma_pattern_counts_add(a: Seq<IdleWindow>, b: Seq<IdleWindow>)
    ensures
        ({
            let ab = pattern_counts(a + b, (a.len() + b.len()) as int);
            let ca = pattern_counts(a, a.len() as int);
            let cb = pattern_counts(b, b.len() as int);
            ab == (ca.0 + cb.0, ca.1 + cb.1, ca.2 + cb.2)
        }),
    decreases b.len(),
{
    if b.len() == 0 {
        assert(a + b =~= a);
    } else {
        let b1 = b.drop_last();
        lemma_pattern_counts_add(a, b1);
        lemma_pattern_counts_prefix(a + b, a + b1, (a.len() + b1.len()) as int);
        lemma_pattern_counts_prefix(b, b1, b1.len() as int);
        assert((a + b)[a.len() + b.len() - 1] == b[b.len() - 1]);
    }
}

proof fn lemma_pattern_counts_prefix(s: Seq<IdleWindow>, t: Seq<IdleWindow>, m: int)
    requires
        0 <= m <= s.len(),
        m <= t.len(),
        forall|i: int| 0 <= i < m ==> s[i] == t[i],
    ensures
        pattern_counts(s, m) == pattern_counts(t, m),
    decreases m,
{
    if m > 0 {
        lemma_pattern_counts_prefix(s, t, m - 1);
    }
}

/// The pattern depends on the idle hours, not on how they are cut into windows:
/// one window and the same hours cut into two consecutive windows have the same
/// pattern.
pub proof fn lemma_pattern_ignores_cuts(w: IdleWindow, w1: IdleWindow, w2: IdleWindow)
    requires
        w1.start == w.start,
        w1.duration_hours + w2.duration_hours == w.duration_hours,
        w2.start == w.start + 3600 * w1.duration_hours,
    ensures
        pattern_of(seq![w]) == pattern_of(seq![w1, w2]),
{
    lemma_hour_counts_add(w.start as int, w1.duration_hours as int, w2.duration_hours as int);
    let one = seq![w];
    let two = seq![w1, w2];
    reveal_with_fuel(pattern_counts, 3);
    assert(one[0] == w);
    assert(two[0] == w1 && two[1] == w2);
    assert(pattern_counts(one, 1) == (
        w.duration_hours as int,
        night_hours(w.start as int, w.duration_hours as int),
        weekend_hours(w.start as int, w.duration_hours as int),
    ));
    assert(pattern_counts(two, 1) == (
        w1.duration_hours as int,
        night_hours(w1.start as int, w1.duration_hours as int),
        weekend_hours(w1.start as int, w1.duration_hours as int),
    ));
    assert(pattern_counts(two, 2).0 == pattern_counts(one, 1).0);
    assert(pattern_counts(two, 2).1 == pattern_counts(one, 1).1);
    assert(pattern_counts(two, 2).2 == pattern_counts(one, 1).2);
}

} // verus!

verus! {

/// Of the `n` hours that begin at `start`, `start + 3600`, ..., those in which the
/// last connection reading of the hour saw a connection open.
pub open spec fn pooled_hours(start: int, n: int, conns: Seq<Datapoint<bool>>) -> int
    decreases n,
{
    if n <= 0 {
        0
    } else {
        pooled_hours(start, n - 1, conns) + if latest_value(
            conns,
            hour_key(start + 3600 * (n - 1)),
            false,
        ) {
            1int
        } else {
            0int
        }
    }
}

/// Pooled idle hours over the windows `ws[0..m]`.
pub open spec fn pooled_total(ws: Seq<IdleWindow>, conns: Seq<Datapoint<bool>>, m: int) -> int
    decreases m,
{
    if m <= 0 {
        0
    } else {
        pooled_total(ws, conns, m - 1) + pooled_hours(
            ws[m - 1].start as int,
            ws[m - 1].duration_hours as int,
            conns,
        )
    }
}

/// "pool-only" when more idle hours had a connection pool open than not,
/// "confirmed" otherwise, and nothing when there are no idle windows.
pub open spec fn classification_of(ws: Seq<IdleWindow>, conns: Seq<Datapoint<bool>>) -> Option<Seq<char>> {
    if ws.len() == 0 {
        None
    } else {
        let pooled = pooled_total(ws, conns, ws.len() as int);
        let confirmed = total_hours(ws, ws.len() as int) - pooled;
        if pooled > confirmed {
            Some("pool-only"@)
        } else {
            Some("confirmed"@)
        }
    }
}

/// What `rds_idle_classification` asks of its input: every hour it looks at begins
/// at a representable instant, and the idle hours with and without a connection
/// each number at most `u32::MAX` (they are counted in `u32`).
pub open spec fn classification_input_ok(ws: Seq<IdleWindow>, conns: Seq<Datapoint<bool>>) -> bool {
    &&& forall|i: int|
        0 <= i < ws.len() ==> representable((#[trigger] ws[i]).start as int) && (ws[i].duration_hours
            == 0 || ws[i].start + 3600 * (ws[i].duration_hours - 1) <= MAX_TIMESTAMP)
    &&& pooled_total(ws, conns, ws.len() as int) <= u32::MAX
    &&& total_hours(ws, ws.len() as int) - pooled_total(ws, conns, ws.len() as int) <= u32::MAX
}

proof fn lemma_pooled_hours_mono(start: int, h: int, n: int, conns: Seq<Datapoint<bool>>)
    requires
        0 <= h <= n,
    ensures
        pooled_hours(start, h, conns) <= pooled_hours(start, n, conns),
        h - pooled_hours(start, h, conns) <= n - pooled_hours(start, n, conns),
    decreases n - h,
{
    if h < n {
        lemma_pooled_hours_mono(start, h, n - 1, conns);
    }
}

/// The counts of pooled and confirmed idle hours each fit in `u32` when all the
/// idle hours do.
pub(crate) proof fn lemma_counts_fit(ws: Seq<IdleWindow>, conns: Seq<Datapoint<bool>>)
    requires
        total_hours(ws, ws.len() as int) <= u32::MAX,
    ensures
        pooled_total(ws, conns, ws.len() as int) <= u32::MAX,
        total_hours(ws, ws.len() as int) - pooled_total(ws, conns, ws.len() as int) <= u32::MAX,
{
    lemma_pooled_total_bounded(ws, conns, ws.len() as int);
}

proof fn lemma_pooled_total_mono(ws: Seq<IdleWindow>, conns: Seq<Datapoint<bool>>, m: int, k: int)
    requires
        0 <= m <= k <= ws.len(),
    ensures
        pooled_total(ws, conns, m) <= pooled_total(ws, conns, k),
        total_hours(ws, m) - pooled_total(ws, conns, m) <= total_hours(ws, k) - pooled_total(ws, conns, k),
    decreases k - m,
{
    if m < k {
        lemma_pooled_total_mono(ws, conns, m, k - 1);
        lemma_pooled_hours_mono(ws[k - 1].start as int, 0, ws[k - 1].duration_hours as int, conns);
    }
}

proof fn lemma_pooled_bounded(start: int, n: int, conns: Seq<Datapoint<bool>>)
    requires
        n >= 0,
    ensures
        0 <= pooled_hours(start, n, conns) <= n,
    decreases n,
{
    if n > 0 {
        lemma_pooled_bounded(start, n - 1, conns);
    }
}

proof fn lemma_pooled_total_bounded(ws: Seq<IdleWindow>, conns: Seq<Datapoint<bool>>, m: int)
    requires
        0 <= m <= ws.len(),
    ensures
        0 <= pooled_total(ws, conns, m) <= total_hours(ws, m),
    decreases m,
{
    if m > 0 {
        lemma_pooled_total_bounded(ws, conns, m - 1);
        lemma_pooled_bounded(ws[m - 1].start as int, ws[m - 1].duration_hours as int, conns);
    }
}

/// Tells whether an idle database held a connection pool open while idle:
/// `connections[i].value` is whether reading `i` saw at least one connection.
/// Each idle hour takes the last reading in the same hour (hours numbered as
/// `hour_key`); an hour without a reading counts as having no connection.
pub fn rds_idle_classification(windows: &[IdleWindow], connections: &[Datapoint<bool>]) -> (c: Option<String>)
    requires
        classification_input_ok(windows@, connections@),
    ensures
        match classification_of(windows@, connections@) {
            None => c.is_none(),
            Some(s) => c matches Some(t) && t@ == s,
        },
{
    if windows.len() == 0 {
        return None;
    }
    let ghost ws = windows@;
    let ghost conns = connections@;
    let conn_map = hour_values(connections);
    let mut pool: u32 = 0;
    let mut confirmed: u32 = 0;
    let mut i: usize = 0;
    while i < windows.len()
        invariant
            ws == windows@,
            conns == connections@,
            conn_map@ == hour_map(conns),
            classification_input_ok(ws, conns),
            i <= ws.len(),
            pool as int == pooled_total(ws, conns, i as int),
            pool + confirmed == total_hours(ws, i as int),
        decreases ws.len() - i,
    {
        let w = &windows[i];
        let n = w.duration_hours;
        let mut h: u64 = 0;
        proof {
            lemma_pooled_total_mono(ws, conns, i + 1, ws.len() as int);
            lemma_pooled_total_bounded(ws, conns, i as int);
        }
        while h < n
            invariant
                ws == windows@,
                conns == connections@,
                conn_map@ == hour_map(conns),
                classification_input_ok(ws, conns),
                i < ws.len(),
                *w == ws[i as int],
                n == w.duration_hours,
                h <= n,
                pooled_total(ws, conns, i as int + 1) <= u32::MAX,
                total_hours(ws, i as int + 1) - pooled_total(ws, conns, i as int + 1) <= u32::MAX,
                pool as int == pooled_total(ws, conns, i as int) + pooled_hours(w.start as int, h as int, conns),
                pool + confirmed == total_hours(ws, i as int) + h,
            decreases n - h,
        {
            assert(w.start + 3600 * h <= w.start + 3600 * (n - 1)) by (nonlinear_arith)
                requires h <= n - 1;
            proof {
                lemma_pooled_hours_mono(w.start as int, h + 1, n as int, conns);
            }
            let t = w.start + 3600 * (h as i64);
            let key = hour_number(t);
            if value_at_hour(&conn_map, key, false, Ghost(conns)) {
                pool = pool + 1;
            } else {
                confirmed = confirmed + 1;
            }
            h = h + 1;
        }
        i = i + 1;
    }
    if pool > confirmed {
        Some(String::from_str("pool-only"))
    } else {
        Some(String::from_str("confirmed"))
    }
}

} // verus!

verus! {

/// The position just after the block of equal values that continues from `i`.
pub open spec fn block_end(b: Seq<i64>, i: int) -> int
    decreases b.len() - i,
{
    if 0 <= i && i + 1 < b.len() && b[i + 1] == b[i] {
        block_end(b, i + 1)
    } else {
        i + 1
    }
}

/// A block of equal values begins at `i`.
pub open spec fn block_start(b: Seq<i64>, i: int) -> bool {
    0 <= i < b.len() && (i == 0 || b[i - 1] != b[i])
}

/// The block that begins at `i` is the first of the longest blocks of equal values.
pub open spec fn is_peak_block(b: Seq<i64>, i: int) -> bool {
    &&& block_start(b, i)
    &&& forall|j: int| #[trigger] block_start(b, j) ==> block_end(b, j) - j <= block_end(b, i) - i
    &&& forall|j: int| #[trigger] block_start(b, j) && j < i ==> block_end(b, j) - j < block_end(b, i) - i
}

proof fn lemma_block_end_at(b: Seq<i64>, s: int, p: int, e: int)
    requires
        0 <= s <= p < e <= b.len(),
        forall|q: int| s <= q < e ==> b[q] == b[s],
        e == b.len() || b[e] != b[s],
    ensures
        block_end(b, p) == e,
    decreases e - p,
{
    if p + 1 < e {
        lemma_block_end_at(b, s, p + 1, e);
    }
}

/// The value of the longest block of consecutive equal values in `buckets`,
/// the first such block when several are longest. On buckets sorted in
/// ascending order this is the most frequent bucket, the lowest on ties (see
/// `lemma_peak_is_mode`).
pub fn peak_bucket(buckets: &[i64]) -> (r: i64)
    requires
        buckets@.len() > 0,
    ensures
        exists|i: int| is_peak_block(buckets@, i) && r == buckets@[i],
{
    let ghost b = buckets@;
    let n = buckets.len();
    let mut best = buckets[0];
    let mut best_count: usize = 0;
    let mut best_start: usize = 0;
    let mut cur = buckets[0];
    let mut cur_count: usize = 0;
    let mut cur_start: usize = 0;
    let mut k: usize = 0;
    while k < n
        invariant
            b == buckets@,
            n == b.len(),
            n > 0,
            k <= n,
            cur_start <= k,
            k > 0 ==> cur_start < k,
            k == 0 ==> cur_start == 0 && cur == b[0] && best_count == 0,
            block_start(b, cur_start as int),
            cur == b[cur_start as int],
            cur_count == k - cur_start,
            forall|q: int| cur_start <= q < k ==> b[q] == cur,
            best_count == 0 ==> cur_start == 0,
            best_count > 0 ==> {
                &&& block_start(b, best_start as int)
                &&& best_start < cur_start
                &&& best == b[best_start as int]
                &&& block_end(b, best_start as int) - best_start == best_count
            },
            forall|j: int| #[trigger] block_start(b, j) && j < cur_start ==> block_end(b, j) <= cur_start
                && block_end(b, j) - j <= best_count,
            forall|j: int| #[trigger] block_start(b, j) && j < best_start ==> block_end(b, j) - j < best_count,
        decreases n - k,
    {
        let v = buckets[k];
        if v == cur {
            cur_count = cur_count + 1;
        } else {
            proof {
                lemma_block_end_at(b, cur_start as int, cur_start as int, k as int);
                assert forall|j: int| #[trigger] block_start(b, j) && j < k implies block_end(b, j) <= k
                    && block_end(b, j) - j <= (if cur_count > best_count { cur_count } else { best_count }) by {
                    if j > cur_start {
                        assert(b[j - 1] == b[j]);
                    }
                }
            }
            if cur_count > best_count {
                best_count = cur_count;
                best = cur;
                best_start = cur_start;
            }
            cur = v;
            cur_count = 1;
            cur_start = k;
        }
        k = k + 1;
    }
    proof {
        lemma_block_end_at(b, cur_start as int, cur_start as int, n as int);
        assert forall|j: int| #[trigger] block_start(b, j) && j > cur_start implies false by {
            assert(b[j - 1] == b[j]);
        }
    }
    if cur_count > best_count {
        best = cur;
        proof {
            assert(is_peak_block(b, cur_start as int));
        }
    } else {
        proof {
            assert(is_peak_block(b, best_start as int));
        }
    }
    best
}

} // verus!

verus! {

/// Number of occurrences of `x` in `b[0..hi]`.
pub open spec fn occurrences(b: Seq<i64>, x: i64, hi: int) -> int
    decreases hi,
{
    if hi <= 0 {
        0
    } else {
        occurrences(b, x, hi - 1) + if b[hi - 1] == x { 1int } else { 0int }
    }
}

/// In ascending order.
pub open spec fn is_ascending(b: Seq<i64>) -> bool {
    forall|p: int, q: int| 0 <= p <= q < b.len() ==> b[p] <= b[q]
}

spec fn block_start_of(b: Seq<i64>, p: int) -> int
    decreases p,
{
    if p > 0 && b[p - 1] == b[p] {
        block_start_of(b, p - 1)
    } else {
        p
    }
}

proof fn lemma_block_start_of(b: Seq<i64>, p: int)
    requires
        0 <= p < b.len(),
    ensures
        block_start(b, block_start_of(b, p)),
        b[block_start_of(b, p)] == b[p],
        block_start_of(b, p) <= p,
    decreases p,
{
    if p > 0 && b[p - 1] == b[p] {
        lemma_block_start_of(b, p - 1);
    }
}

proof fn lemma_block_end_props(b: Seq<i64>, i: int)
    requires
        0 <= i < b.len(),
    ensures
        i < block_end(b, i) <= b.len(),
        forall|q: int| i <= q < block_end(b, i) ==> b[q] == b[i],
        block_end(b, i) == b.len() || b[block_end(b, i)] != b[i],
    decreases b.len() - i,
{
    if i + 1 < b.len() && b[i + 1] == b[i] {
        lemma_block_end_props(b, i + 1);
    }
}

proof fn lemma_occurrences_in_block(b: Seq<i64>, i: int, hi: int)
    requires
        is_ascending(b),
        block_start(b, i),
        0 <= hi <= b.len(),
    ensures
        occurrences(b, b[i], hi) == if hi <= i {
            0
        } else if hi <= block_end(b, i) {
            hi - i
        } else {
            block_end(b, i) - i
        },
    decreases hi,
{
    lemma_block_end_props(b, i);
    if hi > 0 {
        lemma_occurrences_in_block(b, i, hi - 1);
        let q = hi - 1;
        if q < i {
            assert(b[q] <= b[i - 1]);
            assert(b[i - 1] <= b[i]);
        } else if q >= block_end(b, i) {
            let e = block_end(b, i);
            assert(b[e] >= b[i]);
            assert(b[q] >= b[e]);
        }
    }
}

proof fn lemma_occurrences_absent(b: Seq<i64>, x: i64, hi: int)
    requires
        0 <= hi <= b.len(),
        forall|p: int| 0 <= p < b.len() ==> b[p] != x,
    ensures
        occurrences(b, x, hi) == 0,
    decreases hi,
{
    if hi > 0 {
        lemma_occurrences_absent(b, x, hi - 1);
    }
}

/// On buckets in ascending order, the peak bucket is the most frequent bucket,
/// and the lowest of the most frequent ones: the connection floor that most
/// hours sit at.
pub proof fn lemma_peak_is_mode(b: Seq<i64>, i: int, x: i64)
    requires
        is_ascending(b),
        is_peak_block(b, i),
    ensures
        occurrences(b, b[i], b.len() as int) >= occurrences(b, x, b.len() as int),
        occurrences(b, b[i], b.len() as int) == occurrences(b, x, b.len() as int) ==> b[i] <= x,
{
    let n = b.len() as int;
    lemma_occurrences_in_block(b, i, n);
    lemma_block_end_props(b, i);
    if exists|p: int| 0 <= p < n && b[p] == x {
        let p = choose|p: int| 0 <= p < n && b[p] == x;
        lemma_block_start_of(b, p);
        let j = block_start_of(b, p);
        lemma_occurrences_in_block(b, j, n);
        lemma_block_end_props(b, j);
        assert(block_start(b, j));
        if j > i {
            assert(b[i] <= b[j]);
        }
    } else {
        lemma_occurrences_absent(b, x, n);
    }
}

} // verus!
