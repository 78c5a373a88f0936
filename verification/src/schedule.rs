//! Suggested on/off schedules: the hour-of-day window that covers the active
//! observations of a resource, trimmed of outliers, in the schedule-tag format
//! `"HHMM-HHMM days"`.
use vstd::prelude::*;

use crate::text::{four_digits, push_four_digits};
use crate::time::{hour_of, is_weekend_at, hour_of_day, is_weekend};

verus! {

/// Number of elements of `h` that are at most `v`.
pub open spec fn count_le(h: Seq<u32>, v: int) -> nat
    decreases h.len(),
{
    if h.len() == 0 {
        0
    } else {
        count_le(h.drop_last(), v) + if h.last() <= v { 1nat } else { 0nat }
    }
}

/// The least hour `w >= v` (capped at 23) with more than `k` elements of `h` at most `w`.
pub open spec fn order_stat_from(h: Seq<u32>, k: int, v: int) -> int
    decreases 23 - v,
{
    if v >= 23 || count_le(h, v) > k {
        v
    } else {
        order_stat_from(h, k, v + 1)
    }
}

/// The element at position `k` (from 0) of the hours `h` in ascending order:
/// the least hour with more than `k` elements of `h` at or below it.
pub open spec fn order_stat(h: Seq<u32>, k: int) -> int {
    order_stat_from(h, k, 0)
}

/// How many observations are trimmed from each end of `n` sorted hours: 2.5 % of
/// them rounded down (`floor(n * 0.025)`), and never so many that nothing is left.
/// Nothing more is trimmed: fewer than 40 observations lose none, so the window
/// always holds at least 95 % of them (`lemma_window_covers`).
pub open spec fn trim_count(n: int) -> int {
    let t = n / 40;
    if t > (n - 1) / 2 { (n - 1) / 2 } else { t }
}

/// The hour-of-day window `(lo, hi)` that covers the hours `h` once the `trim_count`
/// lowest and highest are left out, when `hi > lo`.
pub open spec fn coverage(h: Seq<u32>) -> Option<(u32, u32)> {
    if h.len() == 0 {
        None
    } else {
        let t = trim_count(h.len() as int);
        let lo = order_stat(h, t);
        let hi = order_stat(h, h.len() - 1 - t);
        if hi > lo {
            Some((lo as u32, hi as u32))
        } else {
            None
        }
    }
}

/// All hours are hours of the day.
pub open spec fn hours_of_day(h: Seq<u32>) -> bool {
    forall|i: int| 0 <= i < h.len() ==> #[trigger] h[i] < 24
}

proof fn lemma_count_le_bounds(h: Seq<u32>, v: int)
    ensures
        count_le(h, v) <= h.len(),
        v >= 23 && hours_of_day(h) ==> count_le(h, v) == h.len(),
    decreases h.len(),
{
    if h.len() > 0 {
        lemma_count_le_bounds(h.drop_last(), v);
    }
}

proof fn lemma_count_le_mono(h: Seq<u32>, v: int, w: int)
    requires
        v <= w,
    ensures
        count_le(h, v) <= count_le(h, w),
    decreases h.len(),
{
    if h.len() > 0 {
        lemma_count_le_mono(h.drop_last(), v, w);
    }
}

/// Number of elements of `h` that are at most `v`.
fn count_at_most(h: &Vec<u32>, v: u32) -> (c: usize)
    ensures
        c == count_le(h@, v as int),
{
    let mut c: usize = 0;
    let mut i: usize = 0;
    while i < h.len()
        invariant
            i <= h@.len(),
            c == count_le(h@.take(i as int), v as int),
            c <= i,
        decreases h@.len() - i,
    {
        assert(h@.take(i + 1).drop_last() =~= h@.take(i as int));
        if h[i] <= v {
            c = c + 1;
        }
        i = i + 1;
    }
    assert(h@.take(h@.len() as int) =~= h@);
    c
}

proof fn lemma_order_stat_from_bounds(h: Seq<u32>, k: int, v: int)
    requires
        0 <= v <= 23,
    ensures
        v <= order_stat_from(h, k, v) <= 23,
    decreases 23 - v,
{
    if !(v >= 23 || count_le(h, v) > k) {
        lemma_order_stat_from_bounds(h, k, v + 1);
    }
}

/// The element at position `k` of `h` in ascending order.
fn order_statistic(h: &Vec<u32>, k: usize) -> (v: u32)
    requires
        hours_of_day(h@),
        k < h@.len(),
    ensures
        v == order_stat(h@, k as int),
        v < 24,
{
    let mut v: u32 = 0;
    while v < 23 && count_at_most(h, v) <= k
        invariant
            v <= 23,
            order_stat(h@, k as int) == order_stat_from(h@, k as int, v as int),
        decreases 23 - v,
    {
        v = v + 1;
    }
    v
}

fn trim_for(n: usize) -> (t: usize)
    requires
        n >= 1,
    ensures
        t == trim_count(n as int),
        2 * t <= n - 1,
{
    let t = n / 40;
    if t > (n - 1) / 2 { (n - 1) / 2 } else { t }
}

/// The window of hours of day that covers the hours `h` once the outliers are
/// trimmed from both ends; `None` when no hours are given or all that remain fall
/// in a single hour.
pub fn coverage_window(h: &Vec<u32>) -> (w: Option<(u32, u32)>)
    requires
        hours_of_day(h@),
    ensures
        w == coverage(h@),
{
    let n = h.len();
    if n == 0 {
        return None;
    }
    let t = trim_for(n);
    let lo = order_statistic(h, t);
    let hi = order_statistic(h, n - 1 - t);
    if hi > lo {
        Some((lo, hi))
    } else {
        None
    }
}

} // verus!

verus! {

/// Hours of day of the active observations, in series order, taken from weekend
/// days (`weekend`) or from weekdays (`!weekend`), among the first `n` observations.
pub open spec fn active_hours(ts: Seq<i64>, active: Seq<bool>, weekend: bool, n: int) -> Seq<u32>
    decreases n,
{
    if n <= 0 {
        Seq::empty()
    } else if active[n - 1] && is_weekend_at(ts[n - 1] as int) == weekend {
        active_hours(ts, active, weekend, n - 1).push(hour_of(ts[n - 1] as int) as u32)
    } else {
        active_hours(ts, active, weekend, n - 1)
    }
}

/// A suggested schedule: the first and last active hour of the day, and whether
/// it applies on weekdays and on weekend days.
pub struct SchedulePlan {
    pub start: u32,
    pub end: u32,
    pub weekdays: bool,
    pub weekends: bool,
}

pub open spec fn min_u32(a: u32, b: u32) -> u32 {
    if a <= b { a } else { b }
}

pub open spec fn max_u32(a: u32, b: u32) -> u32 {
    if a >= b { a } else { b }
}

/// The schedule that the active observations call for: the weekday window when
/// only weekdays are active, the weekend window when only weekend days are; when
/// both kinds of day are active, every day over the smallest window that holds the
/// windows they have (a kind of day whose few active hours give no window adds
/// none, but still makes the schedule daily: no active kind of day is left out).
/// No schedule when no window exists.
pub open spec fn plan_for(ts: Seq<i64>, active: Seq<bool>) -> Option<SchedulePlan> {
    let wd_hours = active_hours(ts, active, false, ts.len() as int);
    let we_hours = active_hours(ts, active, true, ts.len() as int);
    let both = wd_hours.len() > 0 && we_hours.len() > 0;
    match (coverage(wd_hours), coverage(we_hours)) {
        (None, None) => None,
        (Some(w), None) => Some(SchedulePlan { start: w.0, end: w.1, weekdays: true, weekends: both }),
        (None, Some(w)) => Some(SchedulePlan { start: w.0, end: w.1, weekdays: both, weekends: true }),
        (Some(w), Some(v)) => Some(
            SchedulePlan {
                start: min_u32(w.0, v.0),
                end: max_u32(w.1, v.1),
                weekdays: true,
                weekends: true,
            },
        ),
    }
}

/// The end of the schedule, as HHMM: the end of the last active hour, or 23:59.
pub open spec fn end_code(e: int) -> int {
    if e == 23 {
        2359
    } else {
        (e + 1) * 100
    }
}

/// The day pattern of a plan: "daily", "mon-fri" or "sat-sun".
pub open spec fn days_text(p: SchedulePlan) -> Seq<char> {
    if p.weekdays && p.weekends {
        "daily"@
    } else if p.weekdays {
        "mon-fri"@
    } else {
        "sat-sun"@
    }
}

/// The schedule tag of a plan, e.g. "0900-1700 mon-fri".
pub open spec fn schedule_text(p: SchedulePlan) -> Seq<char> {
    four_digits(p.start * 100) + "-"@ + four_digits(end_code(p.end as int)) + " "@ + days_text(p)
}

/// Observation `i` is active but the plan would have the resource stopped then:
/// on a kind of day the plan leaves out, or at an hour outside its window.
pub open spec fn active_outside(ts: Seq<i64>, active: Seq<bool>, p: SchedulePlan, i: int) -> bool {
    let t = ts[i] as int;
    &&& active[i]
    &&& {
        ||| (is_weekend_at(t) && !p.weekends)
        ||| (!is_weekend_at(t) && !p.weekdays)
        ||| hour_of(t) < p.start
        ||| hour_of(t) > p.end
    }
}

/// Number of observations among the first `n` that are active outside the plan.
pub open spec fn count_outside(ts: Seq<i64>, active: Seq<bool>, p: SchedulePlan, n: int) -> nat
    decreases n,
{
    if n <= 0 {
        0
    } else {
        count_outside(ts, active, p, n - 1) + if active_outside(ts, active, p, n - 1) {
            1nat
        } else {
            0nat
        }
    }
}

proof fn lemma_active_hours_of_day(ts: Seq<i64>, active: Seq<bool>, weekend: bool, n: int)
    ensures
        hours_of_day(active_hours(ts, active, weekend, n)),
    decreases n,
{
    if n > 0 {
        lemma_active_hours_of_day(ts, active, weekend, n - 1);
        let prev = active_hours(ts, active, weekend, n - 1);
        if active[n - 1] && is_weekend_at(ts[n - 1] as int) == weekend {
            let h = hour_of(ts[n - 1] as int);
            assert(0 <= h < 24);
            assert forall|i: int| 0 <= i < prev.len() + 1 implies #[trigger] prev.push(h as u32)[i] < 24 by {
                if i < prev.len() {
                    assert(prev.push(h as u32)[i] == prev[i]);
                }
            }
        }
    }
}

fn hours_on(timestamps: &[i64], active: &[bool], weekend: bool) -> (h: Vec<u32>)
    requires
        timestamps@.len() == active@.len(),
    ensures
        h@ == active_hours(timestamps@, active@, weekend, timestamps@.len() as int),
        hours_of_day(h@),
{
    let mut h: Vec<u32> = Vec::new();
    let mut i: usize = 0;
    while i < timestamps.len()
        invariant
            timestamps@.len() == active@.len(),
            i <= timestamps@.len(),
            h@ == active_hours(timestamps@, active@, weekend, i as int),
        decreases timestamps@.len() - i,
    {
        if active[i] && is_weekend(timestamps[i]) == weekend {
            h.push(hour_of_day(timestamps[i]));
        }
        i = i + 1;
    }
    proof {
        lemma_active_hours_of_day(timestamps@, active@, weekend, timestamps@.len() as int);
    }
    h
}

/// The schedule tag of the plan.
fn schedule_tag(p: &SchedulePlan) -> (s: String)
    requires
        p.start < 24,
        p.end < 24,
    ensures
        s@ == schedule_text(*p),
{
    let mut s = String::new();
    push_four_digits(&mut s, p.start * 100);
    s.append("-");
    let end_fmt = if p.end == 23 { 2359 } else { (p.end + 1) * 100 };
    push_four_digits(&mut s, end_fmt);
    s.append(" ");
    if p.weekdays && p.weekends {
        s.append("daily");
    } else if p.weekdays {
        s.append("mon-fri");
    } else {
        s.append("sat-sun");
    }
    s
}

proof fn lemma_coverage_hours(h: Seq<u32>)
    requires
        hours_of_day(h),
    ensures
        coverage(h) matches Some(w) ==> w.0 < w.1 < 24,
{
    if h.len() > 0 {
        let t = trim_count(h.len() as int);
        lemma_order_stat_from_bounds(h, t, 0);
        lemma_order_stat_from_bounds(h, h.len() - 1 - t, 0);
    }
}

/// Suggests the active-hours schedule of a resource from its observations:
/// `timestamps[i]` is the instant of observation `i`, `active[i]` whether the
/// resource was in use then. Returns the schedule tag (`None` when no window
/// covers more than one hour) and the number of active observations that the
/// schedule would leave outside, as a `u32` (wrapping past `u32::MAX`).
///
/// Weekday and weekend observations are windowed separately (see
/// `coverage_window`); when both kinds of day are active the schedule runs daily
/// over the smallest window that holds the windows they have (`plan_for`).
pub fn suggest_schedule(timestamps: &[i64], active: &[bool]) -> (r: (Option<String>, u32))
    requires
        timestamps@.len() == active@.len(),
    ensures
        match plan_for(timestamps@, active@) {
            None => r.0.is_none() && r.1 == 0,
            Some(p) => {
                &&& r.0 matches Some(s) && s@ == schedule_text(p)
                &&& r.1 == count_outside(timestamps@, active@, p, timestamps@.len() as int) as u32
            },
        },
        count_active(active@, active@.len() as int) <= u32::MAX ==> r.1 <= count_active(active@, active@.len() as int),
{
    let wd_hours = hours_on(timestamps, active, false);
    let we_hours = hours_on(timestamps, active, true);
    let wd = coverage_window(&wd_hours);
    let we = coverage_window(&we_hours);
    proof {
        lemma_coverage_hours(wd_hours@);
        lemma_coverage_hours(we_hours@);
    }
    let both = wd_hours.len() > 0 && we_hours.len() > 0;
    let plan = match (wd, we) {
        (None, None) => {
            return (None, 0);
        },
        (Some(w), None) => SchedulePlan { start: w.0, end: w.1, weekdays: true, weekends: both },
        (None, Some(w)) => SchedulePlan { start: w.0, end: w.1, weekdays: both, weekends: true },
        (Some(w), Some(v)) => SchedulePlan {
            start: if w.0 <= v.0 { w.0 } else { v.0 },
            end: if w.1 >= v.1 { w.1 } else { v.1 },
            weekdays: true,
            weekends: true,
        },
    };
    assert(plan_for(timestamps@, active@) == Some(plan));
    let tag = schedule_tag(&plan);
    let mut outside: usize = 0;
    let mut i: usize = 0;
    while i < timestamps.len()
        invariant
            timestamps@.len() == active@.len(),
            i <= timestamps@.len(),
            outside == count_outside(timestamps@, active@, plan, i as int),
            outside <= i,
        decreases timestamps@.len() - i,
    {
        if active[i] {
            let t = timestamps[i];
            let h = hour_of_day(t);
            let we = is_weekend(t);
            if (we && !plan.weekends) || (!we && !plan.weekdays) || h < plan.start || h > plan.end {
                outside = outside + 1;
            }
        }
        i = i + 1;
    }
    proof {
        lemma_outside_le_active(timestamps@, active@, plan, timestamps@.len() as int);
    }
    (Some(tag), outside as u32)
}

} // verus!

verus! {

proof fn lemma_order_stat_from_minimal(h: Seq<u32>, k: int, v: int)
    requires
        0 <= v <= 23,
    ensures
        forall|u: int| v <= u < order_stat_from(h, k, v) ==> count_le(h, u) <= k,
        order_stat_from(h, k, v) < 23 ==> count_le(h, order_stat_from(h, k, v)) > k,
    decreases 23 - v,
{
    if !(v >= 23 || count_le(h, v) > k) {
        lemma_order_stat_from_minimal(h, k, v + 1);
    }
}

/// The suggested window leaves out at most the trimmed outliers: when the hours
/// `h` have a window `(lo, hi)`, at least `n - 2 * trim_count(n)` of the `n` hours
/// lie in `lo..=hi`, which is at least 95 % of them.
pub proof fn lemma_window_covers(h: Seq<u32>)
    requires
        hours_of_day(h),
    ensures
        coverage(h) matches Some(w) ==> {
            let n = h.len() as int;
            let covered = count_le(h, w.1 as int) - count_le(h, w.0 - 1);
            &&& covered >= n - 2 * trim_count(n)
            &&& 20 * covered >= 19 * n
        },
{
    if let Some(w) = coverage(h) {
        let n = h.len() as int;
        let t = trim_count(n);
        lemma_order_stat_from_minimal(h, t, 0);
        lemma_order_stat_from_minimal(h, n - 1 - t, 0);
        lemma_order_stat_from_bounds(h, t, 0);
        lemma_order_stat_from_bounds(h, n - 1 - t, 0);
        lemma_count_le_bounds(h, 23);
        let lo = w.0 as int;
        let hi = w.1 as int;
        if lo > 0 {
            assert(count_le(h, lo - 1) <= t);
        } else {
            lemma_count_le_bounds(h, -1);
            assert(count_le(h, -1) == 0) by {
                lemma_count_le_zero(h);
            }
        }
        assert(count_le(h, hi) >= n - t);
    }
}

proof fn lemma_count_le_zero(h: Seq<u32>)
    ensures
        count_le(h, -1) == 0,
    decreases h.len(),
{
    if h.len() > 0 {
        lemma_count_le_zero(h.drop_last());
    }
}

/// When weekdays and weekend days both have active observations and at least one
/// of them has a window, the schedule runs every day over a window that holds each
/// window that exists: neither kind of day is left out.
pub proof fn lemma_daily_schedule_holds_both(ts: Seq<i64>, active: Seq<bool>)
    ensures
        ({
            let wd_hours = active_hours(ts, active, false, ts.len() as int);
            let we_hours = active_hours(ts, active, true, ts.len() as int);
            let wd = coverage(wd_hours);
            let we = coverage(we_hours);
            (wd_hours.len() > 0 && we_hours.len() > 0 && (wd is Some || we is Some)) ==> {
                &&& plan_for(ts, active) matches Some(p)
                &&& p.weekdays && p.weekends
                &&& wd is Some ==> p.start <= wd.unwrap().0 && wd.unwrap().1 <= p.end
                &&& we is Some ==> p.start <= we.unwrap().0 && we.unwrap().1 <= p.end
            }
        }),
{
}

/// Number of active observations among the first `n`.
pub open spec fn count_active(active: Seq<bool>, n: int) -> nat
    decreases n,
{
    if n <= 0 {
        0
    } else {
        count_active(active, n - 1) + if active[n - 1] { 1nat } else { 0nat }
    }
}

proof fn lemma_outside_le_active(ts: Seq<i64>, active: Seq<bool>, p: SchedulePlan, n: int)
    ensures
        count_outside(ts, active, p, n) <= count_active(active, n),
    decreases n,
{
    if n > 0 {
        lemma_outside_le_active(ts, active, p, n - 1);
    }
}

proof fn lemma_no_active_no_hours(ts: Seq<i64>, active: Seq<bool>, weekend: bool, n: int)
    requires
        count_active(active, n) == 0,
    ensures
        active_hours(ts, active, weekend, n).len() == 0,
    decreases n,
{
    if n > 0 {
        lemma_no_active_no_hours(ts, active, weekend, n - 1);
    }
}

/// The schedule is well formed and honest about what it leaves out: without active
/// observations there is no schedule; a schedule starts at an hour before the hour
/// it ends (both hours of the day), so its tag is `"HHMM-HHMM days"` with a start
/// before its end; and the active observations it leaves out are at most all of
/// the active observations.
pub proof fn lemma_schedule_bounds(ts: Seq<i64>, active: Seq<bool>)
    requires
        ts.len() == active.len(),
    ensures
        count_active(active, ts.len() as int) == 0 ==> plan_for(ts, active) is None,
        plan_for(ts, active) matches Some(p) ==> p.start < p.end < 24 && (p.weekdays || p.weekends)
            && count_outside(ts, active, p, ts.len() as int) <= count_active(active, ts.len() as int),
{
    let n = ts.len() as int;
    lemma_active_hours_of_day(ts, active, false, n);
    lemma_active_hours_of_day(ts, active, true, n);
    lemma_coverage_hours(active_hours(ts, active, false, n));
    lemma_coverage_hours(active_hours(ts, active, true, n));
    if count_active(active, n) == 0 {
        lemma_no_active_no_hours(ts, active, false, n);
        lemma_no_active_no_hours(ts, active, true, n);
    }
    if let Some(p) = plan_for(ts, active) {
        lemma_outside_le_active(ts, active, p, n);
    }
}

/// Active observations on one kind of day (`weekend`), among the first `n`, whose
/// hour lies in `lo..=hi`.
pub open spec fn count_active_within(ts: Seq<i64>, active: Seq<bool>, weekend: bool, lo: int, hi: int, n: int) -> nat
    decreases n,
{
    if n <= 0 {
        0
    } else {
        count_active_within(ts, active, weekend, lo, hi, n - 1) + if active[n - 1] && is_weekend_at(
            ts[n - 1] as int,
        ) == weekend && lo <= hour_of(ts[n - 1] as int) <= hi {
            1nat
        } else {
            0nat
        }
    }
}

proof fn lemma_within_counts(ts: Seq<i64>, active: Seq<bool>, weekend: bool, lo: int, hi: int, n: int)
    requires
        0 <= n <= ts.len(),
        ts.len() == active.len(),
        lo <= hi,
    ensures
        count_active_within(ts, active, weekend, lo, hi, n) == count_le(active_hours(ts, active, weekend, n), hi)
            - count_le(active_hours(ts, active, weekend, n), lo - 1),
    decreases n,
{
    if n > 0 {
        lemma_within_counts(ts, active, weekend, lo, hi, n - 1);
        let prev = active_hours(ts, active, weekend, n - 1);
        if active[n - 1] && is_weekend_at(ts[n - 1] as int) == weekend {
            let h = hour_of(ts[n - 1] as int) as u32;
            let cur = prev.push(h);
            assert(cur.drop_last() =~= prev);
            assert(cur.last() == h);
            assert(0 <= hour_of(ts[n - 1] as int) < 24);
        }
    }
}

proof fn lemma_outside_one_kind(ts: Seq<i64>, active: Seq<bool>, p: SchedulePlan, weekend: bool, n: int)
    requires
        0 <= n <= ts.len(),
        ts.len() == active.len(),
        active_hours(ts, active, !weekend, ts.len() as int).len() == 0,
        if weekend { p.weekends } else { p.weekdays },
    ensures
        count_outside(ts, active, p, n) + count_active_within(ts, active, weekend, p.start as int, p.end as int, n)
            == active_hours(ts, active, weekend, n).len(),
        active_hours(ts, active, !weekend, n).len() == 0,
    decreases n,
{
    if n > 0 {
        lemma_active_hours_prefix(ts, active, !weekend, n, ts.len() as int);
        lemma_outside_one_kind(ts, active, p, weekend, n - 1);
    }
}

proof fn lemma_active_hours_prefix(ts: Seq<i64>, active: Seq<bool>, weekend: bool, m: int, n: int)
    requires
        0 <= m <= n,
    ensures
        active_hours(ts, active, weekend, m).len() <= active_hours(ts, active, weekend, n).len(),
    decreases n - m,
{
    if m < n {
        lemma_active_hours_prefix(ts, active, weekend, m, n - 1);
    }
}

/// When all active observations fall on one kind of day (weekdays only, or
/// weekend days only), the schedule leaves out at most 5 % of them: it is that
/// kind of day's window, which holds at least 95 % of its active hours.
pub proof fn lemma_one_kind_outside_at_most_5_percent(ts: Seq<i64>, active: Seq<bool>, weekend: bool)
    requires
        ts.len() == active.len(),
        active_hours(ts, active, !weekend, ts.len() as int).len() == 0,
    ensures
        plan_for(ts, active) matches Some(p) ==> 20 * count_outside(ts, active, p, ts.len() as int)
            <= active_hours(ts, active, weekend, ts.len() as int).len(),
{
    let n = ts.len() as int;
    let h = active_hours(ts, active, weekend, n);
    lemma_active_hours_of_day(ts, active, weekend, n);
    if let Some(p) = plan_for(ts, active) {
        assert(coverage(active_hours(ts, active, !weekend, n)) is None);
        let w = coverage(h).unwrap();
        assert(p.start == w.0 && p.end == w.1);
        lemma_window_covers(h);
        lemma_coverage_hours(h);
        lemma_outside_one_kind(ts, active, p, weekend, n);
        lemma_within_counts(ts, active, weekend, p.start as int, p.end as int, n);
    }
}

/// The window leaves out exactly the outliers: of the `n` hours, the
/// `min(floor(n / 40), (n - 1) / 2)` lowest and as many highest (2.5 % per side,
/// rounded down). At most that many hours lie below the window's first hour and
/// more than that many at or below it; at most that many lie above its last hour
/// and more than that many at or above it.
pub proof fn lemma_window_trims_exactly(h: Seq<u32>)
    requires
        hours_of_day(h),
    ensures
        coverage(h) matches Some(w) ==> {
            let n = h.len() as int;
            let t = if n / 40 < (n - 1) / 2 { n / 40 } else { (n - 1) / 2 };
            &&& count_le(h, w.0 - 1) <= t < count_le(h, w.0 as int)
            &&& n - count_le(h, w.1 as int) <= t < n - count_le(h, w.1 - 1)
        },
{
    if let Some(w) = coverage(h) {
        let n = h.len() as int;
        let t = trim_count(n);
        lemma_order_stat_from_minimal(h, t, 0);
        lemma_order_stat_from_minimal(h, n - 1 - t, 0);
        lemma_order_stat_from_bounds(h, t, 0);
        lemma_order_stat_from_bounds(h, n - 1 - t, 0);
        lemma_count_le_bounds(h, 23);
        lemma_count_le_zero(h);
        let lo = w.0 as int;
        let hi = w.1 as int;
        assert(lo < hi <= 23);
        if lo > 0 {
            assert(count_le(h, lo - 1) <= t);
        }
        assert(count_le(h, lo) > t);
        assert(count_le(h, hi - 1) <= n - 1 - t);
        if hi < 23 {
            assert(count_le(h, hi) > n - 1 - t);
        }
    }
}

} // verus!
