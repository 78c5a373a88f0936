use upscan::analysis::{analyse_series, analysis_plan, IdleSignal, IdleThreshold};
use upscan::idle::{detect_idle_windows, IdleWindow};
use upscan::kinds::ResourceKind;
use upscan::pattern::{infer_pattern, peak_bucket, rds_idle_classification};
use upscan::schedule::suggest_schedule;
use upscan::series::{fill_full_window, Datapoint};

use chrono::{Datelike, Duration, TimeZone, Timelike, Utc, Weekday};

fn make_dp(hour_offset: i64, value: f64) -> Datapoint<f64> {
    Datapoint {
        timestamp: (Utc.with_ymd_and_hms(2024, 1, 15, 0, 0, 0).unwrap() + Duration::hours(hour_offset)).timestamp(),
        value,
    }
}

fn flags(dps: &[Datapoint<f64>], threshold: f64) -> Vec<bool> {
    dps.iter().map(|d| d.value <= threshold).collect()
}

fn windows(dps: &[Datapoint<f64>], threshold: f64, min_idle_hours: u64) -> Vec<IdleWindow> {
    detect_idle_windows(dps, &flags(dps, threshold), min_idle_hours).into_iter().map(|r| r.window).collect()
}

#[test]
fn test_no_idle_windows_when_all_active() {
    let dps: Vec<Datapoint<f64>> = (0..10).map(|i| make_dp(i, 80.0)).collect();
    assert!(windows(&dps, 5.0, 2).is_empty());
}

#[test]
fn test_detects_single_idle_window() {
    let mut dps: Vec<Datapoint<f64>> = (0..2).map(|i| make_dp(i, 80.0)).collect();
    dps.extend((2..6).map(|i| make_dp(i, 1.0)));
    dps.extend((6..10).map(|i| make_dp(i, 80.0)));
    let w = windows(&dps, 5.0, 2);
    assert_eq!(w.len(), 1);
    assert_eq!(w[0].duration_hours, 4);
}

#[test]
fn test_filters_short_idle_windows() {
    let mut dps: Vec<Datapoint<f64>> = (0..5).map(|i| make_dp(i, 80.0)).collect();
    dps[2].value = 1.0;
    assert!(windows(&dps, 5.0, 2).is_empty());
}

#[test]
fn test_idle_window_at_end_of_series() {
    let mut dps: Vec<Datapoint<f64>> = (0..5).map(|i| make_dp(i, 80.0)).collect();
    dps.extend((5..8).map(|i| make_dp(i, 1.0)));
    let w = windows(&dps, 5.0, 2);
    assert_eq!(w.len(), 1);
    assert_eq!(w[0].duration_hours, 3);
}

#[test]
fn test_unsorted_datapoints_are_sorted() {
    let mut dps: Vec<Datapoint<f64>> = (0..4).map(|i| make_dp(i, 1.0)).collect();
    dps.extend((4..8).map(|i| make_dp(i, 80.0)));
    dps.reverse();
    let w = windows(&dps, 5.0, 2);
    assert_eq!(w.len(), 1);
    assert_eq!(w[0].duration_hours, 4);
}

#[test]
fn idle_windows_have_exact_bounds_and_values() {
    let mut dps: Vec<Datapoint<f64>> = (0..3).map(|i| make_dp(i, 2.0)).collect();
    dps.extend((3..5).map(|i| make_dp(i, 90.0)));
    dps.extend((5..7).map(|i| make_dp(i, 4.0)));
    let f = flags(&dps, 5.0);
    let runs = detect_idle_windows(&dps, &f, 2);
    assert_eq!(runs.len(), 2);
    assert_eq!(runs[0].window.start, make_dp(0, 0.0).timestamp);
    assert_eq!(runs[0].window.end, make_dp(3, 0.0).timestamp);
    assert_eq!(runs[0].values, vec![2.0, 2.0, 2.0]);
    assert_eq!(runs[1].window.start, make_dp(5, 0.0).timestamp);
    assert_eq!(runs[1].window.end, make_dp(7, 0.0).timestamp);
    assert_eq!(runs[1].window.duration_hours, 2);
    // Windows come in time order and do not overlap.
    assert!(runs[0].window.end <= runs[1].window.start);
}

#[test]
fn idle_windows_of_an_empty_series() {
    let runs = detect_idle_windows::<f64>(&[], &[], 0);
    assert!(runs.is_empty());
}

fn night_window(day: u32) -> IdleWindow {
    let start = Utc.with_ymd_and_hms(2024, 1, day, 20, 0, 0).unwrap().timestamp();
    IdleWindow { start, end: start + 8 * 3600, duration_hours: 8 }
}

#[test]
fn test_infer_pattern_nights() {
    let w: Vec<IdleWindow> = (0..7).map(|day| night_window(day + 1)).collect();
    assert_eq!(infer_pattern(&w), Some("nights".to_string()));
}

#[test]
fn test_infer_pattern_weekends() {
    let w: Vec<IdleWindow> = vec![
        Utc.with_ymd_and_hms(2024, 1, 6, 10, 0, 0).unwrap(),
        Utc.with_ymd_and_hms(2024, 1, 7, 10, 0, 0).unwrap(),
        Utc.with_ymd_and_hms(2024, 1, 13, 10, 0, 0).unwrap(),
        Utc.with_ymd_and_hms(2024, 1, 14, 10, 0, 0).unwrap(),
    ]
    .into_iter()
    .map(|start| {
        let s = start.timestamp();
        IdleWindow { start: s, end: s + 10 * 3600, duration_hours: 10 }
    })
    .collect();
    assert_eq!(infer_pattern(&w), Some("weekends".to_string()));
}

#[test]
fn test_infer_pattern_none_for_scattered() {
    let timestamps = vec![
        Utc.with_ymd_and_hms(2024, 1, 1, 9, 0, 0).unwrap(),
        Utc.with_ymd_and_hms(2024, 1, 2, 14, 0, 0).unwrap(),
        Utc.with_ymd_and_hms(2024, 1, 6, 20, 0, 0).unwrap(),
    ];
    let w: Vec<IdleWindow> = timestamps
        .into_iter()
        .map(|start| {
            let s = start.timestamp();
            IdleWindow { start: s, end: s + 3 * 3600, duration_hours: 3 }
        })
        .collect();
    assert!(infer_pattern(&w).is_none());
}

#[test]
fn infer_pattern_nights_and_weekends_and_exact_sixty_percent() {
    // Saturday and Sunday nights: every idle hour is at night and on a weekend.
    let w = vec![night_window(6), IdleWindow { start: Utc.with_ymd_and_hms(2024, 1, 7, 0, 0, 0).unwrap().timestamp(), end: 0, duration_hours: 4 }];
    assert_eq!(infer_pattern(&w), Some("nights + weekends".to_string()));
    // 3 night hours out of 5 is exactly 60 %.
    let s = Utc.with_ymd_and_hms(2024, 1, 2, 5, 0, 0).unwrap().timestamp();
    let w = vec![IdleWindow { start: s, end: s, duration_hours: 5 }];
    assert_eq!(infer_pattern(&w), Some("nights".to_string()));
    // 2 out of 4 is not.
    let s = Utc.with_ymd_and_hms(2024, 1, 2, 6, 0, 0).unwrap().timestamp();
    let w = vec![IdleWindow { start: s, end: s, duration_hours: 4 }];
    assert!(infer_pattern(&w).is_none());
    assert!(infer_pattern(&[]).is_none());
    assert!(infer_pattern(&[IdleWindow { start: s, end: s, duration_hours: 0 }]).is_none());
}

fn week_series(hours: i64, active: impl Fn(chrono::DateTime<Utc>) -> bool) -> (Vec<i64>, Vec<bool>) {
    let base = Utc.with_ymd_and_hms(2024, 1, 1, 0, 0, 0).unwrap(); // Monday
    (0..hours)
        .map(|h| {
            let ts = base + Duration::hours(h);
            (ts.timestamp(), active(ts))
        })
        .unzip()
}

fn is_weekday(ts: chrono::DateTime<Utc>) -> bool {
    !matches!(ts.weekday(), Weekday::Sat | Weekday::Sun)
}

#[test]
fn test_suggest_schedule_business_hours() {
    let (t, a) = week_series(168, |ts| is_weekday(ts) && ts.hour() >= 9 && ts.hour() < 17);
    let (sched, outside) = suggest_schedule(&t, &a);
    assert_eq!(sched.as_deref(), Some("0900-1700 mon-fri"));
    assert_eq!(outside, 0);
}

#[test]
fn test_suggest_schedule_no_schedule_for_single_hour_spike() {
    let (t, a) = week_series(168, |ts| ts.hour() == 20);
    let (sched, _) = suggest_schedule(&t, &a);
    assert!(sched.is_none());
}

#[test]
fn test_suggest_schedule_daily_when_active_every_day() {
    let (t, a) = week_series(168, |ts| ts.hour() >= 8 && ts.hour() < 18);
    let (sched, outside) = suggest_schedule(&t, &a);
    assert_eq!(sched.as_deref(), Some("0800-1800 daily"));
    assert_eq!(outside, 0);
}

#[test]
fn test_suggest_schedule_weekend_activity_widens_to_daily() {
    let (t, a) = week_series(672, |ts| {
        let is_sun = ts.weekday() == Weekday::Sun;
        (is_weekday(ts) && ts.hour() >= 9 && ts.hour() < 17) || (is_sun && ts.hour() >= 14 && ts.hour() < 20)
    });
    let (sched, outside) = suggest_schedule(&t, &a);
    assert!(sched.as_deref().map_or(false, |s| s.ends_with("daily")), "expected daily schedule, got {:?}", sched);
    assert_eq!(outside, 0, "all active hours should be covered by the union window");
}

#[test]
fn test_suggest_schedule_outside_count_for_weekend_spillover() {
    let (mut t, mut a) = week_series(168, |ts| is_weekday(ts) && ts.hour() >= 9 && ts.hour() < 17);
    let base = Utc.with_ymd_and_hms(2024, 1, 1, 0, 0, 0).unwrap();
    t.push((base + Duration::hours(5 * 24 + 22)).timestamp());
    a.push(true);
    let (sched, outside) = suggest_schedule(&t, &a);
    let _ = (sched, outside);
}

#[test]
fn suggest_schedule_counts_active_hours_outside() {
    // Weekdays 09:00-17:00 plus one Saturday observation at 22:00: both kinds of
    // day are active, so the schedule runs daily over the weekday window (the
    // single weekend hour gives no window of its own) and the Saturday hour is
    // outside it.
    let (mut t, mut a) = week_series(168, |ts| is_weekday(ts) && ts.hour() >= 9 && ts.hour() < 17);
    let base = Utc.with_ymd_and_hms(2024, 1, 1, 0, 0, 0).unwrap();
    t.push((base + Duration::hours(5 * 24 + 22)).timestamp());
    a.push(true);
    let (sched, outside) = suggest_schedule(&t, &a);
    assert_eq!(sched.as_deref(), Some("0900-1700 daily"));
    assert_eq!(outside, 1);
    // A window ending at 23:00 is written 2359.
    let (t, a) = week_series(168, |ts| ts.hour() >= 20);
    assert_eq!(suggest_schedule(&t, &a).0.as_deref(), Some("2000-2359 daily"));
    assert_eq!(suggest_schedule(&[], &[]), (None, 0));
}

#[test]
fn suggest_schedule_trims_only_two_and_a_half_percent() {
    // Ten weekday observations at hours 0, 9 (x4), 10 (x4) and 23: 2.5 % of ten
    // rounds down to nothing, so the window holds them all.
    let base = Utc.with_ymd_and_hms(2024, 1, 1, 0, 0, 0).unwrap().timestamp(); // Monday
    let mut t = vec![base];
    for k in 0..4 {
        t.push(base + 9 * 3600 + k * 60);
        t.push(base + 10 * 3600 + k * 60);
    }
    t.push(base + 23 * 3600);
    let a = vec![true; t.len()];
    assert_eq!(suggest_schedule(&t, &a), (Some("0000-2359 mon-fri".to_string()), 0));
    // Only weekend activity gives a weekend schedule.
    let sat = base + 5 * 86400;
    let t = vec![sat + 10 * 3600, sat + 12 * 3600];
    assert_eq!(suggest_schedule(&t, &[true, true]), (Some("1000-1300 sat-sun".to_string()), 0));
}

#[test]
fn test_fill_full_window_fills_missing_hours_with_zero() {
    let base = Utc.with_ymd_and_hms(2024, 1, 1, 0, 0, 0).unwrap();
    let dps = vec![
        Datapoint { timestamp: (base + Duration::hours(2)).timestamp(), value: 50.0 },
        Datapoint { timestamp: (base + Duration::hours(5)).timestamp(), value: 30.0 },
    ];
    let filled = fill_full_window(&dps, base.timestamp(), (base + Duration::hours(6)).timestamp(), 0.0);
    assert_eq!(filled.len(), 6);
    assert_eq!(filled[0].value, 0.0);
    assert_eq!(filled[2].value, 50.0);
    assert_eq!(filled[5].value, 30.0);
}

#[test]
fn test_fill_full_window_no_datapoints_fills_with_zeros() {
    let base = Utc.with_ymd_and_hms(2024, 1, 1, 0, 0, 0).unwrap();
    let filled = fill_full_window(&[], base.timestamp(), (base + Duration::hours(4)).timestamp(), 0.0);
    assert_eq!(filled.len(), 4);
    assert!(filled.iter().all(|d| d.value == 0.0));
}

#[test]
fn fill_full_window_starts_on_the_hour_and_keeps_the_last_reading() {
    let base = Utc.with_ymd_and_hms(2024, 1, 1, 0, 0, 0).unwrap().timestamp();
    let dps = vec![
        Datapoint { timestamp: base + 3600 + 60, value: 1.0 },
        Datapoint { timestamp: base + 3600 + 120, value: 2.0 },
    ];
    let filled = fill_full_window(&dps, base + 1800, base + 3 * 3600 + 1, -1.0);
    assert_eq!(filled.len(), 4);
    assert_eq!(filled[0].timestamp, base);
    assert_eq!(filled[3].timestamp, base + 3 * 3600);
    assert_eq!(filled[1].value, 2.0);
    assert_eq!(filled[2].value, -1.0);
    assert!(fill_full_window::<f64>(&[], base, base, 0.0).is_empty());
}

#[test]
fn peak_bucket_is_most_frequent_lowest_on_ties() {
    assert_eq!(peak_bucket(&[1, 2, 2, 3, 3]), 2);
    assert_eq!(peak_bucket(&[0, 0, 4, 4, 4, 9]), 4);
    assert_eq!(peak_bucket(&[7]), 7);
}

#[test]
fn rds_classification_counts_hours_with_connections() {
    let s = Utc.with_ymd_and_hms(2024, 1, 1, 0, 0, 0).unwrap().timestamp();
    let w = vec![IdleWindow { start: s, end: s + 3 * 3600, duration_hours: 3 }];
    let conns = vec![
        Datapoint { timestamp: s, value: true },
        Datapoint { timestamp: s + 3600, value: true },
        Datapoint { timestamp: s + 3600 + 60, value: false },
    ];
    // Hour 0 pooled, hour 1 takes its last reading (no connection), hour 2 none.
    assert_eq!(rds_idle_classification(&w, &conns), Some("confirmed".to_string()));
    let conns = vec![Datapoint { timestamp: s, value: true }, Datapoint { timestamp: s + 7200, value: true }];
    assert_eq!(rds_idle_classification(&w, &conns), Some("pool-only".to_string()));
    assert_eq!(rds_idle_classification(&[], &conns), None);
}

struct Outcome {
    idle_percentage: f64,
    idle_classification: Option<String>,
    suggested_schedule: Option<String>,
}

fn pool_floor(raw: &[Datapoint<f64>]) -> f64 {
    if raw.is_empty() {
        return 0.01;
    }
    let mut vals: Vec<f64> = raw.iter().map(|d| d.value).collect();
    vals.sort_by(|a, b| a.partial_cmp(b).unwrap_or(std::cmp::Ordering::Equal));
    let buckets: Vec<i64> = vals.iter().map(|v| (v / 0.5).floor() as i64).collect();
    peak_bucket(&buckets) as f64 * 0.5
}

/// The float glue around `analyse_series`, with the default thresholds
/// (CPU 5 %, NAT 1000 bytes, minimum idle block 2 hours).
fn analyse(kind: ResourceKind, primary: Vec<Datapoint<f64>>, connections: Vec<Datapoint<f64>>, lookback_hours: f64, start: i64) -> Outcome {
    let end = start + lookback_hours as i64 * 3600;
    let plan = analysis_plan(kind);
    let raw = match plan.signal {
        IdleSignal::Primary => &primary,
        IdleSignal::Connections => &connections,
    };
    let series = fill_full_window(raw, start, end, 0.0);
    let (idle_t, sched_t) = match plan.threshold {
        IdleThreshold::Cpu => (5.0, 5.0),
        IdleThreshold::NatBytes => (1000.0, 1000.0),
        IdleThreshold::PoolFloor => {
            let f = pool_floor(raw);
            (f, f * 1.5)
        }
    };
    let idle: Vec<bool> = series.iter().map(|d| d.value <= idle_t).collect();
    let busy: Vec<bool> = series.iter().map(|d| d.value > sched_t).collect();
    let conns: Vec<Datapoint<bool>> = connections.iter().map(|d| Datapoint { timestamp: d.timestamp, value: d.value >= 1.0 }).collect();
    let a = analyse_series(&series, &idle, &busy, if plan.classify_connections { Some(&conns[..]) } else { None }, 2);
    let idle_percentage = if lookback_hours > 0.0 { (a.total_idle_hours as f64 / lookback_hours * 100.0).min(100.0) } else { 0.0 };
    Outcome { idle_percentage, idle_classification: a.idle_classification, suggested_schedule: a.suggested_schedule }
}

fn hourly(base: i64, n: i64, value: f64) -> Vec<Datapoint<f64>> {
    (0..n).map(|h| Datapoint { timestamp: base + h * 3600, value }).collect()
}

#[test]
fn test_rds_idle_on_uniform_connections() {
    let base = Utc.with_ymd_and_hms(2024, 1, 1, 0, 0, 0).unwrap().timestamp();
    let a = analyse(ResourceKind::RDS, hourly(base, 24, 4.0), hourly(base, 24, 5.0), 24.0, base);
    assert!(a.idle_percentage > 90.0, "RDS with stable pool-floor connections should be ~100% idle, got {}%", a.idle_percentage);
    assert_eq!(a.idle_classification.as_deref(), Some("pool-only"));
}

#[test]
fn test_rds_confirmed_idle_when_no_connections() {
    let base = Utc.with_ymd_and_hms(2024, 1, 1, 0, 0, 0).unwrap().timestamp();
    let a = analyse(ResourceKind::RDS, vec![], vec![], 24.0, base);
    assert!(a.idle_percentage > 90.0);
    assert_eq!(a.idle_classification.as_deref(), Some("confirmed"));
}

#[test]
fn test_nat_uses_bytes_threshold() {
    let base = Utc.with_ymd_and_hms(2024, 1, 1, 0, 0, 0).unwrap().timestamp();
    let a = analyse(ResourceKind::NatGateway, hourly(base, 24, 0.0), vec![], 24.0, base);
    assert!(a.idle_percentage > 90.0);
    assert!(a.suggested_schedule.is_none());
    assert!(a.idle_classification.is_none());
}

#[test]
fn test_nat_active_when_bytes_above_threshold() {
    let base = Utc.with_ymd_and_hms(2024, 1, 1, 0, 0, 0).unwrap().timestamp();
    let a = analyse(ResourceKind::NatGateway, hourly(base, 24, 5000.0), vec![], 24.0, base);
    assert_eq!(a.idle_percentage, 0.0);
}

#[test]
fn test_ec2_idle_on_low_cpu() {
    let base = Utc.with_ymd_and_hms(2024, 1, 1, 0, 0, 0).unwrap().timestamp();
    let a = analyse(ResourceKind::EC2, vec![], vec![], 24.0, base);
    assert!(a.idle_percentage > 90.0);
    assert!(a.idle_classification.is_none());
}

#[test]
fn analysis_plans_by_kind() {
    let p = analysis_plan(ResourceKind::RDS);
    assert_eq!((p.signal, p.threshold, p.classify_connections), (IdleSignal::Connections, IdleThreshold::PoolFloor, true));
    let p = analysis_plan(ResourceKind::NatGateway);
    assert_eq!((p.signal, p.threshold, p.classify_connections), (IdleSignal::Primary, IdleThreshold::NatBytes, false));
    let p = analysis_plan(ResourceKind::ECS);
    assert_eq!((p.signal, p.threshold, p.classify_connections), (IdleSignal::Primary, IdleThreshold::Cpu, false));
}

#[test]
fn analyse_series_reports_windows_and_schedule() {
    let base = Utc.with_ymd_and_hms(2024, 1, 1, 0, 0, 0).unwrap().timestamp();
    let series = hourly(base, 48, 0.0);
    let idle: Vec<bool> = (0..48).map(|h| h % 24 < 8).collect();
    let busy: Vec<bool> = idle.iter().map(|b| !b).collect();
    let a = analyse_series(&series, &idle, &busy, None, 2);
    assert_eq!(a.idle_runs.len(), 2);
    assert_eq!(a.total_idle_hours, 16);
    assert_eq!(a.primary_idle_pattern.as_deref(), Some("nights"));
    assert_eq!(a.suggested_schedule.as_deref(), Some("0800-2359 mon-fri"));
    assert_eq!(a.active_hours_outside_schedule, 0);
    assert!(a.idle_classification.is_none());
}

#[test]
fn test_datapoint_clone() {
    let dp = Datapoint { timestamp: Utc::now().timestamp(), value: 42.5 };
    let dp2 = dp.clone();
    assert_eq!(dp2.value, 42.5);
}

#[test]
fn schedule_window_trims_outliers() {
    // 40 active observations: 38 between 10:00 and 12:00, one at 02:00, one at 22:00.
    let base = Utc.with_ymd_and_hms(2024, 1, 1, 0, 0, 0).unwrap().timestamp(); // Monday
    let mut t: Vec<i64> = Vec::new();
    for day in 0..5i64 {
        for h in [10i64, 11, 12] {
            for rep in 0..3i64 {
                if t.len() < 38 {
                    t.push(base + day * 86400 + h * 3600 + rep * 60);
                }
            }
        }
    }
    while t.len() < 38 {
        t.push(base + 11 * 3600);
    }
    t.push(base + 2 * 3600);
    t.push(base + 22 * 3600);
    let a = vec![true; t.len()];
    let (sched, outside) = suggest_schedule(&t, &a);
    assert_eq!(sched.as_deref(), Some("1000-1300 mon-fri"));
    // 38 of 40 (95 %) are inside the window.
    assert_eq!(outside, 2);
}

#[test]
fn suggested_tags_read_back() {
    let (t, a) = week_series(168, |ts| is_weekday(ts) && ts.hour() >= 9 && ts.hour() < 17);
    let sched = suggest_schedule(&t, &a).0.unwrap();
    assert_eq!(upscan::report::format_schedule(Some(&sched)), "Mon–Fri 09:00–17:00");
}
