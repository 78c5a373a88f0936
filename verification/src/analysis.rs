//! The analysis of one resource: which metric tells when it is idle, and what its
//! idle windows, idle pattern, connection use and suggested schedule are.
use vstd::prelude::*;

use crate::idle::{
    IdleRun, IdleWindow, detect_idle_windows, windows_of, qualifying_starts, run_values,
    sum_durations, lemma_sorted_identity, lemma_windows_on_grid, lemma_idle_hours_within_series,
};
use crate::kinds::ResourceKind;
use crate::pattern::{infer_pattern, pattern_of, rds_idle_classification, classification_of, total_hours, lemma_counts_fit};
use crate::schedule::{suggest_schedule, plan_for, schedule_text, count_outside, count_active};
use crate::series::{Datapoint, hourly_grid, timestamps, timestamps_of};
use crate::time::{MAX_TIMESTAMP, MIN_TIMESTAMP};

verus! {

/// The metric whose hourly series tells when a resource is idle.
#[derive(Debug, Clone, Copy, PartialEq, Eq, Structural)]
pub enum IdleSignal {
    /// The primary metric: CPU utilisation, or the bytes a NAT gateway sends.
    Primary,
    /// The number of open database connections.
    Connections,
}

/// The threshold at or below which an hour of the idle signal is idle.
#[derive(Debug, Clone, Copy, PartialEq, Eq, Structural)]
pub enum IdleThreshold {
    /// The CPU threshold, in percent.
    Cpu,
    /// The hourly byte count below which a NAT gateway is idle.
    NatBytes,
    /// The connection pool floor of the database (see `peak_bucket`); only hours
    /// with half as many connections again anchor its schedule.
    PoolFloor,
}

/// How a resource of some kind is analysed.
#[derive(Debug, Clone, Copy, PartialEq, Eq, Structural)]
pub struct AnalysisPlan {
    /// The metric that decides idleness, and that the heatmap shows.
    pub signal: IdleSignal,
    /// The threshold for that metric.
    pub threshold: IdleThreshold,
    /// Whether idle hours are told apart by open connections (databases only).
    pub classify_connections: bool,
}

/// Databases are idle by their connections, held against their pool floor, and
/// their idle hours are classified; NAT gateways are idle by bytes sent; other
/// resources by CPU.
pub open spec fn plan_of_kind(kind: ResourceKind) -> AnalysisPlan {
    match kind {
        ResourceKind::RDS => AnalysisPlan {
            signal: IdleSignal::Connections,
            threshold: IdleThreshold::PoolFloor,
            classify_connections: true,
        },
        ResourceKind::NatGateway => AnalysisPlan {
            signal: IdleSignal::Primary,
            threshold: IdleThreshold::NatBytes,
            classify_connections: false,
        },
        _ => AnalysisPlan {
            signal: IdleSignal::Primary,
            threshold: IdleThreshold::Cpu,
            classify_connections: false,
        },
    }
}

/// Which resources are judged by what: EC2 instances and ECS services alike by CPU
/// against the CPU threshold; only NAT gateways by the bytes they send against the
/// byte threshold; only databases by their connections, against their pool floor,
/// and only their idle hours are classified.
pub proof fn lemma_plan_by_kind(k: ResourceKind)
    ensures
        plan_of_kind(ResourceKind::EC2) == plan_of_kind(ResourceKind::ECS),
        (plan_of_kind(k).threshold == IdleThreshold::Cpu) <==> (k == ResourceKind::EC2 || k == ResourceKind::ECS),
        (plan_of_kind(k).threshold == IdleThreshold::NatBytes) <==> (k == ResourceKind::NatGateway),
        (plan_of_kind(k).threshold == IdleThreshold::PoolFloor) <==> (k == ResourceKind::RDS),
        (plan_of_kind(k).signal == IdleSignal::Connections) <==> (k == ResourceKind::RDS),
        plan_of_kind(k).classify_connections <==> (k == ResourceKind::RDS),
{
}

/// How a resource of kind `kind` is analysed (see `plan_of_kind`).
pub fn analysis_plan(kind: ResourceKind) -> (p: AnalysisPlan)
    ensures
        p == plan_of_kind(kind),
{
    match kind {
        ResourceKind::RDS => AnalysisPlan {
            signal: IdleSignal::Connections,
            threshold: IdleThreshold::PoolFloor,
            classify_connections: true,
        },
        ResourceKind::NatGateway => AnalysisPlan {
            signal: IdleSignal::Primary,
            threshold: IdleThreshold::NatBytes,
            classify_connections: false,
        },
        _ => AnalysisPlan {
            signal: IdleSignal::Primary,
            threshold: IdleThreshold::Cpu,
            classify_connections: false,
        },
    }
}

/// What the hourly idle signal of a resource shows.
pub struct SeriesAnalysis<V> {
    /// The idle windows, each with the values observed inside it.
    pub idle_runs: Vec<IdleRun<V>>,
    /// Total number of idle hours in the windows.
    pub total_idle_hours: u64,
    /// "nights", "weekends" or "nights + weekends", when the idle hours have one.
    pub primary_idle_pattern: Option<String>,
    /// "pool-only" or "confirmed", for databases with idle windows.
    pub idle_classification: Option<String>,
    /// The suggested schedule tag, e.g. "0900-1700 mon-fri".
    pub suggested_schedule: Option<String>,
    /// Active hours that the suggested schedule would leave out.
    pub active_hours_outside_schedule: u32,
}

proof fn lemma_total_is_sum(ws: Seq<IdleWindow>, m: int)
    requires
        0 <= m <= ws.len(),
    ensures
        total_hours(ws, m) == sum_durations(ws.take(m)),
    decreases m,
{
    if m > 0 {
        lemma_total_is_sum(ws, m - 1);
        assert(ws.take(m).drop_last() =~= ws.take(m - 1));
    }
}

proof fn lemma_sum_prefix(ws: Seq<IdleWindow>, m: int)
    requires
        0 <= m <= ws.len(),
    ensures
        sum_durations(ws.take(m)) <= sum_durations(ws),
    decreases ws.len() - m,
{
    if m < ws.len() {
        lemma_sum_prefix(ws, m + 1);
        assert(ws.take(m + 1).drop_last() =~= ws.take(m));
    } else {
        assert(ws.take(m) =~= ws);
    }
}

/// Analyses the hourly idle signal of a resource. `series` holds one point per hour
/// (as `fill_full_window` builds it); `idle[i]` tells whether hour `i` is at or below
/// the idle threshold, `busy[i]` whether it is above the threshold that anchors the
/// schedule. `connections`, for a database, tells for each connection reading
/// whether at least one connection was open.
///
/// The idle windows are the runs of at least `min_idle_hours` idle hours
/// (`windows_of`); their pattern is `pattern_of`, their classification
/// `classification_of`, and the schedule is `plan_for` the busy hours.
pub fn analyse_series<V: Copy>(
    series: &[Datapoint<V>],
    idle: &[bool],
    busy: &[bool],
    connections: Option<&[Datapoint<bool>]>,
    min_idle_hours: u64,
) -> (a: SeriesAnalysis<V>)
    requires
        hourly_grid(series@),
        idle@.len() == series@.len(),
        busy@.len() == series@.len(),
        series@.len() < 0x4_0000_0000_0000,
        connections is Some ==> series@.len() <= u32::MAX,
    ensures
        ({
            let ws = windows_of(series@, idle@, min_idle_hours as int);
            let qs = qualifying_starts(idle@, min_idle_hours as int, idle@.len() as int);
            &&& a.idle_runs@.len() == ws.len()
            &&& forall|j: int|
                0 <= j < ws.len() ==> (#[trigger] a.idle_runs@[j]).window == ws[j]
                    && a.idle_runs@[j].values@ == run_values(series@, idle@, qs[j])
            &&& a.total_idle_hours == sum_durations(ws)
            &&& a.total_idle_hours <= series@.len()
            &&& match pattern_of(ws) {
                None => a.primary_idle_pattern is None,
                Some(s) => a.primary_idle_pattern matches Some(t) && t@ == s,
            }
            &&& match connections {
                None => a.idle_classification is None,
                Some(c) => match classification_of(ws, c@) {
                    None => a.idle_classification is None,
                    Some(s) => a.idle_classification matches Some(t) && t@ == s,
                },
            }
            &&& match plan_for(timestamps_of(series@), busy@) {
                None => a.suggested_schedule is None && a.active_hours_outside_schedule == 0,
                Some(p) => {
                    &&& a.suggested_schedule matches Some(s) && s@ == schedule_text(p)
                    &&& a.active_hours_outside_schedule == count_outside(
                        timestamps_of(series@),
                        busy@,
                        p,
                        series@.len() as int,
                    ) as u32
                },
            }
            &&& count_active(busy@, busy@.len() as int) <= u32::MAX ==> a.active_hours_outside_schedule
                <= count_active(busy@, busy@.len() as int)
        }),
{
    let ghost d = series@;
    let ghost min = min_idle_hours as int;
    let ghost ws = windows_of(d, idle@, min);
    let n = series.len();
    proof {
        assert(d.len() == n);
        assert forall|x: int, y: int| 0 <= x < y < d.len() implies d[x].timestamp < d[y].timestamp by {
            assert(d[x].timestamp == d[0].timestamp + 3600 * x);
            assert(d[y].timestamp == d[0].timestamp + 3600 * y);
        }
        lemma_sorted_identity(d, idle@);
        lemma_windows_on_grid(d, idle@, min);
        lemma_idle_hours_within_series(d, idle@, min);
        assert forall|i: int| 0 <= i < d.len() implies MIN_TIMESTAMP <= #[trigger] d[i].timestamp
            <= MAX_TIMESTAMP by {
            assert(d[i].timestamp == d[0].timestamp + 3600 * i);
        }
        if d.len() > 0 {
            assert(d[d.len() - 1].timestamp == d[0].timestamp + 3600 * (d.len() - 1));
        }
    }
    let runs = detect_idle_windows(series, idle, min_idle_hours);
    let mut windows: Vec<IdleWindow> = Vec::new();
    let mut total: u64 = 0;
    let mut j: usize = 0;
    while j < runs.len()
        invariant
            runs@.len() == ws.len(),
            forall|k: int| 0 <= k < ws.len() ==> (#[trigger] runs@[k]).window == ws[k],
            sum_durations(ws) <= d.len(),
            d.len() < 0x4_0000_0000_0000,
            j <= runs@.len(),
            windows@ == ws.take(j as int),
            total == sum_durations(ws.take(j as int)),
        decreases runs@.len() - j,
    {
        let w = runs[j].window;
        proof {
            assert(ws.take(j + 1).drop_last() =~= ws.take(j as int));
            lemma_sum_prefix(ws, j + 1);
        }
        windows.push(w);
        total = total + w.duration_hours;
        j = j + 1;
    }
    proof {
        assert(ws.take(j as int) =~= ws);
        lemma_total_is_sum(ws, ws.len() as int);
    }
    let pattern = infer_pattern(windows.as_slice());
    let classification = match connections {
        None => None,
        Some(c) => {
            proof {
                lemma_counts_fit(ws, c@);
            }
            rds_idle_classification(windows.as_slice(), c)
        },
    };
    let ts = timestamps(series);
    let (schedule, outside) = suggest_schedule(ts.as_slice(), busy);
    SeriesAnalysis {
        idle_runs: runs,
        total_idle_hours: total,
        primary_idle_pattern: pattern,
        idle_classification: classification,
        suggested_schedule: schedule,
        active_hours_outside_schedule: outside,
    }
}

} // verus!
