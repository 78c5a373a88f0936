//! Which metrics are fetched for each kind of resource, how a long lookback is cut
//! into requests, and how the datapoints of a response are read.
use vstd::prelude::*;

use crate::idle::sorted_points;
use crate::kinds::{ResourceKind, kind_code_of};
use crate::series::{Datapoint, stable_order, lemma_time_order, timestamps_of};
use crate::text::{split_at_first, split_once};
use crate::time::{representable, MIN_TIMESTAMP, MAX_TIMESTAMP};

verus! {

/// The statistic asked of a metric.
#[derive(Debug, Clone, Copy, PartialEq, Eq, Structural)]
pub enum Statistic {
    Average,
    Sum,
    Maximum,
}

/// One metric query: where the metric lives, which statistic, at what period.
pub struct MetricConfig {
    pub namespace: String,
    pub metric_name: String,
    pub dimensions: Vec<(String, String)>,
    pub statistic: Statistic,
    /// Aggregation period in seconds (300 = five minutes, 3600 = one hour).
    pub period: u32,
}

/// What is done with the datapoints of a query before analysis.
#[derive(Debug, Clone, Copy, PartialEq, Eq, Structural)]
pub enum Aggregation {
    /// Kept as they come.
    AsIs,
    /// Averaged per clock hour.
    HourlyMean,
    /// Summed per clock hour.
    HourlySum,
}

/// A metric to fetch for a resource, and where its series goes.
pub struct MetricFetch {
    pub config: MetricConfig,
    /// `None` for the primary series, else the name of the secondary series.
    pub slot: Option<String>,
    /// Whether a failed query fails the whole resource; an optional metric that
    /// fails is an empty series.
    pub required: bool,
    /// Whether the lookback is cut into chunks (`metric_chunks`).
    pub chunked: bool,
    pub aggregation: Aggregation,
}

/// `f` is the fetch described by the other arguments.
pub open spec fn fetch_is(
    f: MetricFetch,
    namespace: Seq<char>,
    name: Seq<char>,
    dims: Seq<(Seq<char>, Seq<char>)>,
    stat: Statistic,
    period: u32,
    slot: Option<Seq<char>>,
    required: bool,
    chunked: bool,
    aggregation: Aggregation,
) -> bool {
    &&& f.config.namespace@ == namespace
    &&& f.config.metric_name@ == name
    &&& f.config.dimensions@.len() == dims.len()
    &&& forall|i: int|
        0 <= i < dims.len() ==> (#[trigger] f.config.dimensions@[i]).0@ == dims[i].0
            && f.config.dimensions@[i].1@ == dims[i].1
    &&& f.config.statistic == stat
    &&& f.config.period == period
    &&& match slot {
        None => f.slot is None,
        Some(s) => f.slot matches Some(t) && t@ == s,
    }
    &&& f.required == required
    &&& f.chunked == chunked
    &&& f.aggregation == aggregation
}

/// The cluster and service of an ECS resource id `"cluster/service"`; an id
/// without a `/` is all cluster, with an empty service.
pub open spec fn cluster_and_service(id: Seq<char>) -> (Seq<char>, Seq<char>) {
    match split_once(id, '/') {
        Some(p) => p,
        None => (id, Seq::empty()),
    }
}

/// The fetches for a resource of kind `kind` with id `id`, in order:
/// - EC2: hourly average CPU (primary), then hourly average packets in, optional;
/// - ECS: hourly average CPU (primary), then hourly average memory, optional;
/// - RDS: hourly average CPU (primary); five-minute average connections over
///   chunks, averaged per hour; hourly average read and write IOPS, optional;
/// - NAT gateway: five-minute sums of bytes out over chunks, summed per hour (primary).
pub open spec fn planned_fetches(kind: ResourceKind, id: Seq<char>, r: Seq<MetricFetch>) -> bool {
    match kind {
        ResourceKind::EC2 => {
            let dims = seq![("InstanceId"@, id)];
            &&& r.len() == 2
            &&& fetch_is(r[0], "AWS/EC2"@, "CPUUtilization"@, dims, Statistic::Average, 3600, None, true, false, Aggregation::AsIs)
            &&& fetch_is(r[1], "AWS/EC2"@, "NetworkPacketsIn"@, dims, Statistic::Average, 3600, Some("network_packets_in"@), false, false, Aggregation::AsIs)
        },
        ResourceKind::ECS => {
            let cs = cluster_and_service(id);
            let dims = seq![("ClusterName"@, cs.0), ("ServiceName"@, cs.1)];
            &&& r.len() == 2
            &&& fetch_is(r[0], "AWS/ECS"@, "CPUUtilization"@, dims, Statistic::Average, 3600, None, true, false, Aggregation::AsIs)
            &&& fetch_is(r[1], "AWS/ECS"@, "MemoryUtilization"@, dims, Statistic::Average, 3600, Some("memory"@), false, false, Aggregation::AsIs)
        },
        ResourceKind::RDS => {
            let dims = seq![("DBInstanceIdentifier"@, id)];
            &&& r.len() == 4
            &&& fetch_is(r[0], "AWS/RDS"@, "CPUUtilization"@, dims, Statistic::Average, 3600, None, true, false, Aggregation::AsIs)
            &&& fetch_is(r[1], "AWS/RDS"@, "DatabaseConnections"@, dims, Statistic::Average, 300, Some("connections"@), true, true, Aggregation::HourlyMean)
            &&& fetch_is(r[2], "AWS/RDS"@, "ReadIOPS"@, dims, Statistic::Average, 3600, Some("read_iops"@), false, false, Aggregation::AsIs)
            &&& fetch_is(r[3], "AWS/RDS"@, "WriteIOPS"@, dims, Statistic::Average, 3600, Some("write_iops"@), false, false, Aggregation::AsIs)
        },
        ResourceKind::NatGateway => {
            let dims = seq![("NatGatewayId"@, id)];
            &&& r.len() == 1
            &&& fetch_is(r[0], "AWS/NATGateway"@, "BytesOutToDestination"@, dims, Statistic::Sum, 300, None, true, true, Aggregation::HourlySum)
        },
    }
}

fn dimension(name: &str, value: &str) -> (d: (String, String))
    ensures
        d.0@ == name@,
        d.1@ == value@,
{
    (String::from_str(name), String::from_str(value))
}

fn fetch(
    namespace: &str,
    name: &str,
    dims: Vec<(String, String)>,
    statistic: Statistic,
    period: u32,
    slot: Option<&str>,
    required: bool,
    chunked: bool,
    aggregation: Aggregation,
) -> (f: MetricFetch)
    ensures
        f.config.namespace@ == namespace@,
        f.config.metric_name@ == name@,
        f.config.dimensions@ == dims@,
        f.config.statistic == statistic,
        f.config.period == period,
        match slot {
            None => f.slot is None,
            Some(s) => f.slot matches Some(t) && t@ == s@,
        },
        f.required == required,
        f.chunked == chunked,
        f.aggregation == aggregation,
{
    let slot = match slot {
        None => None,
        Some(s) => Some(String::from_str(s)),
    };
    MetricFetch {
        config: MetricConfig {
            namespace: String::from_str(namespace),
            metric_name: String::from_str(name),
            dimensions: dims,
            statistic,
            period,
        },
        slot,
        required,
        chunked,
        aggregation,
    }
}

/// The metrics to fetch for a resource (see `planned_fetches`).
pub fn metric_fetches(kind: ResourceKind, id: &str) -> (r: Vec<MetricFetch>)
    ensures
        planned_fetches(kind, id@, r@),
{
    let mut r: Vec<MetricFetch> = Vec::new();
    match kind {
        ResourceKind::EC2 => {
            r.push(fetch("AWS/EC2", "CPUUtilization", vec![dimension("InstanceId", id)], Statistic::Average, 3600, None, true, false, Aggregation::AsIs));
            r.push(fetch("AWS/EC2", "NetworkPacketsIn", vec![dimension("InstanceId", id)], Statistic::Average, 3600, Some("network_packets_in"), false, false, Aggregation::AsIs));
        },
        ResourceKind::ECS => {
            let (cluster, service) = match split_at_first(id, '/') {
                Some((c, s)) => (c, s),
                None => (String::from_str(id), String::new()),
            };
            let d1 = vec![dimension("ClusterName", cluster.as_str()), dimension("ServiceName", service.as_str())];
            let d2 = vec![dimension("ClusterName", cluster.as_str()), dimension("ServiceName", service.as_str())];
            r.push(fetch("AWS/ECS", "CPUUtilization", d1, Statistic::Average, 3600, None, true, false, Aggregation::AsIs));
            r.push(fetch("AWS/ECS", "MemoryUtilization", d2, Statistic::Average, 3600, Some("memory"), false, false, Aggregation::AsIs));
        },
        ResourceKind::RDS => {
            r.push(fetch("AWS/RDS", "CPUUtilization", vec![dimension("DBInstanceIdentifier", id)], Statistic::Average, 3600, None, true, false, Aggregation::AsIs));
            r.push(fetch("AWS/RDS", "DatabaseConnections", vec![dimension("DBInstanceIdentifier", id)], Statistic::Average, 300, Some("connections"), true, true, Aggregation::HourlyMean));
            r.push(fetch("AWS/RDS", "ReadIOPS", vec![dimension("DBInstanceIdentifier", id)], Statistic::Average, 3600, Some("read_iops"), false, false, Aggregation::AsIs));
            r.push(fetch("AWS/RDS", "WriteIOPS", vec![dimension("DBInstanceIdentifier", id)], Statistic::Average, 3600, Some("write_iops"), false, false, Aggregation::AsIs));
        },
        ResourceKind::NatGateway => {
            r.push(fetch("AWS/NATGateway", "BytesOutToDestination", vec![dimension("NatGatewayId", id)], Statistic::Sum, 300, None, true, true, Aggregation::HourlySum));
        },
    }
    r
}

/// The statistics requested for a metric: its own, and the average too for a sum
/// (some metrics report a requested sum in the average).
pub fn requested_statistics(stat: Statistic) -> (r: Vec<Statistic>)
    ensures
        r@ == (if stat == Statistic::Sum {
            seq![Statistic::Sum, Statistic::Average]
        } else {
            seq![stat]
        }),
{
    if stat == Statistic::Sum {
        vec![Statistic::Sum, Statistic::Average]
    } else {
        vec![stat]
    }
}

/// Longest span of one request: 1440 five-minute periods (five days).
pub const CHUNK_SECS: i64 = 432000;

/// The request windows that cover `[start, end)`: consecutive spans of
/// `CHUNK_SECS` from `start`, the last one cut at `end`; none when `end <= start`.
pub open spec fn chunks_of(start: int, end: int) -> Seq<(i64, i64)> {
    let n = if end <= start { 0 } else { (end - start + 431999) / 432000 };
    Seq::new(
        n as nat,
        |k: int|
            (
                (start + 432000 * k) as i64,
                (if start + 432000 * (k + 1) < end { start + 432000 * (k + 1) } else { end }) as i64,
            ),
    )
}

/// Cuts the lookback `[start, end)` (whole seconds) into request windows of at
/// most five days (see `chunks_of`).
pub fn metric_chunks(start: i64, end: i64) -> (r: Vec<(i64, i64)>)
    requires
        representable(start as int),
        representable(end as int),
    ensures
        r@ == chunks_of(start as int, end as int),
{
    let mut r: Vec<(i64, i64)> = Vec::new();
    let mut s = start;
    let ghost n: int = if end <= start { 0 } else { (end - start + 431999) / 432000 };
    while s < end
        invariant
            representable(start as int),
            representable(end as int),
            n == (if end <= start { 0 } else { (end - start + 431999) / 432000 }),
            s == start + 432000 * r@.len() || (s == end && r@.len() == n),
            s < end ==> r@.len() < n,
            r@.len() <= n,
            start <= s,
            s <= end || r@.len() == 0,
            forall|k: int| 0 <= k < r@.len() ==> #[trigger] r@[k] == chunks_of(start as int, end as int)[k],
        decreases end - s,
    {
        let ghost k = r@.len() as int;
        let e = if s < end - CHUNK_SECS { s + CHUNK_SECS } else { end };
        proof {
            assert(s == start + 432000 * k);
            assert(k < n);
            assert(chunks_of(start as int, end as int)[k] == (s, e));
            if e < end {
                assert(start + 432000 * (k + 1) < end);
                assert(k + 1 < n) by (nonlinear_arith)
                    requires
                        start + 432000 * (k + 1) < end,
                        n == (end - start + 431999) / 432000,
                ;
            } else {
                assert(k + 1 >= n) by (nonlinear_arith)
                    requires
                        start + 432000 * (k + 1) >= end,
                        n == (end - start + 431999) / 432000,
                        end > start,
                ;
            }
        }
        r.push((s, e));
        s = e;
    }
    proof {
        if end <= start {
            assert(n == 0);
        } else {
            assert(r@.len() == n) by {
                if r@.len() < n {
                    assert(s == start + 432000 * r@.len());
                    assert(start + 432000 * r@.len() < end) by (nonlinear_arith)
                        requires
                            r@.len() < n,
                            n == (end - start + 431999) / 432000,
                        ;
                }
            }
        }
    }
    assert(r@ =~= chunks_of(start as int, end as int));
    r
}

/// A datapoint as a metrics response gives it: any part of it may be missing.
pub struct RawDatapoint<V> {
    pub timestamp: Option<i64>,
    pub average: Option<V>,
    pub sum: Option<V>,
    pub maximum: Option<V>,
}

/// The value that a datapoint holds for the statistic: the maximum, the average,
/// or for a sum the sum when present and else the average.
pub open spec fn picked_value<V>(stat: Statistic, d: RawDatapoint<V>) -> Option<V> {
    match stat {
        Statistic::Maximum => d.maximum,
        Statistic::Sum => match d.sum {
            Some(v) => Some(v),
            None => d.average,
        },
        Statistic::Average => d.average,
    }
}

/// The datapoints of a response that have an instant a UTC date-time can hold and
/// a value for the statistic, in response order.
pub open spec fn usable_points<V>(stat: Statistic, raw: Seq<RawDatapoint<V>>) -> Seq<Datapoint<V>>
    decreases raw.len(),
{
    if raw.len() == 0 {
        Seq::empty()
    } else {
        let prev = usable_points(stat, raw.drop_last());
        let d = raw.last();
        match (d.timestamp, picked_value(stat, d)) {
            (Some(t), Some(v)) => if representable(t as int) {
                prev.push(Datapoint { timestamp: t, value: v })
            } else {
                prev
            },
            _ => prev,
        }
    }
}

fn pick<V: Copy>(stat: Statistic, d: &RawDatapoint<V>) -> (v: Option<V>)
    ensures
        v == picked_value(stat, *d),
{
    match stat {
        Statistic::Maximum => d.maximum,
        Statistic::Sum => match d.sum {
            Some(v) => Some(v),
            None => d.average,
        },
        Statistic::Average => d.average,
    }
}

/// The points of `d` sorted by time, equal instants kept in order.
pub fn sort_by_time<V: Copy>(d: &[Datapoint<V>]) -> (r: Vec<Datapoint<V>>)
    ensures
        r@ == sorted_points(d@),
{
    let ts = crate::series::timestamps(d);
    let order = stable_order(&ts);
    proof {
        lemma_time_order(ts@, order@);
    }
    let mut r: Vec<Datapoint<V>> = Vec::new();
    let mut k: usize = 0;
    while k < order.len()
        invariant
            order@.len() == d@.len(),
            order@ == crate::series::time_order(timestamps_of(d@)),
            forall|j: int| 0 <= j < order@.len() ==> (#[trigger] order@[j]) < d@.len(),
            k <= order@.len(),
            r@ =~= sorted_points(d@).take(k as int),
        decreases order@.len() - k,
    {
        let i = order[k];
        r.push(Datapoint { timestamp: d[i].timestamp, value: d[i].value });
        k = k + 1;
    }
    r
}

/// Reads the datapoints of a metrics response: those with an instant a UTC
/// date-time can hold and a value for the statistic (`usable_points`), sorted by
/// time, equal instants in response order.
pub fn read_datapoints<V: Copy>(stat: Statistic, raw: &[RawDatapoint<V>]) -> (r: Vec<Datapoint<V>>)
    ensures
        r@ == sorted_points(usable_points(stat, raw@)),
{
    let mut kept: Vec<Datapoint<V>> = Vec::new();
    let mut i: usize = 0;
    while i < raw.len()
        invariant
            i <= raw@.len(),
            kept@ == usable_points(stat, raw@.take(i as int)),
        decreases raw@.len() - i,
    {
        proof {
            assert(raw@.take(i + 1).drop_last() =~= raw@.take(i as int));
        }
        let d = &raw[i];
        let v = pick(stat, d);
        match (d.timestamp, v) {
            (Some(t), Some(v)) => {
                if MIN_TIMESTAMP <= t && t <= MAX_TIMESTAMP {
                    kept.push(Datapoint { timestamp: t, value: v });
                }
            },
            _ => {},
        }
        i = i + 1;
    }
    assert(raw@.take(raw@.len() as int) =~= raw@);
    sort_by_time(kept.as_slice())
}

/// The request windows tile the lookback: there is at least one, the first starts
/// at `start`, each ends where the next starts, the last ends at `end`, and each
/// spans more than nothing and at most `CHUNK_SECS`.
pub proof fn lemma_chunks_tile(start: int, end: int)
    requires
        representable(start),
        representable(end),
        start < end,
    ensures
        chunks_of(start, end).len() > 0,
        chunks_of(start, end)[0].0 == start,
        chunks_of(start, end)[chunks_of(start, end).len() - 1].1 == end,
        forall|k: int|
            0 <= k < chunks_of(start, end).len() - 1 ==> (#[trigger] chunks_of(start, end)[k]).1
                == chunks_of(start, end)[k + 1].0,
        forall|k: int|
            0 <= k < chunks_of(start, end).len() ==> (#[trigger] chunks_of(start, end)[k]).0
                < chunks_of(start, end)[k].1 <= chunks_of(start, end)[k].0 + 432000,
{
    let c = chunks_of(start, end);
    let n = (end - start + 431999) / 432000;
    assert(n >= 1);
    assert(start + 432000 * (n - 1) < end) by (nonlinear_arith)
        requires
            n == (end - start + 431999) / 432000,
            start < end,
    ;
    assert(start + 432000 * n >= end) by (nonlinear_arith)
        requires
            n == (end - start + 431999) / 432000,
            start < end,
    ;
    assert forall|k: int| 0 <= k < c.len() implies (#[trigger] c[k]).0 < c[k].1 <= c[k].0 + 432000
        && c[k].0 == start + 432000 * k by {
        assert(start + 432000 * k <= start + 432000 * (n - 1)) by (nonlinear_arith)
            requires
                k <= n - 1,
        ;
    }
    assert forall|k: int| 0 <= k < c.len() - 1 implies (#[trigger] c[k]).1 == c[k + 1].0 by {
        assert(start + 432000 * (k + 1) <= start + 432000 * (n - 1)) by (nonlinear_arith)
            requires
                k + 1 <= n - 1,
        ;
    }
}

/// Every resource has one primary series, fetched first and required, and its
/// other series are fetched under names of their own: the primary series of an
/// EC2 instance, ECS service or database is its hourly average CPU utilisation,
/// that of a NAT gateway the bytes it sends, summed; no secondary series has the
/// primary's metric name. All the series of a resource come from the namespace
/// of its kind, "AWS/" and the kind's code ("AWS/NATGateway" for a NAT gateway),
/// and are asked for with the same dimensions, which for any kind but an ECS
/// service are one, whose value is the resource id.
pub proof fn lemma_primary_fetch(kind: ResourceKind, id: Seq<char>, r: Seq<MetricFetch>)
    requires
        planned_fetches(kind, id, r),
    ensures
        kind != ResourceKind::NatGateway ==> r[0].config.namespace@ == "AWS/"@ + kind_code_of(kind),
        kind == ResourceKind::NatGateway ==> r[0].config.namespace@ == "AWS/NATGateway"@,
        kind != ResourceKind::ECS ==> r[0].config.dimensions@.len() == 1
            && r[0].config.dimensions@[0].1@ == id,
        forall|j: int|
            0 <= j < r.len() ==> (#[trigger] r[j]).config.namespace@ == r[0].config.namespace@
                && r[j].config.dimensions@.len() == r[0].config.dimensions@.len(),
        forall|j: int, i: int|
            0 <= j < r.len() && 0 <= i < r[0].config.dimensions@.len() ==>
                (#[trigger] r[j].config.dimensions@[i]).0@ == r[0].config.dimensions@[i].0@
                && r[j].config.dimensions@[i].1@ == r[0].config.dimensions@[i].1@,
        r.len() >= 1,
        r[0].slot is None,
        r[0].required,
        kind != ResourceKind::NatGateway ==> r[0].config.metric_name@ == "CPUUtilization"@
            && r[0].config.statistic == Statistic::Average && r[0].config.period == 3600,
        kind == ResourceKind::NatGateway ==> r[0].config.metric_name@ == "BytesOutToDestination"@
            && r[0].config.statistic == Statistic::Sum,
        forall|j: int|
            1 <= j < r.len() ==> (#[trigger] r[j]).slot is Some && r[j].config.metric_name@
                != r[0].config.metric_name@,
{
    reveal_strlit("AWS/");
    reveal_strlit("EC2");
    reveal_strlit("ECS");
    reveal_strlit("RDS");
    reveal_strlit("AWS/EC2");
    reveal_strlit("AWS/ECS");
    reveal_strlit("AWS/RDS");
    assert("AWS/"@ + "EC2"@ =~= "AWS/EC2"@);
    assert("AWS/"@ + "ECS"@ =~= "AWS/ECS"@);
    assert("AWS/"@ + "RDS"@ =~= "AWS/RDS"@);
    reveal_strlit("CPUUtilization");
    reveal_strlit("NetworkPacketsIn");
    reveal_strlit("MemoryUtilization");
    reveal_strlit("DatabaseConnections");
    reveal_strlit("ReadIOPS");
    reveal_strlit("WriteIOPS");
    assert forall|j: int| 1 <= j < r.len() implies (#[trigger] r[j]).slot is Some && r[j].config.metric_name@
        != r[0].config.metric_name@ by {
        assert(r[j].config.metric_name@[0] != r[0].config.metric_name@[0]);
    }
}

} // verus!
