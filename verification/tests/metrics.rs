use upscan::kinds::ResourceKind;
use upscan::metrics::{metric_chunks, metric_fetches, read_datapoints, requested_statistics, Aggregation, RawDatapoint, Statistic};
use upscan::series::hourly_groups;

fn dims(f: &upscan::metrics::MetricFetch) -> Vec<(&str, &str)> {
    f.config.dimensions.iter().map(|(k, v)| (k.as_str(), v.as_str())).collect()
}

#[test]
fn test_ec2_metric_config_sanity() {
    let f = metric_fetches(ResourceKind::EC2, "i-0abc123");
    assert_eq!(f.len(), 2);
    assert_eq!(f[0].config.namespace, "AWS/EC2");
    assert_eq!(f[0].config.metric_name, "CPUUtilization");
    assert_eq!(dims(&f[0]), vec![("InstanceId", "i-0abc123")]);
    assert_eq!(f[0].config.period, 3600);
    assert!(f[0].required && f[0].slot.is_none());
    assert_eq!(f[1].config.metric_name, "NetworkPacketsIn");
    assert_eq!(f[1].slot.as_deref(), Some("network_packets_in"));
    assert!(!f[1].required);
}

#[test]
fn test_nat_metric_kind() {
    let f = metric_fetches(ResourceKind::NatGateway, "nat-0abc");
    assert_eq!(f.len(), 1);
    assert_eq!(f[0].config.namespace, "AWS/NATGateway");
    assert_eq!(f[0].config.metric_name, "BytesOutToDestination");
    assert_eq!(f[0].config.statistic, Statistic::Sum);
    assert_eq!(f[0].config.period, 300);
    assert!(f[0].chunked);
    assert_eq!(f[0].aggregation, Aggregation::HourlySum);
    assert_eq!(dims(&f[0]), vec![("NatGatewayId", "nat-0abc")]);
}

#[test]
fn test_rds_metric_kind() {
    let f = metric_fetches(ResourceKind::RDS, "db-prod");
    assert_eq!(f.len(), 4);
    assert_eq!(f[1].config.metric_name, "DatabaseConnections");
    assert_eq!(f[1].config.period, 300);
    assert!(f[1].required && f[1].chunked);
    assert_eq!(f[1].aggregation, Aggregation::HourlyMean);
    assert_eq!(f[1].slot.as_deref(), Some("connections"));
    assert_eq!(f[2].slot.as_deref(), Some("read_iops"));
    assert_eq!(f[3].slot.as_deref(), Some("write_iops"));
    assert_eq!(dims(&f[3]), vec![("DBInstanceIdentifier", "db-prod")]);
}

#[test]
fn test_ecs_metric_kind() {
    let f = metric_fetches(ResourceKind::ECS, "cluster/service");
    assert_eq!(f.len(), 2);
    assert_eq!(dims(&f[0]), vec![("ClusterName", "cluster"), ("ServiceName", "service")]);
    assert_eq!(f[1].config.metric_name, "MemoryUtilization");
    assert_eq!(f[1].slot.as_deref(), Some("memory"));
    let f = metric_fetches(ResourceKind::ECS, "lonely");
    assert_eq!(dims(&f[0]), vec![("ClusterName", "lonely"), ("ServiceName", "")]);
    let f = metric_fetches(ResourceKind::ECS, "a/b/c");
    assert_eq!(dims(&f[1]), vec![("ClusterName", "a"), ("ServiceName", "b/c")]);
}

#[test]
fn sums_also_ask_for_the_average() {
    assert_eq!(requested_statistics(Statistic::Sum), vec![Statistic::Sum, Statistic::Average]);
    assert_eq!(requested_statistics(Statistic::Average), vec![Statistic::Average]);
}

#[test]
fn chunks_cover_the_lookback_in_five_day_spans() {
    let day = 86400;
    let c = metric_chunks(0, 12 * day);
    assert_eq!(c, vec![(0, 5 * day), (5 * day, 10 * day), (10 * day, 12 * day)]);
    assert_eq!(metric_chunks(0, 10 * day), vec![(0, 5 * day), (5 * day, 10 * day)]);
    assert_eq!(metric_chunks(100, 101), vec![(100, 101)]);
    assert!(metric_chunks(100, 100).is_empty());
    assert!(metric_chunks(100, 50).is_empty());
}

fn raw(ts: Option<i64>, avg: Option<f64>, sum: Option<f64>, max: Option<f64>) -> RawDatapoint<f64> {
    RawDatapoint { timestamp: ts, average: avg, sum, maximum: max }
}

#[test]
fn datapoints_are_read_and_sorted() {
    let r = vec![
        raw(Some(7200), Some(2.0), Some(20.0), None),
        raw(Some(0), Some(1.0), None, Some(9.0)),
        raw(None, Some(5.0), Some(5.0), Some(5.0)),
        raw(Some(3600), None, None, None),
        raw(Some(i64::MAX), Some(3.0), Some(3.0), Some(3.0)),
    ];
    let avg = read_datapoints(Statistic::Average, &r);
    assert_eq!(avg.iter().map(|d| (d.timestamp, d.value)).collect::<Vec<_>>(), vec![(0, 1.0), (7200, 2.0)]);
    let sum = read_datapoints(Statistic::Sum, &r);
    assert_eq!(sum.iter().map(|d| (d.timestamp, d.value)).collect::<Vec<_>>(), vec![(0, 1.0), (7200, 20.0)]);
    let max = read_datapoints(Statistic::Maximum, &r);
    assert_eq!(max.iter().map(|d| (d.timestamp, d.value)).collect::<Vec<_>>(), vec![(0, 9.0)]);
}

#[test]
fn readings_are_grouped_by_clock_hour() {
    let ts = vec![3600 + 300, 60, 3600 + 600, -60];
    let g = hourly_groups(&ts);
    let got: Vec<(i64, Vec<usize>)> = g.iter().map(|x| (x.hour_start, x.members.clone())).collect();
    assert_eq!(got, vec![(-3600, vec![3]), (0, vec![1]), (3600, vec![0, 2])]);
}
