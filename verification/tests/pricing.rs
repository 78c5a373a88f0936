use upscan::kinds::ResourceKind;
use upscan::pricing::{cost_period, cost_shares, group_key};
use upscan::resource::{apply_fallback_pricing, hourly_rate, Resource};

use chrono::{TimeZone, Utc};

const DEFAULT_RATE: f64 = 0.048;

fn rate(region: &str) -> f64 {
    hourly_rate(region) as f64 / 1000.0
}

fn nat_gateway(cost: Option<f64>) -> Resource<f64> {
    Resource {
        id: "nat-abc".to_string(),
        name: None,
        kind: ResourceKind::NatGateway,
        instance_type: None,
        region: "eu-west-2".to_string(),
        tags: vec![],
        hourly_on_demand_cost: cost,
    }
}

#[test]
fn test_known_regions() {
    assert_eq!(rate("us-east-1"), 0.045);
    assert_eq!(rate("eu-west-2"), 0.048);
    assert_eq!(rate("ap-southeast-1"), 0.059);
}

#[test]
fn test_unknown_region_uses_default() {
    assert_eq!(rate("xx-unknown-1"), DEFAULT_RATE);
}

#[test]
fn test_apply_fallback_sets_cost_for_nat() {
    let mut resources = vec![nat_gateway(None)];
    apply_fallback_pricing(&mut resources, |m| m as f64 / 1000.0);
    assert_eq!(resources[0].hourly_on_demand_cost, Some(0.048));
}

#[test]
fn test_apply_fallback_does_not_overwrite_existing_cost() {
    let mut resources = vec![nat_gateway(Some(0.099))];
    apply_fallback_pricing(&mut resources, |m| m as f64 / 1000.0);
    assert_eq!(resources[0].hourly_on_demand_cost, Some(0.099));
}

#[test]
fn fallback_pricing_leaves_other_kinds_alone() {
    let mut other = nat_gateway(None);
    other.kind = ResourceKind::EC2;
    let mut resources = vec![other, nat_gateway(None)];
    resources[1].region = "eu-central-1".to_string();
    apply_fallback_pricing(&mut resources, |m| m as f64 / 1000.0);
    assert_eq!(resources[0].hourly_on_demand_cost, None);
    assert_eq!(resources[1].hourly_on_demand_cost, Some(0.052));
    assert_eq!(hourly_rate("us-west-2"), 45);
    assert_eq!(hourly_rate("me-central-1"), 59);
}

#[test]
fn cost_period_dates() {
    let now = Utc.with_ymd_and_hms(2024, 3, 1, 0, 30, 0).unwrap().timestamp();
    let (start, end) = cost_period(now, 30);
    assert_eq!(start, "2024-01-31");
    assert_eq!(end, "2024-03-01");
}

#[test]
fn group_keys_default_to_empty() {
    assert_eq!(group_key(&vec!["t3.large".to_string(), "EC2".to_string(), "x".to_string()]), ("t3.large".to_string(), "EC2".to_string()));
    assert_eq!(group_key(&vec!["t3.large".to_string()]), ("t3.large".to_string(), String::new()));
    assert_eq!(group_key(&vec![]), (String::new(), String::new()));
}

#[test]
fn cost_shares_count_resources_in_each_group() {
    let mk = |kind: ResourceKind, itype: Option<&str>| Resource::<f64> {
        id: "r".to_string(),
        name: None,
        kind,
        instance_type: itype.map(|s| s.to_string()),
        region: "us-east-1".to_string(),
        tags: vec![],
        hourly_on_demand_cost: None,
    };
    let rs = vec![
        mk(ResourceKind::EC2, Some("t3.large")),
        mk(ResourceKind::RDS, Some("t3.large")),
        mk(ResourceKind::EC2, Some("t3.large")),
        mk(ResourceKind::NatGateway, None),
    ];
    let shares = cost_shares(&rs);
    assert_eq!(shares.len(), 4);
    let s0 = shares[0].as_ref().unwrap();
    assert_eq!((s0.instance_type.as_str(), s0.service.as_str(), s0.sharing), ("t3.large", "Amazon Elastic Compute Cloud - Compute", 2));
    let s1 = shares[1].as_ref().unwrap();
    assert_eq!((s1.service.as_str(), s1.sharing), ("Amazon Relational Database Service", 1));
    assert_eq!(shares[2].as_ref().unwrap().sharing, 2);
    assert!(shares[3].is_none());
}
