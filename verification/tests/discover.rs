use upscan::discover::{
    cluster_name, collect_tags, describe_batches, ec2_resource, ecs_resource, list_filters, matches_tag_filter,
    nat_resource, rds_resource, status_available, tag_value,
};
use upscan::kinds::ResourceKind;
use upscan::resource::Resource;

fn pairs(v: &[(Option<&str>, Option<&str>)]) -> Vec<(Option<String>, Option<String>)> {
    v.iter().map(|(k, x)| (k.map(|s| s.to_string()), x.map(|s| s.to_string()))).collect()
}

#[test]
fn tags_keep_the_last_value_of_each_key() {
    let p = pairs(&[(Some("Name"), Some("web")), (None, Some("x")), (Some("Env"), None), (Some("Name"), Some("api"))]);
    let tags = collect_tags(&p);
    assert_eq!(tags, vec![("Name".to_string(), "api".to_string())]);
    assert_eq!(tag_value(&tags, "Name").as_deref(), Some("api"));
    assert_eq!(tag_value(&tags, "Env"), None);
    assert!(matches_tag_filter(&tags, None));
    assert!(matches_tag_filter(&tags, Some(("Name", "api"))));
    assert!(!matches_tag_filter(&tags, Some(("Name", "web"))));
}

#[test]
fn ec2_instances_are_named_by_their_name_tag() {
    let p = pairs(&[(Some("Name"), Some("staging"))]);
    let r: Resource<f64> = ec2_resource(Some("i-1".to_string()), &p, Some("t3.medium".to_string()), "eu-west-2").unwrap();
    assert_eq!(r.id, "i-1");
    assert_eq!(r.name.as_deref(), Some("staging"));
    assert_eq!(r.kind, ResourceKind::EC2);
    assert_eq!(r.instance_type.as_deref(), Some("t3.medium"));
    assert_eq!(r.region, "eu-west-2");
    assert!(r.hourly_on_demand_cost.is_none());
    assert!(ec2_resource::<f64>(None, &p, None, "eu-west-2").is_none());
}

#[test]
fn nat_gateways_pass_the_tag_filter_on_our_side() {
    let p = pairs(&[(Some("Environment"), Some("dev"))]);
    let r: Option<Resource<f64>> = nat_resource(Some("nat-1".to_string()), &p, "us-east-1", Some(("Environment", "dev")));
    let r = r.unwrap();
    assert_eq!(r.name, None);
    assert_eq!(r.kind, ResourceKind::NatGateway);
    assert!(nat_resource::<f64>(Some("nat-1".to_string()), &p, "us-east-1", Some(("Environment", "prod"))).is_none());
    assert!(nat_resource::<f64>(None, &p, "us-east-1", None).is_none());
}

#[test]
fn databases_are_listed_only_when_available() {
    let p = pairs(&[]);
    for s in ["stopped", "deleting", "failed", "starting", "Available", ""] {
        assert!(!status_available(Some(s)));
        assert!(rds_resource::<f64>(Some(s), Some("db".to_string()), &p, None, "us-east-1", None).is_none());
    }
    assert!(status_available(Some("available")));
    assert!(!status_available(None));
    assert!(rds_resource::<f64>(None, Some("db".to_string()), &p, None, "us-east-1", None).is_none());
    let r: Resource<f64> = rds_resource(Some("available"), Some("db-1".to_string()), &p, Some("db.t3.micro".to_string()), "us-east-1", None).unwrap();
    assert_eq!(r.name.as_deref(), Some("db-1"));
    assert_eq!(r.instance_type.as_deref(), Some("db.t3.micro"));
    assert!(rds_resource::<f64>(Some("available"), Some("db-1".to_string()), &p, None, "us-east-1", Some(("k", "v"))).is_none());
}

#[test]
fn ecs_services_are_named_cluster_slash_service() {
    assert_eq!(cluster_name("arn:aws:ecs:eu-west-2:123:cluster/prod"), "prod");
    assert_eq!(cluster_name("plain"), "plain");
    assert_eq!(cluster_name("a/b/"), "");
    let p = pairs(&[(Some("team"), Some("core"))]);
    let r: Resource<f64> = ecs_resource("prod", Some("api".to_string()), &p, "eu-west-2", Some(("team", "core"))).unwrap();
    assert_eq!(r.id, "prod/api");
    assert_eq!(r.name.as_deref(), Some("api"));
    assert_eq!(r.instance_type, None);
    assert!(ecs_resource::<f64>("prod", None, &p, "eu-west-2", None).is_none());
    assert!(ecs_resource::<f64>("prod", Some("api".to_string()), &p, "eu-west-2", Some(("team", "web"))).is_none());
}

#[test]
fn services_are_described_ten_at_a_time() {
    let arns: Vec<String> = (0..23).map(|i| format!("arn{i}")).collect();
    let b = describe_batches(&arns);
    assert_eq!(b.iter().map(|x| x.len()).collect::<Vec<_>>(), vec![10, 10, 3]);
    assert_eq!(b[2][0], "arn20");
    assert!(describe_batches(&vec![]).is_empty());
}

#[test]
fn listing_filters_by_kind() {
    let f = list_filters(ResourceKind::EC2, Some(("Environment", "dev")));
    assert_eq!(f.len(), 2);
    assert_eq!(f[0].name, "instance-state-name");
    assert_eq!(f[0].values, vec!["running", "stopped", "stopping", "pending"]);
    assert_eq!(f[1].name, "tag:Environment");
    assert_eq!(f[1].values, vec!["dev"]);
    let f = list_filters(ResourceKind::RDS, Some(("Environment", "dev")));
    assert_eq!((f[0].name.as_str(), f[0].values.clone()), ("tag-value", vec!["dev".to_string()]));
    assert!(list_filters(ResourceKind::RDS, None).is_empty());
    let f = list_filters(ResourceKind::NatGateway, None);
    assert_eq!((f[0].name.as_str(), f[0].values.clone()), ("state", vec!["available".to_string()]));
    assert!(list_filters(ResourceKind::ECS, Some(("a", "b"))).is_empty());
}
