use upscan::text::is_white_space;
use upscan::kinds::{parse_resource_kinds, parse_tag_filter, OptionError, ResourceKind, ce_service_name, kind_code};

#[test]
fn test_parse_resource_kinds_all() {
    let kinds = parse_resource_kinds(None).unwrap();
    assert!(kinds.contains(&ResourceKind::EC2));
    assert!(kinds.contains(&ResourceKind::ECS));
    assert!(kinds.contains(&ResourceKind::RDS));
    assert!(kinds.contains(&ResourceKind::NatGateway));
}

#[test]
fn test_parse_resource_kinds_subset() {
    let kinds = parse_resource_kinds(Some("ec2,rds")).unwrap();
    assert!(kinds.contains(&ResourceKind::EC2));
    assert!(kinds.contains(&ResourceKind::RDS));
    assert!(!kinds.contains(&ResourceKind::ECS));
    assert!(!kinds.contains(&ResourceKind::NatGateway));
}

#[test]
fn test_parse_tag_filter() {
    let (k, v) = parse_tag_filter("Environment=dev").unwrap();
    assert_eq!(k, "Environment");
    assert_eq!(v, "dev");
}

#[test]
fn test_parse_tag_filter_invalid() {
    assert!(parse_tag_filter("NoEquals").is_err());
}

#[test]
fn parse_resource_kinds_trims_and_ignores_case() {
    let kinds = parse_resource_kinds(Some(" NAT , Ecs")).unwrap();
    assert!(kinds.contains(&ResourceKind::NatGateway));
    assert!(kinds.contains(&ResourceKind::ECS));
    assert!(!kinds.contains(&ResourceKind::EC2));
    assert!(!kinds.contains(&ResourceKind::RDS));
}

#[test]
fn parse_resource_kinds_reports_first_unknown_entry() {
    match parse_resource_kinds(Some("ec2, Lambda ,s3")) {
        Err(OptionError::UnknownResourceType(other)) => assert_eq!(other, "lambda"),
        _ => panic!("expected an unknown resource type"),
    }
    let e = parse_resource_kinds(Some("ec2,,rds")).err().unwrap();
    assert_eq!(e.message(), "Unknown resource type: . Valid: ec2, ecs, rds, nat");
}

#[test]
fn parse_tag_filter_splits_at_first_equals() {
    let (k, v) = parse_tag_filter("a=b=c").unwrap();
    assert_eq!(k, "a");
    assert_eq!(v, "b=c");
    let (k, v) = parse_tag_filter("=").unwrap();
    assert_eq!(k, "");
    assert_eq!(v, "");
}

#[test]
fn parse_tag_filter_error_message_holds_input() {
    let e = parse_tag_filter("NoEquals").err().unwrap();
    assert_eq!(e.message(), "--tag-filter must be in Key=Value format, got: NoEquals");
}

#[test]
fn service_names_and_codes() {
    assert_eq!(ce_service_name(&ResourceKind::EC2), "Amazon Elastic Compute Cloud - Compute");
    assert_eq!(ce_service_name(&ResourceKind::NatGateway), "Amazon Virtual Private Cloud");
    assert_eq!(kind_code(&ResourceKind::NatGateway), "NAT");
    assert_eq!(kind_code(&ResourceKind::RDS), "RDS");
}

#[test]
fn white_space_is_what_std_says() {
    for v in 0u32..=0x10FFFF {
        if let Some(c) = char::from_u32(v) {
            assert_eq!(is_white_space(c), c.is_whitespace(), "U+{v:04X}");
        }
    }
}

#[test]
fn resource_kinds_are_trimmed_of_unicode_white_space() {
    let kinds = parse_resource_kinds(Some("\u{3000}rds\u{2029},\u{85}ec2")).unwrap();
    assert!(kinds.contains(&ResourceKind::RDS) && kinds.contains(&ResourceKind::EC2));
}
