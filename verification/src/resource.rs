//! Discovered resources, their tags, and the fallback price of NAT gateways.
use vstd::prelude::*;

use crate::kinds::ResourceKind;
use crate::text::same_text;

verus! {

/// A discovered resource. `C` is the type of its hourly cost, which the library
/// only moves and never computes with.
pub struct Resource<C> {
    /// E.g. "i-0abc123ef", or "cluster/service" for an ECS service.
    pub id: String,
    pub name: Option<String>,
    pub kind: ResourceKind,
    pub instance_type: Option<String>,
    pub region: String,
    /// Tag keys and values, each key once.
    pub tags: Vec<(String, String)>,
    pub hourly_on_demand_cost: Option<C>,
}

/// The hourly price of a NAT gateway in a region, in thousandths of a US dollar
/// (gateway-hours only, data processing excluded); 48 for regions not listed.
pub open spec fn nat_rate(region: Seq<char>) -> u32 {
    if region == "us-east-1"@ || region == "us-east-2"@ || region == "us-west-1"@ || region
        == "us-west-2"@ {
        45
    } else if region == "ca-central-1"@ || region == "ca-west-1"@ || region == "eu-west-1"@
        || region == "eu-west-2"@ || region == "eu-west-3"@ {
        48
    } else if region == "eu-central-1"@ || region == "eu-central-2"@ || region == "eu-north-1"@
        || region == "eu-south-1"@ || region == "eu-south-2"@ || region == "ap-south-1"@ || region
        == "ap-south-2"@ {
        52
    } else if region == "ap-southeast-1"@ || region == "ap-southeast-2"@ || region
        == "ap-southeast-3"@ || region == "ap-southeast-4"@ || region == "ap-northeast-1"@
        || region == "ap-northeast-2"@ || region == "ap-northeast-3"@ || region == "ap-east-1"@
        || region == "sa-east-1"@ || region == "me-south-1"@ || region == "me-central-1"@
        || region == "af-south-1"@ {
        59
    } else {
        48
    }
}

/// The price of a NAT gateway-hour in `region`, in thousandths of a US dollar
/// (45 is $0.045), from the public price list; 48 where the region is not listed.
pub fn hourly_rate(region: &str) -> (r: u32)
    ensures
        r == nat_rate(region@),
{
    if same_text(region, "us-east-1") || same_text(region, "us-east-2") || same_text(
        region,
        "us-west-1",
    ) || same_text(region, "us-west-2") {
        45
    } else if same_text(region, "ca-central-1") || same_text(region, "ca-west-1") || same_text(
        region,
        "eu-west-1",
    ) || same_text(region, "eu-west-2") || same_text(region, "eu-west-3") {
        48
    } else if same_text(region, "eu-central-1") || same_text(region, "eu-central-2") || same_text(
        region,
        "eu-north-1",
    ) || same_text(region, "eu-south-1") || same_text(region, "eu-south-2") || same_text(
        region,
        "ap-south-1",
    ) || same_text(region, "ap-south-2") {
        52
    } else if same_text(region, "ap-southeast-1") || same_text(region, "ap-southeast-2")
        || same_text(region, "ap-southeast-3") || same_text(region, "ap-southeast-4")
        || same_text(region, "ap-northeast-1") || same_text(region, "ap-northeast-2")
        || same_text(region, "ap-northeast-3") || same_text(region, "ap-east-1") || same_text(
        region,
        "sa-east-1",
    ) || same_text(region, "me-south-1") || same_text(region, "me-central-1") || same_text(
        region,
        "af-south-1",
    ) {
        59
    } else {
        48
    }
}

/// `r` is `q` with only its hourly cost replaced.
pub open spec fn same_but_cost<C>(r: Resource<C>, q: Resource<C>) -> bool {
    &&& r.id == q.id
    &&& r.name == q.name
    &&& r.kind == q.kind
    &&& r.instance_type == q.instance_type
    &&& r.region == q.region
    &&& r.tags == q.tags
}

/// Gives every NAT gateway that has no hourly cost yet the regional price of a
/// gateway-hour, as `price` turns thousandths of a dollar into a cost; leaves
/// every other resource as it was.
pub fn apply_fallback_pricing<C>(resources: &mut Vec<Resource<C>>, price: impl Fn(u32) -> C)
    requires
        forall|m: u32| #[trigger] price.requires((m,)),
    ensures
        final(resources)@.len() == old(resources)@.len(),
        forall|i: int|
            0 <= i < old(resources)@.len() ==> {
                let before = #[trigger] old(resources)@[i];
                let after = final(resources)@[i];
                if before.kind == ResourceKind::NatGateway && before.hourly_on_demand_cost is None {
                    &&& same_but_cost(after, before)
                    &&& after.hourly_on_demand_cost matches Some(c) && price.ensures(
                        (nat_rate(before.region@),),
                        c,
                    )
                } else {
                    after == before
                }
            },
        forall|i: int|
            0 <= i < final(resources)@.len() ==> (#[trigger] final(resources)@[i]).kind
                == ResourceKind::NatGateway ==> final(resources)@[i].hourly_on_demand_cost is Some,
{
    let ghost before = resources@;
    let mut i: usize = 0;
    while i < resources.len()
        invariant
            forall|m: u32| #[trigger] price.requires((m,)),
            resources@.len() == before.len(),
            i <= before.len(),
            forall|j: int| i <= j < before.len() ==> #[trigger] resources@[j] == before[j],
            forall|j: int|
                0 <= j < i ==> {
                    let b = #[trigger] before[j];
                    let a = resources@[j];
                    if b.kind == ResourceKind::NatGateway && b.hourly_on_demand_cost is None {
                        &&& same_but_cost(a, b)
                        &&& a.hourly_on_demand_cost matches Some(c) && price.ensures(
                            (nat_rate(b.region@),),
                            c,
                        )
                    } else {
                        a == b
                    }
                },
        decreases before.len() - i,
    {
        if resources[i].kind == ResourceKind::NatGateway && resources[i].hourly_on_demand_cost.is_none() {
            let rate = hourly_rate(resources[i].region.as_str());
            let c = price(rate);
            resources[i].hourly_on_demand_cost = Some(c);
        }
        i = i + 1;
    }
    proof {
        assert forall|k: int|
            0 <= k < resources@.len() && (#[trigger] resources@[k]).kind == ResourceKind::NatGateway implies resources@[k].hourly_on_demand_cost is Some by {
            let b = before[k];
        }
    }
}

} // verus!
