//! What the discovery of resources decides: the filters a listing is asked with,
//! which listed items become resources, their tags and names, the tag filter
//! applied on our side, and how ECS services are named and described in batches.
use vstd::prelude::*;

use crate::kinds::ResourceKind;
use crate::resource::Resource;
use crate::text::{chars_of, string_from, same_text};

verus! {

/// The tags of a listed item as a map from key to value: a pair that lacks its key
/// or its value is dropped, and a key given twice keeps its last value.
pub open spec fn tag_map(pairs: Seq<(Option<String>, Option<String>)>) -> Map<Seq<char>, Seq<char>>
    decreases pairs.len(),
{
    if pairs.len() == 0 {
        Map::empty()
    } else {
        let m = tag_map(pairs.drop_last());
        match pairs.last() {
            (Some(k), Some(v)) => m.insert(k@, v@),
            _ => m,
        }
    }
}

/// `tags` holds each key once, and exactly the entries of `m`.
pub open spec fn tags_hold(tags: Seq<(String, String)>, m: Map<Seq<char>, Seq<char>>) -> bool {
    &&& forall|i: int, j: int|
        0 <= i < j < tags.len() ==> (#[trigger] tags[i]).0@ != (#[trigger] tags[j]).0@
    &&& forall|i: int|
        0 <= i < tags.len() ==> m.contains_key((#[trigger] tags[i]).0@) && m[tags[i].0@]
            == tags[i].1@
    &&& forall|k: Seq<char>|
        #[trigger] m.contains_key(k) ==> exists|i: int| 0 <= i < tags.len() && (#[trigger] tags[i]).0@ == k
}

/// The value of the first tag whose key is `key`.
pub open spec fn lookup(tags: Seq<(String, String)>, key: Seq<char>) -> Option<Seq<char>>
    decreases tags.len(),
{
    if tags.len() == 0 {
        None
    } else if tags[0].0@ == key {
        Some(tags[0].1@)
    } else {
        lookup(tags.drop_first(), key)
    }
}

/// The text of an optional string.
pub open spec fn opt_view(s: Option<String>) -> Option<Seq<char>> {
    match s {
        Some(t) => Some(t@),
        None => None,
    }
}

/// The value of `key` in the map, if it has one.
pub open spec fn map_get(m: Map<Seq<char>, Seq<char>>, key: Seq<char>) -> Option<Seq<char>> {
    if m.contains_key(key) {
        Some(m[key])
    } else {
        None
    }
}

/// Whether tags with the map `m` pass the filter: everything passes no filter; with
/// a filter `(key, value)` the tag `key` must have the value `value`.
pub open spec fn map_passes(m: Map<Seq<char>, Seq<char>>, filter: Option<(&str, &str)>) -> bool {
    match filter {
        None => true,
        Some((k, v)) => map_get(m, k@) == Some(v@),
    }
}

fn key_position(tags: &Vec<(String, String)>, key: &str) -> (p: Option<usize>)
    ensures
        match p {
            Some(j) => j < tags@.len() && tags@[j as int].0@ == key@,
            None => forall|i: int| 0 <= i < tags@.len() ==> (#[trigger] tags@[i]).0@ != key@,
        },
{
    let mut i: usize = 0;
    while i < tags.len()
        invariant
            i <= tags@.len(),
            forall|k: int| 0 <= k < i ==> (#[trigger] tags@[k]).0@ != key@,
        decreases tags@.len() - i,
    {
        if same_text(tags[i].0.as_str(), key) {
            return Some(i);
        }
        i = i + 1;
    }
    None
}

/// The tags of a listed item, each key once (see `tag_map`).
pub fn collect_tags(pairs: &[(Option<String>, Option<String>)]) -> (tags: Vec<(String, String)>)
    ensures
        tags_hold(tags@, tag_map(pairs@)),
{
    let mut tags: Vec<(String, String)> = Vec::new();
    let mut i: usize = 0;
    assert(pairs@.take(0) =~= Seq::<(Option<String>, Option<String>)>::empty());
    while i < pairs.len()
        invariant
            i <= pairs@.len(),
            tags_hold(tags@, tag_map(pairs@.take(i as int))),
        decreases pairs@.len() - i,
    {
        let ghost m = tag_map(pairs@.take(i as int));
        assert(pairs@.take(i + 1).drop_last() =~= pairs@.take(i as int));
        assert(pairs@.take(i + 1).last() == pairs@[i as int]);
        match &pairs[i] {
            (Some(k), Some(v)) => {
                let ghost old_tags = tags@;
                let ghost m2 = m.insert(k@, v@);
                match key_position(&tags, k.as_str()) {
                    Some(j) => {
                        tags.set(j, (k.clone(), v.clone()));
                        assert forall|x: Seq<char>| #[trigger] m2.contains_key(x) implies exists|q: int|
                            0 <= q < tags@.len() && (#[trigger] tags@[q]).0@ == x by {
                            if x == k@ {
                                assert(tags@[j as int].0@ == x);
                            } else {
                                let q = choose|q: int| 0 <= q < old_tags.len() && (#[trigger] old_tags[q]).0@ == x;
                                assert(tags@[q].0@ == x);
                            }
                        }
                    },
                    None => {
                        tags.push((k.clone(), v.clone()));
                        assert forall|x: Seq<char>| #[trigger] m2.contains_key(x) implies exists|q: int|
                            0 <= q < tags@.len() && (#[trigger] tags@[q]).0@ == x by {
                            if x == k@ {
                                assert(tags@[tags@.len() - 1].0@ == x);
                            } else {
                                let q = choose|q: int| 0 <= q < old_tags.len() && (#[trigger] old_tags[q]).0@ == x;
                                assert(tags@[q].0@ == x);
                            }
                        }
                    },
                }
            },
            _ => {},
        }
        i = i + 1;
    }
    assert(pairs@.take(pairs@.len() as int) =~= pairs@);
    tags
}

/// The value of the tag `key` (`lookup`).
pub fn tag_value(tags: &Vec<(String, String)>, key: &str) -> (v: Option<String>)
    ensures
        opt_view(v) == lookup(tags@, key@),
{
    let mut i: usize = 0;
    assert(tags@.skip(0) =~= tags@);
    while i < tags.len()
        invariant
            i <= tags@.len(),
            lookup(tags@, key@) == lookup(tags@.skip(i as int), key@),
        decreases tags@.len() - i,
    {
        assert(tags@.skip(i as int).drop_first() =~= tags@.skip(i + 1));
        if same_text(tags[i].0.as_str(), key) {
            return Some(tags[i].1.clone());
        }
        i = i + 1;
    }
    None
}

/// Whether the tags pass the filter: every item passes no filter; with a filter
/// `(key, value)` the tag `key` must have the value `value`.
pub open spec fn passes_filter(tags: Seq<(String, String)>, filter: Option<(&str, &str)>) -> bool {
    match filter {
        None => true,
        Some((k, v)) => lookup(tags, k@) == Some(v@),
    }
}

/// Applies the tag filter (see `passes_filter`).
pub fn matches_tag_filter(tags: &Vec<(String, String)>, filter: Option<(&str, &str)>) -> (b: bool)
    ensures
        b == passes_filter(tags@, filter),
{
    match filter {
        None => true,
        Some((k, v)) => match tag_value(tags, k) {
            None => false,
            Some(t) => same_text(t.as_str(), v),
        },
    }
}

/// Whether a database with this status is listed: only available databases are,
/// whatever else its status is (stopped, starting, ...) it is left out; no status
/// reads as empty.
pub fn status_available(status: Option<&str>) -> (b: bool)
    ensures
        b == (status matches Some(s) && s@ == "available"@),
{
    match status {
        None => false,
        Some(s) => same_text(s, "available"),
    }
}

/// The text after the last `/` of `s`, or all of `s` when it has none: the short
/// name of a cluster from its ARN `arn:...:cluster/NAME`.
pub open spec fn after_last_slash(s: Seq<char>) -> Seq<char> {
    if exists|i: int| 0 <= i < s.len() && s[i] == '/' {
        let i = choose|i: int|
            0 <= i < s.len() && s[i] == '/' && forall|j: int| i < j < s.len() ==> s[j] != '/';
        s.subrange(i + 1, s.len() as int)
    } else {
        s
    }
}

/// The short name of a cluster (see `after_last_slash`).
pub fn cluster_name(arn: &str) -> (r: String)
    ensures
        r@ == after_last_slash(arn@),
{
    let cs = chars_of(arn);
    let n = cs.len();
    let mut p = n;
    while p > 0 && cs[p - 1] != '/'
        invariant
            p <= n,
            n == cs@.len(),
            forall|j: int| p <= j < n ==> cs@[j] != '/',
        decreases p,
    {
        p = p - 1;
    }
    if p == 0 {
        proof {
            assert(!exists|i: int| 0 <= i < arn@.len() && arn@[i] == '/');
            assert(cs@.subrange(0, n as int) =~= cs@);
        }
        string_from(&cs, 0, n)
    } else {
        proof {
            let i = choose|i: int|
                0 <= i < arn@.len() && arn@[i] == '/' && forall|j: int| i < j < arn@.len() ==> arn@[j] != '/';
            assert(arn@[p - 1] == '/');
            assert(i == p - 1) by {
                if i < p - 1 {
                    assert(arn@[p - 1] != '/');
                }
            }
        }
        string_from(&cs, p, n)
    }
}

/// A server-side filter of a listing: a name and the values it accepts.
pub struct ListFilter {
    pub name: String,
    pub values: Vec<String>,
}

/// `f` is the filter named `name` that accepts `values`.
pub open spec fn filter_is(f: ListFilter, name: Seq<char>, values: Seq<Seq<char>>) -> bool {
    &&& f.name@ == name
    &&& f.values@.len() == values.len()
    &&& forall|i: int| 0 <= i < values.len() ==> (#[trigger] f.values@[i])@ == values[i]
}

/// The filters a listing is asked with:
/// - EC2 instances in every state that still costs money, and so can be scheduled:
///   running, stopped, stopping and pending (terminated and shutting-down ones
///   are left out); and with the tag filter `tag:KEY = VALUE`;
/// - databases with the filter's value in some tag (the key is checked on our side);
/// - available NAT gateways;
/// - no filter for ECS services.
pub open spec fn listing_filters(kind: ResourceKind, filter: Option<(&str, &str)>, r: Seq<ListFilter>) -> bool {
    match kind {
        ResourceKind::EC2 => {
            &&& filter_is(r[0], "instance-state-name"@, seq!["running"@, "stopped"@, "stopping"@, "pending"@])
            &&& match filter {
                None => r.len() == 1,
                Some((k, v)) => r.len() == 2 && filter_is(r[1], "tag:"@ + k@, seq![v@]),
            }
        },
        ResourceKind::RDS => match filter {
            None => r.len() == 0,
            Some((k, v)) => r.len() == 1 && filter_is(r[0], "tag-value"@, seq![v@]),
        },
        ResourceKind::NatGateway => r.len() == 1 && filter_is(r[0], "state"@, seq!["available"@]),
        ResourceKind::ECS => r.len() == 0,
    }
}

/// The server-side filters of the listing of `kind` (see `listing_filters`).
pub fn list_filters(kind: ResourceKind, filter: Option<(&str, &str)>) -> (r: Vec<ListFilter>)
    ensures
        listing_filters(kind, filter, r@),
{
    let mut r: Vec<ListFilter> = Vec::new();
    match kind {
        ResourceKind::EC2 => {
            let states = vec![
                String::from_str("running"),
                String::from_str("stopped"),
                String::from_str("stopping"),
                String::from_str("pending"),
            ];
            r.push(ListFilter { name: String::from_str("instance-state-name"), values: states });
            match filter {
                None => {},
                Some((k, v)) => {
                    let mut name = String::from_str("tag:");
                    name.append(k);
                    r.push(ListFilter { name, values: vec![String::from_str(v)] });
                },
            }
        },
        ResourceKind::RDS => match filter {
            None => {},
            Some((_k, v)) => {
                r.push(ListFilter { name: String::from_str("tag-value"), values: vec![String::from_str(v)] });
            },
        },
        ResourceKind::NatGateway => {
            r.push(ListFilter { name: String::from_str("state"), values: vec![String::from_str("available")] });
        },
        ResourceKind::ECS => {},
    }
    r
}

/// `r` is a resource of kind `kind` found in `region`, with id `id`, name `name`,
/// instance type `itype`, the tags of `pairs`, and no cost yet.
pub open spec fn listed_resource<C>(
    r: Resource<C>,
    kind: ResourceKind,
    id: Seq<char>,
    name: Option<Seq<char>>,
    itype: Option<Seq<char>>,
    region: Seq<char>,
    pairs: Seq<(Option<String>, Option<String>)>,
) -> bool {
    &&& r.kind == kind
    &&& r.id@ == id
    &&& opt_view(r.name) == name
    &&& opt_view(r.instance_type) == itype
    &&& r.region@ == region
    &&& tags_hold(r.tags@, tag_map(pairs))
    &&& r.hourly_on_demand_cost is None
}

/// An EC2 instance as listed becomes a resource when it has an id; it is named by
/// its "Name" tag. (The tag filter was applied by the listing.)
pub fn ec2_resource<C>(
    id: Option<String>,
    pairs: &[(Option<String>, Option<String>)],
    instance_type: Option<String>,
    region: &str,
) -> (r: Option<Resource<C>>)
    ensures
        match id {
            None => r is None,
            Some(i) => r matches Some(res) && listed_resource(res, ResourceKind::EC2, i@,
                map_get(tag_map(pairs@), "Name"@), opt_view(instance_type), region@, pairs@),
        },
{
    let id = match id {
        None => {
            return None;
        },
        Some(i) => i,
    };
    let tags = collect_tags(pairs);
    let name = tag_value(&tags, "Name");
    proof {
        lemma_lookup_by_map(tags@, tag_map(pairs@), "Name"@);
    }
    Some(Resource {
        id,
        name,
        kind: ResourceKind::EC2,
        instance_type,
        region: String::from_str(region),
        tags,
        hourly_on_demand_cost: None,
    })
}

/// A NAT gateway as listed becomes a resource when it has an id and passes the tag
/// filter; it is named by its "Name" tag.
pub fn nat_resource<C>(
    id: Option<String>,
    pairs: &[(Option<String>, Option<String>)],
    region: &str,
    filter: Option<(&str, &str)>,
) -> (r: Option<Resource<C>>)
    ensures
        match id {
            None => r is None,
            Some(i) => if map_passes(tag_map(pairs@), filter) {
                r matches Some(res) && listed_resource(res, ResourceKind::NatGateway, i@,
                    map_get(tag_map(pairs@), "Name"@), None, region@, pairs@)
            } else {
                r is None
            },
        },
{
    let id = match id {
        None => {
            return None;
        },
        Some(i) => i,
    };
    let tags = collect_tags(pairs);
    proof {
        lemma_filter_by_map(tags@, filter, tag_map(pairs@));
        lemma_lookup_by_map(tags@, tag_map(pairs@), "Name"@);
    }
    if !matches_tag_filter(&tags, filter) {
        return None;
    }
    let name = tag_value(&tags, "Name");
    Some(Resource {
        id,
        name,
        kind: ResourceKind::NatGateway,
        instance_type: None,
        region: String::from_str(region),
        tags,
        hourly_on_demand_cost: None,
    })
}

/// A database as listed becomes a resource when it is available, has an id and
/// passes the tag filter; it is named by its id and its instance
/// type is its instance class.
pub fn rds_resource<C>(
    status: Option<&str>,
    id: Option<String>,
    pairs: &[(Option<String>, Option<String>)],
    db_class: Option<String>,
    region: &str,
    filter: Option<(&str, &str)>,
) -> (r: Option<Resource<C>>)
    ensures
        match id {
            None => r is None,
            Some(i) => if (status matches Some(s) && s@ == "available"@) && map_passes(tag_map(pairs@), filter) {
                r matches Some(res) && listed_resource(res, ResourceKind::RDS, i@, Some(i@),
                    opt_view(db_class), region@, pairs@)
            } else {
                r is None
            },
        },
{
    if !status_available(status) {
        return None;
    }
    let id = match id {
        None => {
            return None;
        },
        Some(i) => i,
    };
    let tags = collect_tags(pairs);
    proof {
        lemma_filter_by_map(tags@, filter, tag_map(pairs@));
    }
    if !matches_tag_filter(&tags, filter) {
        return None;
    }
    Some(Resource {
        name: Some(id.clone()),
        id,
        kind: ResourceKind::RDS,
        instance_type: db_class,
        region: String::from_str(region),
        tags,
        hourly_on_demand_cost: None,
    })
}

/// An ECS service as listed becomes a resource when it has a name and passes the
/// tag filter; its id is `"cluster/service"` (`cluster` being the short name of its
/// cluster), and it is named by its service name.
pub fn ecs_resource<C>(
    cluster: &str,
    service_name: Option<String>,
    pairs: &[(Option<String>, Option<String>)],
    region: &str,
    filter: Option<(&str, &str)>,
) -> (r: Option<Resource<C>>)
    ensures
        match service_name {
            None => r is None,
            Some(sv) => if map_passes(tag_map(pairs@), filter) {
                r matches Some(res) && listed_resource(res, ResourceKind::ECS, cluster@ + "/"@ + sv@,
                    Some(sv@), None, region@, pairs@)
            } else {
                r is None
            },
        },
{
    let service = match service_name {
        None => {
            return None;
        },
        Some(s) => s,
    };
    let tags = collect_tags(pairs);
    proof {
        lemma_filter_by_map(tags@, filter, tag_map(pairs@));
    }
    if !matches_tag_filter(&tags, filter) {
        return None;
    }
    let mut id = String::from_str(cluster);
    id.append("/");
    id.append(service.as_str());
    Some(Resource {
        id,
        name: Some(service),
        kind: ResourceKind::ECS,
        instance_type: None,
        region: String::from_str(region),
        tags,
        hourly_on_demand_cost: None,
    })
}

/// Services are described at most this many at a time.
pub const DESCRIBE_BATCH: usize = 10;

/// `arns` cut into consecutive batches of `DESCRIBE_BATCH`, the last one shorter.
pub open spec fn batches_of(arns: Seq<String>) -> Seq<Seq<String>> {
    Seq::new(
        ((arns.len() + 9) / 10) as nat,
        |b: int| arns.subrange(10 * b, if 10 * b + 10 < arns.len() { 10 * b + 10 } else { arns.len() as int }),
    )
}

/// Cuts the services of a cluster into the batches that are described together
/// (see `batches_of`).
pub fn describe_batches(arns: &Vec<String>) -> (r: Vec<Vec<String>>)
    ensures
        r@.len() == batches_of(arns@).len(),
        forall|b: int| 0 <= b < r@.len() ==> (#[trigger] r@[b])@ == batches_of(arns@)[b],
{
    let n = arns.len();
    let mut r: Vec<Vec<String>> = Vec::new();
    let mut start: usize = 0;
    while start < n
        invariant
            n == arns@.len(),
            start == 10 * r@.len() || (start == n && r@.len() == (n + 9) / 10),
            start <= n || r@.len() == 0,
            r@.len() <= (n + 9) / 10,
            start < n ==> r@.len() < (n + 9) / 10,
            forall|b: int| 0 <= b < r@.len() ==> (#[trigger] r@[b])@ == batches_of(arns@)[b],
        decreases n - start,
    {
        let end = if n - start > DESCRIBE_BATCH { start + DESCRIBE_BATCH } else { n };
        let mut batch: Vec<String> = Vec::new();
        let mut i = start;
        while i < end
            invariant
                start <= i <= end <= n,
                n == arns@.len(),
                batch@ == arns@.subrange(start as int, i as int),
            decreases end - i,
        {
            batch.push(arns[i].clone());
            assert(arns@.subrange(start as int, i + 1) =~= arns@.subrange(start as int, i as int).push(arns@[i as int]));
            i = i + 1;
        }
        proof {
            let k = r@.len() as int;
            assert(start == 10 * k);
            assert(batches_of(arns@)[k] == arns@.subrange(start as int, end as int));
            if end < n {
                assert(k + 1 < (n + 9) / 10);
            } else {
                assert(k + 1 >= (n + 9) / 10);
            }
        }
        r.push(batch);
        start = end;
    }
    r
}

proof fn lemma_lookup_by_map(tags: Seq<(String, String)>, m: Map<Seq<char>, Seq<char>>, key: Seq<char>)
    requires
        tags_hold(tags, m),
    ensures
        lookup(tags, key) == (if m.contains_key(key) { Some(m[key]) } else { None::<Seq<char>> }),
    decreases tags.len(),
{
    if tags.len() > 0 {
        let rest = tags.drop_first();
        if tags[0].0@ == key {
            assert(m.contains_key(tags[0].0@));
        } else {
            let m2 = if m.contains_key(tags[0].0@) { m.remove(tags[0].0@) } else { m };
            assert forall|i: int, j: int| 0 <= i < j < rest.len() implies (#[trigger] rest[i]).0@
                != (#[trigger] rest[j]).0@ by {
                assert(rest[i] == tags[i + 1] && rest[j] == tags[j + 1]);
            }
            assert forall|i: int| 0 <= i < rest.len() implies m2.contains_key((#[trigger] rest[i]).0@)
                && m2[rest[i].0@] == rest[i].1@ by {
                assert(rest[i] == tags[i + 1]);
                assert(tags[0].0@ != tags[i + 1].0@);
            }
            assert forall|k: Seq<char>| #[trigger] m2.contains_key(k) implies exists|i: int|
                0 <= i < rest.len() && (#[trigger] rest[i]).0@ == k by {
                assert(m.contains_key(k));
                let i = choose|i: int| 0 <= i < tags.len() && (#[trigger] tags[i]).0@ == k;
                assert(i != 0);
                assert(rest[i - 1] == tags[i]);
            }
            lemma_lookup_by_map(rest, m2, key);
            if m.contains_key(key) {
                let i = choose|i: int| 0 <= i < tags.len() && (#[trigger] tags[i]).0@ == key;
                assert(i != 0);
            }
        }
    } else {
        if m.contains_key(key) {
            let i = choose|i: int| 0 <= i < tags.len() && (#[trigger] tags[i]).0@ == key;
        }
    }
}

/// Whether tags pass the filter is read from their map.
proof fn lemma_filter_by_map(tags: Seq<(String, String)>, filter: Option<(&str, &str)>, m: Map<Seq<char>, Seq<char>>)
    requires
        tags_hold(tags, m),
    ensures
        passes_filter(tags, filter) == map_passes(m, filter),
{
    match filter {
        None => {},
        Some((k, v)) => {
            lemma_lookup_by_map(tags, m, k@);
        },
    }
}

} // verus!
