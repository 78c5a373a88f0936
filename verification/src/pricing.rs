//! What the pricing from Cost Explorer decides: the period asked for, the group a
//! line of spending belongs to, and how many resources share each group's spending.
use vstd::prelude::*;

use crate::kinds::{ce_service, ce_service_name};
use crate::resource::Resource;
use crate::text::same_text;
use crate::time::{format_utc, representable, utc_text};

verus! {

/// The period of spending asked of Cost Explorer for a lookback of `days` days
/// ending at `now`: the dates (`YYYY-MM-DD`, UTC) of its start and of `now`.
pub fn cost_period(now: i64, days: u32) -> (r: (String, String))
    requires
        representable(now as int),
        representable(now - 86400 * days),
    ensures
        r.0@ == utc_text(now - 86400 * days, "%Y-%m-%d"@),
        r.1@ == utc_text(now as int, "%Y-%m-%d"@),
{
    let start = now - 86400 * (days as i64);
    (format_utc(start, "%Y-%m-%d"), format_utc(now, "%Y-%m-%d"))
}

/// The group of a line of spending from its keys, which come in the order they were
/// asked for: instance type, then service; a missing key reads as empty.
pub fn group_key(keys: &Vec<String>) -> (r: (String, String))
    ensures
        r.0@ == (if keys@.len() > 0 { keys@[0]@ } else { Seq::<char>::empty() }),
        r.1@ == (if keys@.len() > 1 { keys@[1]@ } else { Seq::<char>::empty() }),
{
    let a = if keys.len() > 0 { keys[0].clone() } else { String::new() };
    let b = if keys.len() > 1 { keys[1].clone() } else { String::new() };
    (a, b)
}

/// The group whose spending a resource shares: its instance type and the service
/// it is billed under; none without an instance type.
pub open spec fn cost_group<C>(r: Resource<C>) -> Option<(Seq<char>, Seq<char>)> {
    match r.instance_type {
        None => None,
        Some(t) => Some((t@, ce_service(r.kind))),
    }
}

/// Number of resources among the first `n` in group `g`.
pub open spec fn group_size<C>(rs: Seq<Resource<C>>, g: (Seq<char>, Seq<char>), n: int) -> int
    decreases n,
{
    if n <= 0 {
        0
    } else {
        group_size(rs, g, n - 1) + if cost_group(rs[n - 1]) == Some(g) {
            1int
        } else {
            0int
        }
    }
}

/// The share of a resource in its group's spending.
pub struct CostShare {
    pub instance_type: String,
    pub service: String,
    /// How many resources share the group's spending.
    pub sharing: usize,
}

fn group_of<C>(r: &Resource<C>) -> (g: Option<(String, &'static str)>)
    ensures
        match cost_group(*r) {
            None => g is None,
            Some(k) => g matches Some((t, s)) && t@ == k.0 && s@ == k.1,
        },
{
    match &r.instance_type {
        None => None,
        Some(t) => Some((t.clone(), ce_service_name(&r.kind))),
    }
}

/// For each resource, its group and how many resources are in the group (see
/// `cost_group`, `group_size`); none for a resource without an instance type.
pub fn cost_shares<C>(resources: &[Resource<C>]) -> (r: Vec<Option<CostShare>>)
    ensures
        r@.len() == resources@.len(),
        forall|i: int|
            0 <= i < r@.len() ==> match cost_group(resources@[i]) {
                None => (#[trigger] r@[i]) is None,
                Some(g) => r@[i] matches Some(s) && s.instance_type@ == g.0 && s.service@ == g.1
                    && s.sharing == group_size(resources@, g, resources@.len() as int),
            },
{
    let n = resources.len();
    let mut r: Vec<Option<CostShare>> = Vec::new();
    let mut i: usize = 0;
    while i < n
        invariant
            n == resources@.len(),
            i <= n,
            r@.len() == i,
            forall|k: int|
                0 <= k < i ==> match cost_group(resources@[k]) {
                    None => (#[trigger] r@[k]) is None,
                    Some(g) => r@[k] matches Some(s) && s.instance_type@ == g.0 && s.service@ == g.1
                        && s.sharing == group_size(resources@, g, n as int),
                },
        decreases n - i,
    {
        match group_of(&resources[i]) {
            None => {
                r.push(None);
            },
            Some((t, s)) => {
                let ghost g = (t@, s@);
                let mut count: usize = 0;
                let mut j: usize = 0;
                while j < n
                    invariant
                        n == resources@.len(),
                        j <= n,
                        count == group_size(resources@, g, j as int),
                        count <= j,
                        g == (t@, s@),
                    decreases n - j,
                {
                    match group_of(&resources[j]) {
                        None => {},
                        Some((t2, s2)) => {
                            if same_text(t2.as_str(), t.as_str()) && same_text(s2, s) {
                                count = count + 1;
                            }
                        },
                    }
                    j = j + 1;
                }
                r.push(Some(CostShare { instance_type: t, service: String::from_str(s), sharing: count }));
            },
        }
        i = i + 1;
    }
    r
}

} // verus!
