//! The kinds of resource that are scanned, the report formats, and the parsing of
//! the command-line options that name them.
use vstd::prelude::*;

use crate::text::{
    chars_of, split_chars, split_on, trim_chars, trimmed, to_lowercase, lowercase_of,
    string_from,
};

verus! {

/// A kind of cloud resource.
#[derive(Debug, Clone, Copy, PartialEq, Eq, Hash, Structural)]
pub enum ResourceKind {
    EC2,
    ECS,
    RDS,
    NatGateway,
}

/// The format of the report.
#[derive(Debug, Clone, Copy, PartialEq, Eq, Structural)]
pub enum OutputFormat {
    Table,
    Json,
    Csv,
    Html,
}

/// A set of resource kinds.
pub struct KindSet {
    ec2: bool,
    ecs: bool,
    rds: bool,
    nat: bool,
}

impl KindSet {
    /// The kinds in the set.
    pub closed spec fn has(&self, k: ResourceKind) -> bool {
        match k {
            ResourceKind::EC2 => self.ec2,
            ResourceKind::ECS => self.ecs,
            ResourceKind::RDS => self.rds,
            ResourceKind::NatGateway => self.nat,
        }
    }

    pub fn empty() -> (s: KindSet)
        ensures
            forall|k: ResourceKind| !s.has(k),
    {
        KindSet { ec2: false, ecs: false, rds: false, nat: false }
    }

    /// All four kinds.
    pub fn all() -> (s: KindSet)
        ensures
            forall|k: ResourceKind| s.has(k),
    {
        KindSet { ec2: true, ecs: true, rds: true, nat: true }
    }

    pub fn insert(&mut self, k: ResourceKind)
        ensures
            forall|j: ResourceKind| final(self).has(j) == (old(self).has(j) || j == k),
    {
        match k {
            ResourceKind::EC2 => self.ec2 = true,
            ResourceKind::ECS => self.ecs = true,
            ResourceKind::RDS => self.rds = true,
            ResourceKind::NatGateway => self.nat = true,
        }
    }

    pub fn contains(&self, k: &ResourceKind) -> (b: bool)
        ensures
            b == self.has(*k),
    {
        match k {
            ResourceKind::EC2 => self.ec2,
            ResourceKind::ECS => self.ecs,
            ResourceKind::RDS => self.rds,
            ResourceKind::NatGateway => self.nat,
        }
    }
}

/// A command-line option that could not be read.
#[derive(Debug)]
pub enum OptionError {
    /// A resource type other than ec2, ecs, rds and nat (as trimmed and lowercased).
    UnknownResourceType(String),
    /// A tag filter without `=`; holds the whole option.
    TagFilterFormat(String),
}

/// What an option error says to the user.
pub open spec fn error_text(e: OptionError) -> Seq<char> {
    match e {
        OptionError::UnknownResourceType(other) => "Unknown resource type: "@ + other@ + ". Valid: ec2, ecs, rds, nat"@,
        OptionError::TagFilterFormat(input) => "--tag-filter must be in Key=Value format, got: "@ + input@,
    }
}

impl OptionError {
    /// The message of the error (`error_text`).
    pub fn message(&self) -> (m: String)
        ensures
            m@ == error_text(*self),
    {
        match self {
            OptionError::UnknownResourceType(other) => {
                let mut m = String::from_str("Unknown resource type: ");
                m.append(other.as_str());
                m.append(". Valid: ec2, ecs, rds, nat");
                m
            },
            OptionError::TagFilterFormat(input) => {
                let mut m = String::from_str("--tag-filter must be in Key=Value format, got: ");
                m.append(input.as_str());
                m
            },
        }
    }
}

/// The kind that a `--resources` entry names, once trimmed and lowercased.
pub open spec fn kind_named(t: Seq<char>) -> Option<ResourceKind> {
    let l = lowercase_of(trimmed(t));
    if l == "ec2"@ {
        Some(ResourceKind::EC2)
    } else if l == "ecs"@ {
        Some(ResourceKind::ECS)
    } else if l == "rds"@ {
        Some(ResourceKind::RDS)
    } else if l == "nat"@ {
        Some(ResourceKind::NatGateway)
    } else {
        None
    }
}

/// `e` reports the first entry of `toks` that names no kind, trimmed and lowercased.
pub open spec fn unknown_entry_error(toks: Seq<Seq<char>>, e: OptionError) -> bool {
    exists|i: int|
        0 <= i < toks.len() && all_named(toks, i) && kind_named(toks[i]) is None && (
        e matches OptionError::UnknownResourceType(other) && other@ == lowercase_of(trimmed(toks[i])))
}

/// Every entry among the first `n` names a kind.
pub open spec fn all_named(toks: Seq<Seq<char>>, n: int) -> bool {
    forall|i: int| 0 <= i < n ==> (#[trigger] kind_named(toks[i])) is Some
}

/// The kind named by one of the entries.
pub open spec fn named_by_some(toks: Seq<Seq<char>>, k: ResourceKind) -> bool {
    exists|i: int| 0 <= i < toks.len() && kind_named(toks[i]) == Some(k)
}

fn kind_of_entry(lower: &String) -> (k: Option<ResourceKind>)
    ensures
        k == (if lower@ == "ec2"@ {
            Some(ResourceKind::EC2)
        } else if lower@ == "ecs"@ {
            Some(ResourceKind::ECS)
        } else if lower@ == "rds"@ {
            Some(ResourceKind::RDS)
        } else if lower@ == "nat"@ {
            Some(ResourceKind::NatGateway)
        } else {
            None
        }),
{
    if *lower == String::from_str("ec2") {
        Some(ResourceKind::EC2)
    } else if *lower == String::from_str("ecs") {
        Some(ResourceKind::ECS)
    } else if *lower == String::from_str("rds") {
        Some(ResourceKind::RDS)
    } else if *lower == String::from_str("nat") {
        Some(ResourceKind::NatGateway)
    } else {
        None
    }
}

/// Reads `--resources`: a comma-separated list of ec2, ecs, rds and nat, each
/// trimmed of white space and matched without regard to case. Without the option,
/// all four kinds. The first entry that names no kind is the error, trimmed and
/// lowercased; an empty entry names no kind.
pub fn parse_resource_kinds(input: Option<&str>) -> (r: Result<KindSet, OptionError>)
    ensures
        input is None ==> (r matches Ok(s) && forall|k: ResourceKind| s.has(k)),
        input matches Some(text) ==> (r is Ok <==> all_named(split_on(text@, ','), split_on(text@, ',').len() as int)),
        input matches Some(text) ==> (r matches Ok(s) ==> forall|k: ResourceKind| s.has(k) == named_by_some(split_on(text@, ','), k)),
        input matches Some(text) ==> (r matches Err(e) ==> unknown_entry_error(split_on(text@, ','), e)),
{
    match input {
        None => Ok(KindSet::all()),
        Some(text) => {
            let cs = chars_of(text);
            let toks = split_chars(&cs, ',');
            let ghost spec_toks = split_on(text@, ',');
            let mut set = KindSet::empty();
            let mut i: usize = 0;
            while i < toks.len()
                invariant
                    input == Some(text),
                    toks@.len() == spec_toks.len(),
                    spec_toks == split_on(text@, ','),
                    forall|k: int| 0 <= k < toks@.len() ==> (#[trigger] toks@[k])@ == spec_toks[k],
                    i <= toks@.len(),
                    all_named(spec_toks, i as int),
                    forall|k: ResourceKind| set.has(k) == exists|j: int| 0 <= j < i && kind_named(spec_toks[j]) == Some(k),
                decreases toks@.len() - i,
            {
                let trimmed_token = trim_chars(&toks[i]);
                let lower = to_lowercase(trimmed_token.as_str());
                match kind_of_entry(&lower) {
                    Some(k) => {
                        let ghost old_set = set;
                        set.insert(k);
                        proof {
                            assert(kind_named(spec_toks[i as int]) == Some(k));
                            assert forall|kk: ResourceKind| set.has(kk) == exists|j: int| 0 <= j < i + 1 && kind_named(spec_toks[j]) == Some(kk) by {
                                if kk == k {
                                    assert(kind_named(spec_toks[i as int]) == Some(kk));
                                } else if set.has(kk) {
                                    assert(old_set.has(kk));
                                } else {
                                    assert(!old_set.has(kk));
                                }
                            }
                        }
                    },
                    None => {
                        let e = OptionError::UnknownResourceType(lower);
                        proof {
                            assert(kind_named(spec_toks[i as int]) is None);
                            assert(!all_named(spec_toks, spec_toks.len() as int));
                            assert(0 <= i < spec_toks.len() && all_named(spec_toks, i as int) && kind_named(spec_toks[i as int]) is None);
                            assert(unknown_entry_error(spec_toks, e));
                        }
                        return Err(e);
                    },
                }
                i = i + 1;
            }
            Ok(set)
        },
    }
}

/// Reads a `Key=Value` tag filter: the key is what comes before the first `=`,
/// the value everything after it. Without `=`, the error holds the whole input.
pub fn parse_tag_filter(input: &str) -> (r: Result<(String, String), OptionError>)
    ensures
        match r {
            Ok((k, v)) => exists|p: int|
                0 <= p < input@.len() && input@[p] == '=' && (forall|j: int| 0 <= j < p ==> input@[j] != '=')
                    && k@ == input@.subrange(0, p) && v@ == input@.subrange(p + 1, input@.len() as int),
            Err(e) => (forall|j: int| 0 <= j < input@.len() ==> input@[j] != '=') && e
                == OptionError::TagFilterFormat(e->TagFilterFormat_0) && e->TagFilterFormat_0@
                == input@,
        },
{
    let cs = chars_of(input);
    let mut p: usize = 0;
    while p < cs.len() && cs[p] != '='
        invariant
            cs@ == input@,
            p <= cs@.len(),
            forall|j: int| 0 <= j < p ==> cs@[j] != '=',
        decreases cs@.len() - p,
    {
        p = p + 1;
    }
    if p == cs.len() {
        let whole = string_from(&cs, 0, cs.len());
        assert(cs@.subrange(0, cs@.len() as int) =~= cs@);
        Err(OptionError::TagFilterFormat(whole))
    } else {
        let k = string_from(&cs, 0, p);
        let v = string_from(&cs, p + 1, cs.len());
        Ok((k, v))
    }
}

/// The service that Cost Explorer files the spending on a kind of resource under.
pub open spec fn ce_service(kind: ResourceKind) -> Seq<char> {
    match kind {
        ResourceKind::EC2 => "Amazon Elastic Compute Cloud - Compute"@,
        ResourceKind::ECS => "Amazon Elastic Container Service"@,
        ResourceKind::RDS => "Amazon Relational Database Service"@,
        ResourceKind::NatGateway => "Amazon Virtual Private Cloud"@,
    }
}

/// The service that Cost Explorer files the spending on a kind of resource under
/// (`ce_service`).
pub fn ce_service_name(kind: &ResourceKind) -> (s: &'static str)
    ensures
        s@ == ce_service(*kind),
{
    match kind {
        ResourceKind::EC2 => "Amazon Elastic Compute Cloud - Compute",
        ResourceKind::ECS => "Amazon Elastic Container Service",
        ResourceKind::RDS => "Amazon Relational Database Service",
        ResourceKind::NatGateway => "Amazon Virtual Private Cloud",
    }
}

/// The short code of a kind in CSV and HTML reports.
pub open spec fn kind_code_of(kind: ResourceKind) -> Seq<char> {
    match kind {
        ResourceKind::EC2 => "EC2"@,
        ResourceKind::ECS => "ECS"@,
        ResourceKind::RDS => "RDS"@,
        ResourceKind::NatGateway => "NAT"@,
    }
}

/// The short code names its kind: each kind has its own code, that of an EC2
/// instance being "EC2", of an ECS service "ECS", of a database "RDS" and of a NAT
/// gateway "NAT".
pub proof fn lemma_kind_codes_differ(a: ResourceKind, b: ResourceKind)
    ensures
        kind_code_of(a) == kind_code_of(b) ==> a == b,
        kind_code_of(a).len() == 3,
{
    reveal_strlit("EC2");
    reveal_strlit("ECS");
    reveal_strlit("RDS");
    reveal_strlit("NAT");
    if a != b {
        assert(kind_code_of(a)[0] != kind_code_of(b)[0] || kind_code_of(a)[2] != kind_code_of(b)[2]);
    }
}

/// The short code of a kind in CSV and HTML reports (`kind_code_of`).
pub fn kind_code(kind: &ResourceKind) -> (s: &'static str)
    ensures
        s@ == kind_code_of(*kind),
{
    match kind {
        ResourceKind::EC2 => "EC2",
        ResourceKind::ECS => "ECS",
        ResourceKind::RDS => "RDS",
        ResourceKind::NatGateway => "NAT",
    }
}

} // verus!
