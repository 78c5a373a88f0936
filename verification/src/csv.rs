//! The CSV report: a header line and one record per resource.
use vstd::prelude::*;

use crate::kinds::{kind_code, kind_code_of};
use crate::report::{csv_escape, csv_field};
use crate::resource::Resource;
use crate::text::{digit_char, push_digit};

verus! {

/// `n` in decimal, without leading zeros.
pub open spec fn decimal(n: nat) -> Seq<char>
    decreases n,
{
    if n < 10 {
        seq![digit_char(n as int)]
    } else {
        decimal(n / 10).push(digit_char((n % 10) as int))
    }
}

/// Appends `n` in decimal.
pub fn push_decimal(out: &mut String, n: u32)
    ensures
        final(out)@ == old(out)@ + decimal(n as nat),
    decreases n,
{
    if n >= 10 {
        push_decimal(out, n / 10);
    }
    push_digit(out, n % 10);
}

/// The header line of the CSV report.
pub open spec fn csv_header() -> Seq<char> {
    "id,name,kind,region,instance_type,idle_pct,total_idle_hours,est_saving_mo,pattern,suggested_schedule,active_hrs_outside_schedule\n"@
}

/// The text of an optional string, empty when there is none.
pub open spec fn or_empty(s: Option<Seq<char>>) -> Seq<char> {
    match s {
        Some(t) => t,
        None => Seq::empty(),
    }
}

/// The CSV record of a resource: its id, name, kind code, region and instance type,
/// the idle percentage, idle hours and monthly saving as written out by the caller,
/// its idle pattern and schedule, and the active hours outside the schedule; text
/// fields escaped as `csv_field`, missing ones empty.
pub open spec fn csv_record_text<C>(
    r: Resource<C>,
    idle_pct: Seq<char>,
    idle_hours: Seq<char>,
    saving: Seq<char>,
    pattern: Option<Seq<char>>,
    schedule: Option<Seq<char>>,
    outside: u32,
) -> Seq<char> {
    csv_field(r.id@) + ","@ + csv_field(or_empty(match r.name {
        Some(n) => Some(n@),
        None => None,
    })) + ","@ + kind_code_of(r.kind) + ","@ + csv_field(r.region@) + ","@ + csv_field(or_empty(match r.instance_type {
        Some(t) => Some(t@),
        None => None,
    })) + ","@ + idle_pct + ","@ + idle_hours + ","@ + saving + ","@ + csv_field(or_empty(pattern)) + ","@
        + csv_field(or_empty(schedule)) + ","@ + decimal(outside as nat) + "\n"@
}

fn opt_str(s: &Option<String>) -> (r: &str)
    ensures
        r@ == or_empty(match *s {
            Some(t) => Some(t@),
            None => None,
        }),
{
    match s {
        Some(t) => t.as_str(),
        None => {
            proof {
                reveal_strlit("");
            }
            ""
        },
    }
}

fn opt_text(s: Option<&str>) -> (r: &str)
    ensures
        r@ == or_empty(match s {
            Some(t) => Some(t@),
            None => None,
        }),
{
    match s {
        Some(t) => t,
        None => {
            proof {
                reveal_strlit("");
            }
            ""
        },
    }
}

/// The CSV record of a resource (see `csv_record_text`).
pub fn csv_record<C>(
    r: &Resource<C>,
    idle_pct: &str,
    idle_hours: &str,
    saving: &str,
    pattern: Option<&str>,
    schedule: Option<&str>,
    outside: u32,
) -> (line: String)
    ensures
        line@ == csv_record_text(*r, idle_pct@, idle_hours@, saving@, match pattern {
            Some(t) => Some(t@),
            None => None,
        }, match schedule {
            Some(t) => Some(t@),
            None => None,
        }, outside),
{
    let mut line = csv_escape(r.id.as_str());
    line.append(",");
    line.append(csv_escape(opt_str(&r.name)).as_str());
    line.append(",");
    line.append(kind_code(&r.kind));
    line.append(",");
    line.append(csv_escape(r.region.as_str()).as_str());
    line.append(",");
    line.append(csv_escape(opt_str(&r.instance_type)).as_str());
    line.append(",");
    line.append(idle_pct);
    line.append(",");
    line.append(idle_hours);
    line.append(",");
    line.append(saving);
    line.append(",");
    line.append(csv_escape(opt_text(pattern)).as_str());
    line.append(",");
    line.append(csv_escape(opt_text(schedule)).as_str());
    line.append(",");
    push_decimal(&mut line, outside);
    line.append("\n");
    line
}

/// The CSV report: the header line, then the records in order.
pub fn render(records: &Vec<String>) -> (out: String)
    ensures
        out@ == csv_header() + records@.map_values(|s: String| s@).flatten(),
{
    let mut out = String::from_str("id,name,kind,region,instance_type,idle_pct,total_idle_hours,est_saving_mo,pattern,suggested_schedule,active_hrs_outside_schedule\n");
    let mut i: usize = 0;
    while i < records.len()
        invariant
            i <= records@.len(),
            out@ == csv_header() + records@.take(i as int).map_values(|s: String| s@).flatten(),
        decreases records@.len() - i,
    {
        proof {
            let a = records@.take(i as int).map_values(|s: String| s@);
            let b = records@.take(i + 1).map_values(|s: String| s@);
            assert(b =~= a.push(records@[i as int]@));
            a.lemma_flatten_push(records@[i as int]@);
        }
        out.append(records[i].as_str());
        i = i + 1;
    }
    assert(records@.take(records@.len() as int) =~= records@);
    out
}

} // verus!
