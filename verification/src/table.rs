//! The plain-text table report: one row per resource, columns as wide as their
//! widest cell, a rule under the header, and the closing lines.
use vstd::prelude::*;

use crate::kinds::ResourceKind;
use crate::report::{format_schedule, schedule_showable, shown_schedule};
use crate::resource::Resource;
use crate::text::{chars_of, push_char};
use vstd::utf8::encode_utf8;

verus! {

/// The cells of one row of the table, already written out.
pub struct TableRow {
    pub resource: String,
    pub kind: String,
    pub idle: String,
    pub cost: String,
    pub saving: String,
    pub schedule: String,
}

/// The cells of a row, left to right.
pub open spec fn row_cells(r: TableRow) -> Seq<Seq<char>> {
    seq![r.resource@, r.kind@, r.idle@, r.cost@, r.saving@, r.schedule@]
}

/// The column headers.
pub open spec fn header_cells() -> Seq<Seq<char>> {
    seq!["Resource"@, "Type"@, "Idle %"@, "Est. Cost/mo"@, "Saving/mo"@, "Suggested Schedule"@]
}

/// The length of a text in bytes of UTF-8, as `str::len` gives it.
pub open spec fn str_len(s: Seq<char>) -> int {
    (encode_utf8(s).len() as usize) as int
}

/// The width of column `c` over the header and the first `n` rows: the length in
/// bytes of its longest cell.
pub open spec fn col_width(rows: Seq<TableRow>, c: int, n: int) -> int
    decreases n,
{
    if n <= 0 {
        str_len(header_cells()[c])
    } else {
        let w = col_width(rows, c, n - 1);
        let x = str_len(row_cells(rows[n - 1])[c]);
        if x > w {
            x
        } else {
            w
        }
    }
}

/// The widths of the six columns.
pub open spec fn widths(rows: Seq<TableRow>) -> Seq<int> {
    Seq::new(6, |c: int| col_width(rows, c, rows.len() as int))
}

/// `n` spaces.
pub open spec fn spaces(n: int) -> Seq<char> {
    Seq::new(n as nat, |i: int| ' ')
}

/// `s` followed by spaces up to `w` characters (`format!("{:<w$}", s)`).
pub open spec fn padded(s: Seq<char>, w: int) -> Seq<char> {
    if s.len() < w {
        s + spaces(w - s.len())
    } else {
        s
    }
}

/// The first `c` cells, padded to their widths, three spaces between cells.
pub open spec fn cells_text(cells: Seq<Seq<char>>, w: Seq<int>, c: int) -> Seq<char>
    decreases c,
{
    if c <= 0 {
        Seq::empty()
    } else {
        cells_text(cells, w, c - 1) + padded(cells[c - 1], w[c - 1]) + if c < 6 {
            "   "@
        } else {
            Seq::empty()
        }
    }
}

/// A line of the table: a space, the six cells, a newline.
pub open spec fn table_line(cells: Seq<Seq<char>>, w: Seq<int>) -> Seq<char> {
    " "@ + cells_text(cells, w, 6) + "\n"@
}

/// The lines of the first `n` rows.
pub open spec fn rows_text(rows: Seq<TableRow>, w: Seq<int>, n: int) -> Seq<char>
    decreases n,
{
    if n <= 0 {
        Seq::empty()
    } else {
        rows_text(rows, w, n - 1) + table_line(row_cells(rows[n - 1]), w)
    }
}

/// The length of the rule under the header: the columns, the gaps, the leading space.
pub open spec fn rule_len(w: Seq<int>) -> int {
    w[0] + w[1] + w[2] + w[3] + w[4] + w[5] + 16
}

/// `n` box-drawing dashes.
pub open spec fn rule(n: int) -> Seq<char> {
    Seq::new(n as nat, |i: int| '─')
}

/// The table report: header, rule, rows, a blank line, the total saving when there
/// is one, and the closing line.
pub open spec fn table_text(rows: Seq<TableRow>, total: Option<Seq<char>>) -> Seq<char> {
    let w = widths(rows);
    table_line(header_cells(), w) + rule(rule_len(w)) + "\n"@ + rows_text(rows, w, rows.len() as int)
        + "\n"@ + match total {
        None => Seq::empty(),
        Some(t) => "Total potential saving: $"@ + t + "/month\n"@,
    } + "\n→ Reduce this bill with Uptime Scheduler: https://uptimescheduler.com\n"@
}

fn header(c: usize) -> (h: &'static str)
    requires
        c < 6,
    ensures
        h@ == header_cells()[c as int],
{
    if c == 0 {
        "Resource"
    } else if c == 1 {
        "Type"
    } else if c == 2 {
        "Idle %"
    } else if c == 3 {
        "Est. Cost/mo"
    } else if c == 4 {
        "Saving/mo"
    } else {
        "Suggested Schedule"
    }
}

fn cell(r: &TableRow, c: usize) -> (s: &String)
    requires
        c < 6,
    ensures
        s@ == row_cells(*r)[c as int],
{
    if c == 0 {
        &r.resource
    } else if c == 1 {
        &r.kind
    } else if c == 2 {
        &r.idle
    } else if c == 3 {
        &r.cost
    } else if c == 4 {
        &r.saving
    } else {
        &r.schedule
    }
}

fn push_padded(out: &mut String, s: &str, w: usize)
    ensures
        final(out)@ == old(out)@ + padded(s@, w as int),
{
    let cs = chars_of(s);
    out.append(s);
    if cs.len() < w {
        let mut k = cs.len();
        while k < w
            invariant
                cs@ == s@,
                cs@.len() <= k <= w,
                out@ == old(out)@ + s@ + spaces(k - cs@.len()),
            decreases w - k,
        {
            push_char(out, ' ');
            assert(spaces(k + 1 - cs@.len()) =~= spaces(k - cs@.len()).push(' '));
            k = k + 1;
        }
    }
    assert(out@ =~= old(out)@ + padded(s@, w as int));
}

fn push_line(out: &mut String, cells: &Vec<String>, w: &Vec<usize>, ws: Ghost<Seq<int>>)
    requires
        cells@.len() == 6,
        w@.len() == 6,
        ws@.len() == 6,
        forall|c: int| 0 <= c < 6 ==> #[trigger] w@[c] as int == ws@[c],
    ensures
        final(out)@ == old(out)@ + table_line(cells@.map_values(|x: String| x@), ws@),
{
    let ghost cv = cells@.map_values(|x: String| x@);
    out.append(" ");
    let mut c: usize = 0;
    while c < 6
        invariant
            cells@.len() == 6,
            w@.len() == 6,
            ws@.len() == 6,
            forall|k: int| 0 <= k < 6 ==> #[trigger] w@[k] as int == ws@[k],
            cv == cells@.map_values(|x: String| x@),
            c <= 6,
            out@ == old(out)@ + " "@ + cells_text(cv, ws@, c as int),
        decreases 6 - c,
    {
        push_padded(out, cells[c].as_str(), w[c]);
        if c < 5 {
            out.append("   ");
        }
        c = c + 1;
    }
    out.append("\n");
}

fn cells_of(r: &TableRow) -> (v: Vec<String>)
    ensures
        v@.len() == 6,
        v@.map_values(|x: String| x@) == row_cells(*r),
{
    let v = vec![
        r.resource.clone(),
        r.kind.clone(),
        r.idle.clone(),
        r.cost.clone(),
        r.saving.clone(),
        r.schedule.clone(),
    ];
    assert(v@.map_values(|x: String| x@) =~= row_cells(*r));
    v
}

/// Lays out the table report (see `table_text`). `total` is the total potential
/// saving, already written out, when there is one.
pub fn render(rows: &Vec<TableRow>, total: Option<&str>) -> (out: String)
    requires
        rule_len(widths(rows@)) <= usize::MAX,
    ensures
        out@ == table_text(rows@, match total {
            None => None,
            Some(t) => Some(t@),
        }),
{
    let ghost ws = widths(rows@);
    let mut w: Vec<usize> = Vec::new();
    let mut c: usize = 0;
    while c < 6
        invariant
            c <= 6,
            w@.len() == c,
            forall|k: int| 0 <= k < c ==> #[trigger] w@[k] as int == ws[k],
            ws == widths(rows@),
        decreases 6 - c,
    {
        let mut width = header(c).len();
        let mut i: usize = 0;
        while i < rows.len()
            invariant
                c < 6,
                i <= rows@.len(),
                width as int == col_width(rows@, c as int, i as int),
            decreases rows@.len() - i,
        {
            let x = cell(&rows[i], c).as_str().len();
            if x > width {
                width = x;
            }
            i = i + 1;
        }
        w.push(width);
        c = c + 1;
    }
    let mut out = String::new();
    let heads = vec![
        String::from_str(header(0)),
        String::from_str(header(1)),
        String::from_str(header(2)),
        String::from_str(header(3)),
        String::from_str(header(4)),
        String::from_str(header(5)),
    ];
    assert(heads@.map_values(|x: String| x@) =~= header_cells());
    push_line(&mut out, &heads, &w, Ghost(ws));
    let total_width = w[0] + w[1] + w[2] + w[3] + w[4] + w[5] + 16;
    let ghost before_rule = out@;
    let mut k: usize = 0;
    while k < total_width
        invariant
            k <= total_width,
            out@ == before_rule + rule(k as int),
        decreases total_width - k,
    {
        push_char(&mut out, '─');
        assert(rule(k + 1) =~= rule(k as int).push('─'));
        k = k + 1;
    }
    out.append("\n");
    let ghost before_rows = out@;
    let mut i: usize = 0;
    while i < rows.len()
        invariant
            i <= rows@.len(),
            w@.len() == 6,
            forall|k: int| 0 <= k < 6 ==> #[trigger] w@[k] as int == ws[k],
            ws.len() == 6,
            out@ == before_rows + rows_text(rows@, ws, i as int),
        decreases rows@.len() - i,
    {
        let cells = cells_of(&rows[i]);
        push_line(&mut out, &cells, &w, Ghost(ws));
        i = i + 1;
    }
    out.append("\n");
    match total {
        None => {},
        Some(t) => {
            out.append("Total potential saving: $");
            out.append(t);
            out.append("/month\n");
        },
    }
    out.append("\n→ Reduce this bill with Uptime Scheduler: https://uptimescheduler.com\n");
    out
}

/// The name of a resource in reports: its name, or its id when it has none.
pub fn resource_label<C>(r: &Resource<C>) -> (s: String)
    ensures
        s@ == match r.name {
            Some(n) => n@,
            None => r.id@,
        },
{
    match &r.name {
        Some(n) => n.clone(),
        None => r.id.clone(),
    }
}

/// The type column of a resource: "EC2 t3.large", "ECS Fargate", "RDS db.t3.micro",
/// "NAT GW" (EC2 and RDS without an instance type are just "EC2", "RDS").
pub open spec fn type_label_of(kind: ResourceKind, itype: Option<Seq<char>>) -> Seq<char> {
    match kind {
        ResourceKind::EC2 => match itype {
            Some(t) => "EC2 "@ + t,
            None => "EC2"@,
        },
        ResourceKind::ECS => "ECS Fargate"@,
        ResourceKind::RDS => match itype {
            Some(t) => "RDS "@ + t,
            None => "RDS"@,
        },
        ResourceKind::NatGateway => "NAT GW"@,
    }
}

/// The type column of a resource (see `type_label_of`).
pub fn type_label<C>(r: &Resource<C>) -> (s: String)
    ensures
        s@ == type_label_of(r.kind, match r.instance_type {
            Some(t) => Some(t@),
            None => None,
        }),
{
    match r.kind {
        ResourceKind::EC2 => match &r.instance_type {
            Some(t) => {
                let mut s = String::from_str("EC2 ");
                s.append(t.as_str());
                s
            },
            None => String::from_str("EC2"),
        },
        ResourceKind::ECS => String::from_str("ECS Fargate"),
        ResourceKind::RDS => match &r.instance_type {
            Some(t) => {
                let mut s = String::from_str("RDS ");
                s.append(t.as_str());
                s
            },
            None => String::from_str("RDS"),
        },
        ResourceKind::NatGateway => String::from_str("NAT GW"),
    }
}

/// The text of a figure that may be missing: the figure, or "n/a".
pub open spec fn or_na(s: Option<String>) -> Seq<char> {
    match s {
        Some(t) => t@,
        None => "n/a"@,
    }
}

fn figure_or_na(s: Option<String>) -> (r: String)
    ensures
        r@ == or_na(s),
{
    match s {
        Some(t) => t,
        None => String::from_str("n/a"),
    }
}

/// The row of a resource: its label, its type, the idle share as written out by
/// the caller, the monthly cost and saving as written out by the caller ("n/a"
/// when there is none), and its schedule as shown to people.
pub fn table_row<C>(r: &Resource<C>, idle: String, cost: Option<String>, saving: Option<String>, schedule: Option<&str>) -> (row: TableRow)
    requires
        schedule_showable(match schedule {
            None => None,
            Some(s) => Some(s@),
        }),
    ensures
        row.resource@ == (match r.name {
            Some(n) => n@,
            None => r.id@,
        }),
        row.kind@ == type_label_of(r.kind, match r.instance_type {
            Some(t) => Some(t@),
            None => None,
        }),
        row.idle == idle,
        row.cost@ == or_na(cost),
        row.saving@ == or_na(saving),
        row.schedule@ == shown_schedule(match schedule {
            None => None,
            Some(s) => Some(s@),
        }),
{
    TableRow {
        resource: resource_label(r),
        kind: type_label(r),
        idle,
        cost: figure_or_na(cost),
        saving: figure_or_na(saving),
        schedule: format_schedule(schedule),
    }
}

} // verus!
