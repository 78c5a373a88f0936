//! The HTML report: a summary table, then for each resource a card with its
//! figures and a seven-day heatmap of its idle signal.
use vstd::prelude::*;

use crate::csv::{decimal, push_decimal};
use crate::kinds::{kind_code, kind_code_of};
use crate::report::{heatmap_cell, heatmap_cell_of};
use crate::resource::Resource;
use crate::series::all_representable;
use crate::text::{digit_char, push_digit};
use crate::time::{format_utc, utc_text, representable, day_number, day_of};

verus! {

/// The page up to the time in its title.
pub const PAGE_START: &'static str = "<!DOCTYPE html>\n<html lang=\"en\">\n<head>\n<meta charset=\"utf-8\">\n<meta name=\"viewport\" content=\"width=device-width, initial-scale=1\">\n<title>upscan Report — ";

/// From the end of the title (with the style sheet) to the region in the header.
pub const PAGE_TITLE_END: &'static str = "</title>\n<style>\n*{box-sizing:border-box;margin:0;padding:0}\nbody{font-family:-apple-system,BlinkMacSystemFont,'Segoe UI',sans-serif;background:#f4f6f8;color:#2d3748;padding:2rem;line-height:1.5}\n.header{background:#1a202c;color:#fff;padding:2rem;border-radius:12px;margin-bottom:2rem}\n.header h1{font-size:1.4rem;font-weight:600;margin-bottom:.5rem}\n.meta{color:#a0aec0;font-size:.875rem}\n.saving-total{font-size:2.5rem;font-weight:700;color:#48bb78;margin:.75rem 0}\n.section{background:#fff;border-radius:12px;padding:1.5rem;margin-bottom:1.5rem;box-shadow:0 1px 3px rgba(0,0,0,.08)}\n.section h2{font-size:1rem;font-weight:600;color:#718096;text-transform:uppercase;letter-spacing:.05em;margin-bottom:1rem}\ntable{width:100%;border-collapse:collapse}\nth{text-align:left;padding:.625rem 1rem;border-bottom:2px solid #edf2f7;color:#718096;font-size:.8rem;text-transform:uppercase}\ntd{padding:.625rem 1rem;border-bottom:1px solid #edf2f7;font-size:.9rem}\ntd small{color:#a0aec0}\n.total-row td{font-weight:600;border-top:2px solid #edf2f7;border-bottom:none}\n.resource-card{background:#fff;border-radius:12px;padding:1.5rem;margin-bottom:1rem;box-shadow:0 1px 3px rgba(0,0,0,.08)}\n.resource-header{display:flex;align-items:baseline;gap:1rem;margin-bottom:1rem;flex-wrap:wrap}\n.resource-name{font-weight:600}\n.resource-saving{margin-left:auto;font-weight:700;color:#48bb78}\n.resource-stats{display:flex;gap:2rem;margin-bottom:1rem}\n.stat{display:flex;flex-direction:column}\n.stat-label{font-size:.75rem;color:#a0aec0;text-transform:uppercase}\n.stat-value{font-weight:600}\n.warn-badge{color:#c05621;font-size:.8rem;margin-left:.5rem}\n.outside-warn{background:#fffaf0;border:1px solid #f6ad55;color:#c05621;padding:.625rem 1rem;border-radius:6px;font-size:.85rem;margin-bottom:1rem}\n.disclaimer{background:#fffaf0;border:1px solid #f6ad55;color:#7b5213;padding:.75rem 1rem;border-radius:8px;font-size:.85rem;margin-bottom:1.25rem}\n.heatmap-wrap{overflow-x:auto}\n.heatmap-hours,.heatmap-row{display:grid;grid-template-columns:80px repeat(24,1fr);gap:2px;margin-bottom:2px}\n.heatmap-day-label{font-size:.7rem;color:#a0aec0;display:flex;align-items:center;white-space:nowrap}\n.heatmap-hour-label{font-size:.65rem;color:#a0aec0;text-align:center}\n.heatmap-cell{height:18px;border-radius:2px}\n.legend{display:flex;gap:1rem;flex-wrap:wrap;margin-top:.5rem}\n.legend-item{display:flex;align-items:center;gap:.25rem;font-size:.75rem;color:#718096}\n.legend-swatch{width:16px;height:16px;border-radius:2px}\n.cta{background:linear-gradient(135deg,#667eea 0%,#764ba2 100%);color:#fff;padding:2rem;border-radius:12px;text-align:center;margin-top:2rem}\n.cta p{margin-bottom:1rem;opacity:.9}\n.cta a{display:inline-block;background:#fff;color:#667eea;padding:.75rem 2rem;border-radius:8px;text-decoration:none;font-weight:700}\n</style>\n</head>\n<body>\n<div class=\"header\">\n  <h1>upscan Report</h1>\n  <div class=\"meta\">Region: ";

/// Between the region and the lookback in days.
pub const PAGE_LOOKBACK: &'static str = " · Lookback: ";

/// Between the lookback and the time the report was generated.
pub const PAGE_GENERATED: &'static str = " days · Generated: ";

/// After the time in the header, before the total saving.
pub const PAGE_META_END: &'static str = "</div>\n  ";

/// From the end of the header to the rows of the summary table.
pub const PAGE_SUMMARY: &'static str = "\n</div>\n<div class=\"section\">\n  <h2>Summary</h2>\n  <table>\n    <thead><tr><th>Resource</th><th>Type</th><th>Idle pattern</th><th>Idle %</th><th>Est. saving/mo</th></tr></thead>\n    <tbody>";

/// From the end of the summary table to the resource cards (with the legend).
pub const PAGE_DETAIL: &'static str = "</tbody>\n  </table>\n</div>\n<div class=\"section\">\n  <h2>Resource Detail &amp; Utilisation Heatmaps</h2>\n  <div class=\"disclaimer\">&#9888; Suggested schedules are a guideline only. Review each resource carefully and verify the schedule against your actual workload before applying in production.</div>\n  <div class=\"legend\">\n    <div class=\"legend-item\"><div class=\"legend-swatch\" style=\"background:#2ecc71\"></div>Active</div>\n    <div class=\"legend-item\"><div class=\"legend-swatch\" style=\"background:#f1c40f\"></div>Near threshold</div>\n    <div class=\"legend-item\"><div class=\"legend-swatch\" style=\"background:#f39c12\"></div>Low</div>\n    <div class=\"legend-item\"><div class=\"legend-swatch\" style=\"background:#e74c3c\"></div>Idle</div>\n    <div class=\"legend-item\"><div class=\"legend-swatch\" style=\"background:#cccccc\"></div>No data</div>\n  </div>\n  ";

/// After the resource cards: the closing call to action.
pub const PAGE_END: &'static str = "\n</div>\n<div class=\"cta\">\n  <p>Schedule these resources automatically and start saving today.</p>\n  <a href='https://uptimescheduler.com'>Get started with Uptime Scheduler →</a>\n</div>\n</body>\n</html>";


/// The positions below `n` whose instant falls in the heatmap cell (`row`, `hour`),
/// ascending (see `heatmap_cell_of`).
pub open spec fn cell_members(now: int, nanos: int, ts: Seq<i64>, row: int, hour: int, n: int) -> Seq<usize>
    decreases n,
{
    if n <= 0 {
        Seq::empty()
    } else if heatmap_cell_of(now, nanos, ts[n - 1] as int) == Some((row as usize, hour as usize)) {
        cell_members(now, nanos, ts, row, hour, n - 1).push((n - 1) as usize)
    } else {
        cell_members(now, nanos, ts, row, hour, n - 1)
    }
}

fn members_of(cells: &Vec<Option<(usize, usize)>>, row: usize, hour: usize, ghost_now: Ghost<(int, int, Seq<i64>)>) -> (m: Vec<usize>)
    requires
        cells@.len() == ghost_now@.2.len(),
        forall|i: int| 0 <= i < cells@.len() ==> #[trigger] cells@[i] == heatmap_cell_of(ghost_now@.0, ghost_now@.1, ghost_now@.2[i] as int),
    ensures
        m@ == cell_members(ghost_now@.0, ghost_now@.1, ghost_now@.2, row as int, hour as int, cells@.len() as int),
{
    let mut m: Vec<usize> = Vec::new();
    let mut i: usize = 0;
    while i < cells.len()
        invariant
            cells@.len() == ghost_now@.2.len(),
            forall|k: int| 0 <= k < cells@.len() ==> #[trigger] cells@[k] == heatmap_cell_of(ghost_now@.0, ghost_now@.1, ghost_now@.2[k] as int),
            i <= cells@.len(),
            m@ == cell_members(ghost_now@.0, ghost_now@.1, ghost_now@.2, row as int, hour as int, i as int),
        decreases cells@.len() - i,
    {
        match cells[i] {
            Some((r, h)) => {
                if r == row && h == hour {
                    m.push(i);
                }
            },
            None => {},
        }
        i = i + 1;
    }
    m
}

/// The observations of each cell of the seven-day heatmap seen at `now` (whole
/// seconds `now` and `now_nanos` nanoseconds): `g[row][hour]` lists the positions
/// of `ts` that fall in that cell, ascending (see `heatmap_cell_of`).
pub fn heatmap_members(now: i64, now_nanos: u32, ts: &Vec<i64>) -> (g: Vec<Vec<Vec<usize>>>)
    requires
        representable(now as int),
        all_representable(ts@),
    ensures
        g@.len() == 7,
        forall|r: int| 0 <= r < 7 ==> (#[trigger] g@[r])@.len() == 24,
        forall|r: int, h: int|
            0 <= r < 7 && 0 <= h < 24 ==> (#[trigger] g@[r]@[h])@ == cell_members(now as int, now_nanos as int, ts@, r, h, ts@.len() as int),
{
    let ghost gn = (now as int, now_nanos as int, ts@);
    let mut cells: Vec<Option<(usize, usize)>> = Vec::new();
    let mut i: usize = 0;
    while i < ts.len()
        invariant
            representable(now as int),
            all_representable(ts@),
            gn == (now as int, now_nanos as int, ts@),
            i <= ts@.len(),
            cells@.len() == i,
            forall|k: int| 0 <= k < i ==> #[trigger] cells@[k] == heatmap_cell_of(gn.0, gn.1, gn.2[k] as int),
        decreases ts@.len() - i,
    {
        assert(representable(ts@[i as int] as int));
        cells.push(heatmap_cell(now, now_nanos, ts[i]));
        i = i + 1;
    }
    let mut g: Vec<Vec<Vec<usize>>> = Vec::new();
    let mut r: usize = 0;
    while r < 7
        invariant
            gn == (now as int, now_nanos as int, ts@),
            cells@.len() == ts@.len(),
            forall|k: int| 0 <= k < cells@.len() ==> #[trigger] cells@[k] == heatmap_cell_of(gn.0, gn.1, gn.2[k] as int),
            r <= 7,
            g@.len() == r,
            forall|a: int| 0 <= a < r ==> (#[trigger] g@[a])@.len() == 24,
            forall|a: int, h: int|
                0 <= a < r && 0 <= h < 24 ==> (#[trigger] g@[a]@[h])@ == cell_members(gn.0, gn.1, ts@, a, h, ts@.len() as int),
        decreases 7 - r,
    {
        let mut row: Vec<Vec<usize>> = Vec::new();
        let mut h: usize = 0;
        while h < 24
            invariant
                gn == (now as int, now_nanos as int, ts@),
                cells@.len() == ts@.len(),
                forall|k: int| 0 <= k < cells@.len() ==> #[trigger] cells@[k] == heatmap_cell_of(gn.0, gn.1, gn.2[k] as int),
                r < 7,
                h <= 24,
                row@.len() == h,
                forall|x: int| 0 <= x < h ==> (#[trigger] row@[x])@ == cell_members(gn.0, gn.1, ts@, r as int, x, ts@.len() as int),
            decreases 24 - h,
        {
            row.push(members_of(&cells, r, h, Ghost(gn)));
            h = h + 1;
        }
        g.push(row);
        r = r + 1;
    }
    g
}

/// One cell of the heatmap as drawn: its colour, and its value written out, if the
/// hour has observations.
pub struct HeatCell {
    pub color: String,
    pub value: Option<String>,
}

/// `h` (below 100) with two digits.
pub open spec fn two_digits(h: int) -> Seq<char> {
    seq![digit_char(h / 10), digit_char(h % 10)]
}

fn push_two_digits(out: &mut String, h: usize)
    requires
        h < 100,
    ensures
        final(out)@ == old(out)@ + two_digits(h as int),
{
    push_digit(out, (h / 10) as u32);
    push_digit(out, (h % 10) as u32);
    assert(final(out)@ =~= old(out)@ + two_digits(h as int));
}

/// The instant at which the day of heatmap row `row` begins: row 6 is the day of
/// `now`, row 0 six days before.
pub open spec fn row_day(now: int, row: int) -> int {
    (day_number(now) - (6 - row)) * 86400
}

/// The label of heatmap row `row`, e.g. "Mon 01/15".
pub open spec fn day_label(now: int, row: int) -> Seq<char> {
    utc_text(row_day(now, row), "%a %m/%d"@)
}

/// The hour labels 00 to `n - 1`.
pub open spec fn hour_labels(n: int) -> Seq<char>
    decreases n,
{
    if n <= 0 {
        Seq::empty()
    } else {
        hour_labels(n - 1) + "<div class=\"heatmap-hour-label\">"@ + two_digits(n - 1) + "</div>"@
    }
}

/// A heatmap cell, titled with its day, hour and value ("no data" when it has none).
pub open spec fn cell_html(label: Seq<char>, hour: int, c: HeatCell) -> Seq<char> {
    "<div class=\"heatmap-cell\" style=\"background:"@ + c.color@ + "\" title=\""@ + label + " "@
        + two_digits(hour) + ":00 — "@ + match c.value {
        None => "no data"@,
        Some(v) => v@,
    } + "\"></div>"@
}

/// The first `n` cells of a heatmap row.
pub open spec fn cells_html(label: Seq<char>, cells: Seq<HeatCell>, n: int) -> Seq<char>
    decreases n,
{
    if n <= 0 {
        Seq::empty()
    } else {
        cells_html(label, cells, n - 1) + cell_html(label, n - 1, cells[n - 1])
    }
}

/// A row of the heatmap: its day label and its 24 cells.
pub open spec fn row_html(label: Seq<char>, cells: Seq<HeatCell>) -> Seq<char> {
    "<div class=\"heatmap-row\"><div class=\"heatmap-day-label\">"@ + label + "</div>"@ + cells_html(label, cells, 24)
        + "</div>\n"@
}

/// The first `n` rows of the heatmap.
pub open spec fn rows_html(now: int, grid: Seq<Vec<HeatCell>>, n: int) -> Seq<char>
    decreases n,
{
    if n <= 0 {
        Seq::empty()
    } else {
        rows_html(now, grid, n - 1) + row_html(day_label(now, n - 1), grid[n - 1]@)
    }
}

/// The heatmap: the hour labels, then a row per day, oldest first.
pub open spec fn heatmap_html(now: int, grid: Seq<Vec<HeatCell>>) -> Seq<char> {
    "<div class=\"heatmap-wrap\"><div class=\"heatmap-hours\"><div class=\"heatmap-day-label\"></div>"@ + hour_labels(24)
        + "</div>\n"@ + rows_html(now, grid, 7) + "</div>"@
}

fn push_cell(out: &mut String, label: &str, hour: usize, c: &HeatCell)
    requires
        hour < 24,
    ensures
        final(out)@ == old(out)@ + cell_html(label@, hour as int, *c),
{
    out.append("<div class=\"heatmap-cell\" style=\"background:");
    out.append(c.color.as_str());
    out.append("\" title=\"");
    out.append(label);
    out.append(" ");
    push_two_digits(out, hour);
    out.append(":00 — ");
    match &c.value {
        None => out.append("no data"),
        Some(v) => out.append(v.as_str()),
    }
    out.append("\"></div>");
}

/// Draws the seven-day heatmap seen at `now` (see `heatmap_html`): `grid[row][hour]`
/// is the cell of that day and hour, row 6 being the day of `now`.
pub fn render_heatmap(now: i64, grid: &Vec<Vec<HeatCell>>) -> (out: String)
    requires
        representable(now as int),
        representable(row_day(now as int, 0)),
        grid@.len() == 7,
        forall|r: int| 0 <= r < 7 ==> (#[trigger] grid@[r])@.len() == 24,
    ensures
        out@ == heatmap_html(now as int, grid@),
{
    let mut out = String::from_str("<div class=\"heatmap-wrap\"><div class=\"heatmap-hours\"><div class=\"heatmap-day-label\"></div>");
    let mut h: usize = 0;
    while h < 24
        invariant
            h <= 24,
            out@ == "<div class=\"heatmap-wrap\"><div class=\"heatmap-hours\"><div class=\"heatmap-day-label\"></div>"@ + hour_labels(h as int),
        decreases 24 - h,
    {
        out.append("<div class=\"heatmap-hour-label\">");
        push_two_digits(&mut out, h);
        out.append("</div>");
        h = h + 1;
    }
    out.append("</div>\n");
    let ghost head = out@;
    let today = day_of(now);
    let mut r: usize = 0;
    while r < 7
        invariant
            representable(now as int),
            representable(row_day(now as int, 0)),
            today == day_number(now as int),
            grid@.len() == 7,
            forall|x: int| 0 <= x < 7 ==> (#[trigger] grid@[x])@.len() == 24,
            r <= 7,
            out@ == head + rows_html(now as int, grid@, r as int),
        decreases 7 - r,
    {
        let day_start = (today - (6 - r as i64)) * 86400;
        assert(day_start == row_day(now as int, r as int));
        assert(representable(day_start as int));
        let label = format_utc(day_start, "%a %m/%d");
        out.append("<div class=\"heatmap-row\"><div class=\"heatmap-day-label\">");
        out.append(label.as_str());
        out.append("</div>");
        let ghost row_start = out@;
        let row = &grid[r];
        let mut c: usize = 0;
        while c < 24
            invariant
                row@.len() == 24,
                c <= 24,
                out@ == row_start + cells_html(label@, row@, c as int),
            decreases 24 - c,
        {
            push_cell(&mut out, label.as_str(), c, &row[c]);
            c = c + 1;
        }
        out.append("</div>\n");
        r = r + 1;
    }
    out.append("</div>");
    out
}

/// What the HTML report shows of one resource, already written out.
pub struct HtmlEntry {
    /// Its name, or its id.
    pub name: String,
    /// Its instance type, or "—".
    pub itype: String,
    /// Its kind code.
    pub kind: String,
    /// Its idle pattern, or "—".
    pub pattern: String,
    /// Its schedule tag, or "—".
    pub schedule: String,
    /// Its idle percentage.
    pub idle: String,
    /// Its monthly saving on the schedule, if it has one.
    pub saving: Option<String>,
    /// Active hours outside the schedule.
    pub outside: u32,
    /// Its heatmap (`render_heatmap`).
    pub heatmap: String,
}

/// The text of an optional string, or "—" when there is none.
pub open spec fn or_dash(s: Option<Seq<char>>) -> Seq<char> {
    match s {
        Some(t) => t,
        None => "—"@,
    }
}

fn dash_or(s: Option<&str>) -> (r: String)
    ensures
        r@ == or_dash(match s {
            Some(t) => Some(t@),
            None => None,
        }),
{
    match s {
        Some(t) => String::from_str(t),
        None => String::from_str("—"),
    }
}

/// What the report shows of a resource: its name (or id), instance type, kind code,
/// pattern and schedule ("—" for what is missing), and the figures given.
pub fn html_entry<C>(
    r: &Resource<C>,
    pattern: Option<&str>,
    schedule: Option<&str>,
    idle: String,
    saving: Option<String>,
    outside: u32,
    heatmap: String,
) -> (e: HtmlEntry)
    ensures
        e.name@ == (match r.name {
            Some(n) => n@,
            None => r.id@,
        }),
        e.itype@ == or_dash(match r.instance_type {
            Some(t) => Some(t@),
            None => None,
        }),
        e.kind@ == kind_code_of(r.kind),
        e.pattern@ == or_dash(match pattern {
            Some(t) => Some(t@),
            None => None,
        }),
        e.schedule@ == or_dash(match schedule {
            Some(t) => Some(t@),
            None => None,
        }),
        e.idle == idle,
        e.saving == saving,
        e.outside == outside,
        e.heatmap == heatmap,
{
    let name = match &r.name {
        Some(n) => n.clone(),
        None => r.id.clone(),
    };
    let itype = match &r.instance_type {
        Some(t) => String::from_str(t.as_str()),
        None => String::from_str("—"),
    };
    HtmlEntry {
        name,
        itype,
        kind: String::from_str(kind_code(&r.kind)),
        pattern: dash_or(pattern),
        schedule: dash_or(schedule),
        idle,
        saving,
        outside,
        heatmap,
    }
}

/// The saving of an entry as the summary shows it: "$12.34", or "n/a".
pub open spec fn summary_saving(e: HtmlEntry) -> Seq<char> {
    match e.saving {
        Some(s) => "$"@ + s@,
        None => "n/a"@,
    }
}

/// The row of an entry in the summary table.
pub open spec fn summary_row(e: HtmlEntry) -> Seq<char> {
    "<tr><td>"@ + e.name@ + " <small>("@ + e.itype@ + ")</small></td><td>"@ + e.kind@ + "</td><td>"@
        + e.pattern@ + "</td><td>"@ + e.idle@ + "%</td><td>"@ + summary_saving(e) + "</td></tr>"@
}

/// The warning of an entry whose schedule leaves active hours out.
pub open spec fn outside_block(e: HtmlEntry) -> Seq<char> {
    if e.outside > 0 {
        "<div class=\"outside-warn\">⚠ "@ + decimal(e.outside as nat)
            + " active hours fall outside the suggested schedule window — verify before scheduling</div>"@
    } else {
        Seq::empty()
    }
}

/// The card of an entry: name and saving, idle share, pattern and schedule, the
/// warning, and the heatmap.
pub open spec fn card(e: HtmlEntry) -> Seq<char> {
    "<div class=\"resource-card\"><div class=\"resource-header\"><span class=\"resource-name\">"@ + e.name@
        + "</span><span class=\"resource-saving\">"@ + match e.saving {
        Some(s) => "$"@ + s@ + "/mo"@,
        None => "n/a"@,
    } + "</span></div><div class=\"resource-stats\"><div class=\"stat\"><span class=\"stat-label\">Idle</span><span class=\"stat-value\">"@
        + e.idle@ + "%</span></div><div class=\"stat\"><span class=\"stat-label\">Pattern</span><span class=\"stat-value\">"@
        + e.pattern@ + "</span></div><div class=\"stat\"><span class=\"stat-label\">Schedule</span><span class=\"stat-value\">"@
        + e.schedule@ + "</span></div></div>"@ + outside_block(e) + e.heatmap@ + "</div>"@
}

/// `parts[0..n]` joined by newlines.
pub open spec fn joined(parts: Seq<Seq<char>>, n: int) -> Seq<char>
    decreases n,
{
    if n <= 0 {
        Seq::empty()
    } else if n == 1 {
        parts[0]
    } else {
        joined(parts, n - 1) + "\n"@ + parts[n - 1]
    }
}

/// The total saving under the header, when there is one.
pub open spec fn saving_block(total: Option<Seq<char>>) -> Seq<char> {
    match total {
        Some(t) => "<div class=\"saving-total\">$"@ + t
            + "<span style=\"font-size:1.2rem;font-weight:400;color:#a0aec0\">/month potential saving</span></div>"@,
        None => Seq::empty(),
    }
}

/// The total row of the summary table, when there is a total.
pub open spec fn total_row(total: Option<Seq<char>>) -> Seq<char> {
    match total {
        Some(t) => "<tr class=\"total-row\"><td colspan=\"4\"><strong>Total potential saving</strong></td><td><strong>$"@
            + t + "/month</strong></td></tr>"@,
        None => Seq::empty(),
    }
}

/// The HTML report for `region` over `days` days, generated at the time written
/// `now_text`, with one summary row and one card per entry, and the total saving
/// when there is one.
pub open spec fn html_page(region: Seq<char>, days: u32, now_text: Seq<char>, entries: Seq<HtmlEntry>, total: Option<Seq<char>>) -> Seq<char> {
    PAGE_START@ + now_text + PAGE_TITLE_END@ + region + PAGE_LOOKBACK@ + decimal(days as nat) + PAGE_GENERATED@ + now_text
        + PAGE_META_END@ + saving_block(total) + PAGE_SUMMARY@ + joined(entries.map_values(|e: HtmlEntry| summary_row(e)), entries.len() as int)
        + total_row(total) + PAGE_DETAIL@ + joined(entries.map_values(|e: HtmlEntry| card(e)), entries.len() as int) + PAGE_END@
}

fn push_summary_row(out: &mut String, e: &HtmlEntry)
    ensures
        final(out)@ == old(out)@ + summary_row(*e),
{
    out.append("<tr><td>");
    out.append(e.name.as_str());
    out.append(" <small>(");
    out.append(e.itype.as_str());
    out.append(")</small></td><td>");
    out.append(e.kind.as_str());
    out.append("</td><td>");
    out.append(e.pattern.as_str());
    out.append("</td><td>");
    out.append(e.idle.as_str());
    out.append("%</td><td>");
    match &e.saving {
        Some(s) => {
            out.append("$");
            out.append(s.as_str());
        },
        None => out.append("n/a"),
    }
    out.append("</td></tr>");
}

fn push_card(out: &mut String, e: &HtmlEntry)
    ensures
        final(out)@ == old(out)@ + card(*e),
{
    out.append("<div class=\"resource-card\"><div class=\"resource-header\"><span class=\"resource-name\">");
    out.append(e.name.as_str());
    out.append("</span><span class=\"resource-saving\">");
    match &e.saving {
        Some(s) => {
            out.append("$");
            out.append(s.as_str());
            out.append("/mo");
        },
        None => out.append("n/a"),
    }
    out.append("</span></div><div class=\"resource-stats\"><div class=\"stat\"><span class=\"stat-label\">Idle</span><span class=\"stat-value\">");
    out.append(e.idle.as_str());
    out.append("%</span></div><div class=\"stat\"><span class=\"stat-label\">Pattern</span><span class=\"stat-value\">");
    out.append(e.pattern.as_str());
    out.append("</span></div><div class=\"stat\"><span class=\"stat-label\">Schedule</span><span class=\"stat-value\">");
    out.append(e.schedule.as_str());
    out.append("</span></div></div>");
    if e.outside > 0 {
        out.append("<div class=\"outside-warn\">⚠ ");
        push_decimal(out, e.outside);
        out.append(" active hours fall outside the suggested schedule window — verify before scheduling</div>");
    }
    out.append(e.heatmap.as_str());
    out.append("</div>");
}

/// Writes the HTML report generated at `now` (see `html_page`; the time is written
/// `%Y-%m-%d %H:%M UTC`). `total` is the total potential saving, written out, when
/// it is above zero.
pub fn render(region: &str, days: u32, now: i64, entries: &Vec<HtmlEntry>, total: Option<&str>) -> (out: String)
    requires
        representable(now as int),
    ensures
        out@ == html_page(region@, days, utc_text(now as int, "%Y-%m-%d %H:%M UTC"@), entries@, match total {
            Some(t) => Some(t@),
            None => None,
        }),
{
    let now_text = format_utc(now, "%Y-%m-%d %H:%M UTC");
    let ghost tv = match total {
        Some(t) => Some(t@),
        None => None::<Seq<char>>,
    };
    let mut out = String::from_str(PAGE_START);
    out.append(now_text.as_str());
    out.append(PAGE_TITLE_END);
    out.append(region);
    out.append(PAGE_LOOKBACK);
    push_decimal(&mut out, days);
    out.append(PAGE_GENERATED);
    out.append(now_text.as_str());
    out.append(PAGE_META_END);
    match total {
        Some(t) => {
            out.append("<div class=\"saving-total\">$");
            out.append(t);
            out.append("<span style=\"font-size:1.2rem;font-weight:400;color:#a0aec0\">/month potential saving</span></div>");
        },
        None => {},
    }
    out.append(PAGE_SUMMARY);
    let ghost rows = entries@.map_values(|e: HtmlEntry| summary_row(e));
    let ghost before_rows = out@;
    let mut i: usize = 0;
    while i < entries.len()
        invariant
            i <= entries@.len(),
            rows == entries@.map_values(|e: HtmlEntry| summary_row(e)),
            out@ == before_rows + joined(rows, i as int),
        decreases entries@.len() - i,
    {
        if i > 0 {
            out.append("\n");
        }
        push_summary_row(&mut out, &entries[i]);
        i = i + 1;
    }
    match total {
        Some(t) => {
            out.append("<tr class=\"total-row\"><td colspan=\"4\"><strong>Total potential saving</strong></td><td><strong>$");
            out.append(t);
            out.append("/month</strong></td></tr>");
        },
        None => {},
    }
    out.append(PAGE_DETAIL);
    let ghost cards = entries@.map_values(|e: HtmlEntry| card(e));
    let ghost before_cards = out@;
    let mut j: usize = 0;
    while j < entries.len()
        invariant
            j <= entries@.len(),
            cards == entries@.map_values(|e: HtmlEntry| card(e)),
            out@ == before_cards + joined(cards, j as int),
        decreases entries@.len() - j,
    {
        if j > 0 {
            out.append("\n");
        }
        push_card(&mut out, &entries[j]);
        j = j + 1;
    }
    out.append(PAGE_END);
    out
}

} // verus!
