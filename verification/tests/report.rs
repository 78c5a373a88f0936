use upscan::csv::{csv_record, render as render_csv};
use upscan::html::{heatmap_members, html_entry, render as render_html, render_heatmap, HeatCell, HtmlEntry};
use upscan::kinds::ResourceKind;
use upscan::report::{csv_escape, format_schedule, heatmap_cell, schedule_clock, DayPattern, TimeCut};
use upscan::resource::Resource;
use upscan::table::{render as render_table, table_row, TableRow};

use chrono::{Duration, TimeZone, Utc};

fn resource(id: &str, kind: ResourceKind, cost: Option<f64>) -> Resource<f64> {
    Resource {
        id: id.to_string(),
        name: Some(id.to_string()),
        kind,
        instance_type: Some("t3.large".to_string()),
        region: "us-east-1".to_string(),
        tags: vec![],
        hourly_on_demand_cost: cost,
    }
}

fn half(t: &TimeCut) -> Option<f64> {
    match t {
        TimeCut::Cut(h, m) => {
            let h: f64 = h.parse().ok()?;
            let m: f64 = m.parse().ok()?;
            Some(h + m / 60.0)
        }
        _ => None,
    }
}

/// Monthly off-hours of a schedule tag, as the reports compute them.
fn monthly_off_hours(sched: &str) -> Option<f64> {
    let c = schedule_clock(sched)?;
    let start = half(&c.start)?;
    let end = half(&c.end)?;
    if end <= start {
        return None;
    }
    let off_per_day = 24.0 - (end - start);
    let wd = 30.0 * 5.0 / 7.0;
    let we = 30.0 * 2.0 / 7.0;
    match c.days? {
        DayPattern::MonFri => Some(off_per_day * wd + 24.0 * we),
        DayPattern::SatSun => Some(off_per_day * we + 24.0 * wd),
        DayPattern::Daily => Some(off_per_day * 30.0),
    }
}

fn row(id: &str, kind: ResourceKind, idle_pct: f64, saving: Option<f64>, schedule: Option<&str>) -> (TableRow, Option<f64>) {
    let r = resource(id, kind, saving.map(|s| s / 720.0));
    let cost = r.hourly_on_demand_cost.map(|c| format!("${:.2}", c * 720.0));
    let mut sav = None;
    let saving_text = match (schedule, r.hourly_on_demand_cost) {
        (Some(s), Some(c)) => monthly_off_hours(s).map(|off| {
            sav = Some(off * c);
            format!("${:.2}", off * c)
        }),
        _ => None,
    };
    (table_row(&r, format!("{:.0} %", idle_pct.abs()), cost, saving_text, schedule), sav)
}

fn render(rows: Vec<(TableRow, Option<f64>)>) -> String {
    let total: f64 = rows.iter().filter_map(|r| r.1).sum();
    let any = rows.iter().any(|r| r.1.is_some());
    let rows: Vec<TableRow> = rows.into_iter().map(|r| r.0).collect();
    let total_text = format!("{:.2}", total);
    render_table(&rows, if any && total > 0.0 { Some(total_text.as_str()) } else { None })
}

#[test]
fn test_format_schedule_mon_fri() {
    assert_eq!(format_schedule(Some("0900-1700 mon-fri")), "Mon–Fri 09:00–17:00");
}

#[test]
fn test_format_schedule_daily() {
    assert_eq!(format_schedule(Some("0700-2100 daily")), "Daily 07:00–21:00");
}

#[test]
fn test_format_schedule_none() {
    assert_eq!(format_schedule(None), "—");
}

#[test]
fn format_schedule_keeps_what_it_cannot_read() {
    assert_eq!(format_schedule(Some("always")), "always");
    assert_eq!(format_schedule(Some("0900 daily")), "0900 daily");
    assert_eq!(format_schedule(Some("900-17 weekly")), "weekly 900–17");
    assert_eq!(format_schedule(Some("0800-2359 sat-sun")), "Sat–Sun 08:00–23:59");
}

#[test]
fn test_render_includes_resource_id() {
    let out = render(vec![row("i-0abc123", ResourceKind::EC2, 61.0, Some(47.20), Some("0800-2000 daily"))]);
    assert!(out.contains("i-0abc123"));
}

#[test]
fn test_render_shows_cta() {
    let out = render(vec![]);
    assert!(out.contains("uptimescheduler.com"));
}

#[test]
fn test_render_na_when_no_cost() {
    let out = render(vec![row("i-xyz", ResourceKind::EC2, 50.0, None, None)]);
    assert!(out.contains("n/a"));
}

#[test]
fn test_render_shows_schedule() {
    let out = render(vec![row("i-abc", ResourceKind::EC2, 60.0, None, Some("0800-2000 daily"))]);
    assert!(out.contains("08:00"));
}

#[test]
fn test_type_column_includes_instance_type() {
    let out = render(vec![row("i-abc", ResourceKind::EC2, 60.0, None, None)]);
    assert!(out.contains("EC2 t3.large"));
}

#[test]
fn test_nat_gw_type_label() {
    let out = render(vec![row("nat-xyz", ResourceKind::NatGateway, 80.0, Some(30.0), None)]);
    assert!(out.contains("NAT GW"));
}

#[test]
fn table_layout_is_exact() {
    let out = render(vec![row("i-1", ResourceKind::ECS, 7.4, None, None)]);
    let expected = format!(
        " {:<8}   {:<11}   {:<6}   {:<12}   {:<9}   {:<18}\n",
        "Resource", "Type", "Idle %", "Est. Cost/mo", "Saving/mo", "Suggested Schedule"
    ) + &"─".repeat(80)
        + "\n"
        + &format!(" {:<8}   {:<11}   {:<6}   {:<12}   {:<9}   {:<18}\n", "i-1", "ECS Fargate", "7 %", "n/a", "n/a", "—")
        + "\n"
        + "\n→ Reduce this bill with Uptime Scheduler: https://uptimescheduler.com\n";
    assert_eq!(out, expected);
}

#[test]
fn table_total_line_when_saving() {
    let out = render(vec![row("db", ResourceKind::RDS, 50.0, Some(72.0), Some("0800-2000 daily"))]);
    // 12 off-hours a day, 30 days, at $0.10 an hour.
    assert!(out.contains("$36.00"));
    assert!(out.contains("Total potential saving: $36.00/month\n"));
    assert!(out.contains("RDS t3.large"));
}

#[test]
fn monthly_off_hours_of_schedules() {
    assert_eq!(monthly_off_hours("0800-2000 daily"), Some(360.0));
    assert_eq!(monthly_off_hours("2000-0800 daily"), None);
    assert_eq!(monthly_off_hours("0800-2000 weekly"), None);
    assert_eq!(monthly_off_hours("800-2000 daily"), None);
    assert!(monthly_off_hours("0900-1700 mon-fri").is_some());
}

#[test]
fn schedule_clock_cuts_times() {
    let c = schedule_clock("0930-1745 sat-sun").unwrap();
    match (&c.start, &c.end) {
        (TimeCut::Cut(a, b), TimeCut::Cut(x, y)) => {
            assert_eq!((a.as_str(), b.as_str(), x.as_str(), y.as_str()), ("09", "30", "17", "45"));
        }
        _ => panic!("expected both times cut"),
    }
    assert_eq!(c.days, Some(DayPattern::SatSun));
    let c = schedule_clock("aé1-123 daily").unwrap();
    assert!(matches!(c.start, TimeCut::Uncuttable));
    assert!(matches!(c.end, TimeCut::NotFourBytes));
    assert!(schedule_clock("nospace").is_none());
    assert!(schedule_clock("nodash daily").is_none());
}

#[test]
fn csv_escape_quotes_when_needed() {
    assert_eq!(csv_escape("plain"), "plain");
    assert_eq!(csv_escape("a,b"), "\"a,b\"");
    assert_eq!(csv_escape("say \"hi\""), "\"say \"\"hi\"\"\"");
    assert_eq!(csv_escape("two\nlines"), "\"two\nlines\"");
    assert_eq!(csv_escape(""), "");
}

fn csv_for(r: &Resource<f64>, idle: f64, hours: f64, saving: Option<f64>, pattern: Option<&str>, schedule: Option<&str>, outside: u32) -> String {
    let s = saving.map(|s| format!("{s:.2}")).unwrap_or_default();
    csv_record(r, &format!("{idle:.2}"), &format!("{hours:.2}"), &s, pattern, schedule, outside)
}

#[test]
fn test_csv_has_header() {
    assert!(render_csv(&vec![]).starts_with("id,name,kind,region"));
}

#[test]
fn test_csv_has_data_row() {
    let mut r = resource("db-prod", ResourceKind::RDS, None);
    r.name = Some("test".to_string());
    r.instance_type = Some("db.t3.medium".to_string());
    r.region = "eu-west-1".to_string();
    let line = csv_for(&r, 30.0, 100.0, Some(89.0), Some("nights"), Some("0800-2000 daily"), 0);
    let output = render_csv(&vec![line]);
    assert!(output.contains("db-prod") && output.contains("RDS"));
}

#[test]
fn csv_record_is_exact() {
    let mut r = resource("i-1", ResourceKind::NatGateway, None);
    r.name = Some("web, blue".to_string());
    r.instance_type = None;
    let line = csv_for(&r, 12.5, 3.0, None, None, Some("0800-2000 daily"), 1234);
    assert_eq!(line, "i-1,\"web, blue\",NAT,us-east-1,,12.50,3.00,,,0800-2000 daily,1234\n");
}

fn ts(y: i32, m: u32, d: u32, h: u32) -> i64 {
    Utc.with_ymd_and_hms(y, m, d, h, 0, 0).unwrap().timestamp()
}

#[test]
fn heatmap_cells_of_the_last_week() {
    let now = ts(2024, 1, 8, 12) + 1800;
    assert_eq!(heatmap_cell(now, 0, ts(2024, 1, 8, 11)), Some((6, 11)));
    assert_eq!(heatmap_cell(now, 0, ts(2024, 1, 8, 12)), None);
    assert_eq!(heatmap_cell(now, 0, ts(2024, 1, 7, 23)), Some((5, 23)));
    assert_eq!(heatmap_cell(now, 0, ts(2024, 1, 2, 0)), Some((0, 0)));
    assert_eq!(heatmap_cell(now, 0, ts(2024, 1, 1, 12) + 1800), None);
    assert_eq!(heatmap_cell(now, 0, ts(2024, 1, 1, 13)), None);
}

fn make_entry(now: i64) -> HtmlEntry {
    let base = Utc.with_ymd_and_hms(2024, 1, 1, 0, 0, 0).unwrap();
    let series: Vec<(i64, f64)> = (0..168i64)
        .map(|h| ((base + Duration::hours(h)).timestamp(), if h % 24 < 8 { 1.0 } else { 80.0 }))
        .collect();
    let stamps: Vec<i64> = series.iter().map(|p| p.0).collect();
    let g = heatmap_members(now, 0, &stamps);
    let grid: Vec<Vec<HeatCell>> = g
        .iter()
        .map(|day| {
            day.iter()
                .map(|m| {
                    if m.is_empty() {
                        HeatCell { color: "#cccccc".to_string(), value: None }
                    } else {
                        let v = m.iter().map(|&i| series[i].1).sum::<f64>() / m.len() as f64;
                        HeatCell { color: "#2ecc71".to_string(), value: Some(format!("{v:.1}")) }
                    }
                })
                .collect()
        })
        .collect();
    let heat = render_heatmap(now, &grid);
    let mut r = resource("i-0abc123", ResourceKind::EC2, Some(0.0832));
    r.name = Some("web-server".to_string());
    html_entry(&r, Some("nights"), Some("0800-2000 daily"), format!("{:.0}", 41.7), Some(format!("{:.2}", 29.952)), 0, heat)
}

#[test]
fn test_html_is_valid_structure() {
    let now = ts(2024, 1, 8, 12);
    let out = render_html("us-east-1", 30, now, &vec![make_entry(now)], Some("29.95"));
    assert!(out.contains("<!DOCTYPE html>") && out.contains("</html>"));
}

#[test]
fn test_html_contains_resource() {
    let now = ts(2024, 1, 8, 12);
    let out = render_html("us-east-1", 30, now, &vec![make_entry(now)], Some("29.95"));
    assert!(out.contains("web-server") || out.contains("i-0abc123"));
}

#[test]
fn test_html_contains_cta() {
    let out = render_html("us-east-1", 30, ts(2024, 1, 8, 12), &vec![], None);
    assert!(out.contains("uptimescheduler.com"));
}

#[test]
fn test_html_contains_heatmap_cells() {
    let now = ts(2024, 1, 8, 12);
    let out = render_html("us-east-1", 30, now, &vec![make_entry(now)], Some("29.95"));
    assert!(out.contains("heatmap-cell"));
}

#[test]
fn test_html_no_external_resources() {
    let now = ts(2024, 1, 8, 12);
    let out = render_html("us-east-1", 30, now, &vec![make_entry(now)], Some("29.95"));
    assert!(!out.contains("href=\"http") && !out.contains("src=\"http"));
}

#[test]
fn html_shows_dates_totals_and_labels() {
    let now = ts(2024, 1, 8, 12) + 7 * 60;
    let out = render_html("eu-west-2", 7, now, &vec![make_entry(now)], Some("29.95"));
    assert!(out.contains("<title>upscan Report — 2024-01-08 12:07 UTC</title>"));
    assert!(out.contains("Region: eu-west-2 · Lookback: 7 days · Generated: 2024-01-08 12:07 UTC"));
    assert!(out.contains("<strong>$29.95/month</strong>"));
    assert!(out.contains("<tr><td>web-server <small>(t3.large)</small></td><td>EC2</td><td>nights</td><td>42%</td><td>$29.95</td></tr>"));
    assert!(out.contains("<div class=\"heatmap-day-label\">Mon 01/08</div>"));
    assert!(out.contains("<div class=\"heatmap-day-label\">Tue 01/02</div>"));
    assert!(out.contains("title=\"Sun 01/07 07:00 — 1.0\""));
    assert!(out.contains("title=\"Sun 01/07 08:00 — 80.0\""));
    assert!(out.contains("title=\"Mon 01/08 11:00 — no data\""));
    assert!(!out.contains("outside-warn\">"));
}

#[test]
fn html_warns_of_hours_outside_the_schedule() {
    let r = resource("nat-1", ResourceKind::NatGateway, None);
    let e = html_entry(&r, None, None, "3".to_string(), None, 12, String::new());
    let out = render_html("us-east-1", 30, ts(2024, 1, 8, 12), &vec![e], None);
    assert!(out.contains("⚠ 12 active hours fall outside the suggested schedule window"));
    assert!(out.contains("<span class=\"resource-saving\">n/a</span>"));
    assert!(out.contains("<td>nat-1 <small>(t3.large)</small></td><td>NAT</td><td>—</td><td>3%</td><td>n/a</td>"));
    assert!(!out.contains("Total potential saving"));
}
