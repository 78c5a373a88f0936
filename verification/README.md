# upscan

Finds idle AWS resources (EC2 instances, ECS services, RDS databases, NAT
gateways), estimates what they cost, and suggests an on/off schedule for them.

The library under `src/` is verified with Verus; `app/` is the command-line
program around it.

## Layout

- `src/time.rs` — hours, weekdays and days of UTC instants; dates written by chrono.
- `src/series.rs` — hourly series: ordering by time, filling every hour of a
  lookback, grouping readings by clock hour.
- `src/idle.rs` — idle windows: the maximal runs of idle hours.
- `src/pattern.rs` — night/weekend patterns, the connection-pool classification
  of databases, and the pool-floor bucket.
- `src/schedule.rs` — the suggested schedule (the window that holds 95 % of the
  active hours) and the active hours it leaves out.
- `src/analysis.rs` — the analysis of one resource's hourly signal.
- `src/metrics.rs` — which metrics are fetched, in which windows, and how
  responses are read.
- `src/discover.rs` — which listed items become resources, tags and tag filters.
- `src/pricing.rs`, `src/resource.rs` — cost groups and the NAT gateway price list.
- `src/kinds.rs` — resource kinds and the command-line options that name them.
- `src/report.rs`, `src/table.rs`, `src/csv.rs`, `src/html.rs` — the reports.
- `app/` — AWS calls, floating-point arithmetic, JSON, and `main`.
- `tests/` — tests of the library.

Values the library does not compute with (metric readings, costs) are carried
as a type parameter; floating-point decisions reach it as flags.
