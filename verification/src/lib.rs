//! Idle-resource analysis for cloud workloads: detection of idle periods in
//! hourly utilisation series, schedule suggestions, and the text formats that
//! the reports use.
pub mod time;
pub mod series;
pub mod idle;
pub mod text;
pub mod schedule;
pub mod pattern;
pub mod kinds;
pub mod resource;
pub mod report;
pub mod analysis;
pub mod metrics;
pub mod discover;
pub mod table;
pub mod pricing;
pub mod csv;
pub mod html;
