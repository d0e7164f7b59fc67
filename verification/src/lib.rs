//! Core of a terminal uptime monitor: an endpoint registry with a bounded
//! probe-result history, per-endpoint statistics, hourly uptime buckets, a
//! fixed-window status-block timeline, and the probe fallback/classification
//! policy. Time is carried as whole seconds since the Unix epoch, endpoint
//! identifiers as 128-bit values, and uptime percentages as exact ratios of
//! successful to total probes.

pub mod app;
pub mod clock;
pub mod idmap;
pub mod numfmt;
pub mod ping;
pub mod storage;
pub mod ui;
