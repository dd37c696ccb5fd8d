//! Regex-structured log files served as named numeric time series.
//!
//! A catalog maps each log file to a pattern with named capture groups: the
//! group `ts` is the timestamp of a line, every other named group is a metric,
//! offered under the name `alias.group`. A query names metrics and a time
//! window; it is answered by grouping the metrics by log file, matching each
//! line of each file once, and collecting one series of points per metric.

pub mod api;
pub mod config;
pub mod error;
pub mod first;
pub mod grouping;
pub mod laws;
pub mod number;
pub mod pattern;
pub mod query;
pub mod scan;
mod text;

pub use crate::api::{
    Column, Query, QueryResponse, Range, Search, SearchResponse, Series, Table, Target, TargetData,
};
pub use crate::config::{Config, ConfigDeser, LogItem, LogItemDeser};
pub use crate::error::Error;
pub use crate::grouping::{cname_from_target, hash_map_targets, Group};
pub use crate::number::{Kind, Number};
pub use crate::query::{hash_map_iter, index, query, search, Content};
pub use crate::scan::Scan;
