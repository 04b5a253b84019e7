//! Verified core logic of a disk usage analyzer: decoding of native directory
//! records, hard-link accounting, size aggregation, snapshot comparison,
//! keybinding configuration and the decisions of the interactive browser.
use vstd::prelude::*;

pub mod aggregate;
pub mod attributes;
pub mod browse;
pub mod changes;
pub mod clean;
pub mod config;
pub mod deletion;
pub mod diff;
pub mod discovery;
pub mod dispatch;
pub mod keys;
pub mod listing;
pub mod darwin;
pub mod focus;
pub mod format;
pub mod gitindex;
pub mod heuristics;
pub mod hub;
pub mod inodefilter;
pub mod navigation;
pub mod numfmt;
pub mod patterns;
pub mod recompute;
pub mod removal;
pub mod sorting;
pub mod stdspecs;
pub mod targets;
pub mod text;
pub mod timestamp;
pub mod walk;
pub mod winfs;

verus! {

} // verus!
