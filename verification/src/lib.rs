//! Disk-usage analysis and cleanup logic: snapshot trees, size formatting,
//! search, time arguments, cleanup targets and their risk rules.
pub mod bloom;
pub mod model;
pub mod text;
pub mod format;
pub mod search;
pub mod time_args;
pub mod config;
pub mod review;
pub mod ui;
pub mod scan;
pub mod diff;
pub mod browser_state;
pub mod delta_cache;
pub mod display;
pub mod tree_ops;
pub mod summary;
pub mod browse;
pub mod navigation;
pub mod flat;
pub mod browsing;
pub mod review_keys;
pub mod uninstall;
pub mod cleanup_view;
pub mod snapshot_codec;
pub mod detail;
pub mod commands;
pub mod human_size;
pub mod safety;
pub mod paths;
pub mod cleaning;
pub mod maintenance;
pub mod messages;
pub mod snapshot_edit;

use vstd::prelude::*;

verus! {

} // verus!
