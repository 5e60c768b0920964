//! State shared by the terminal browser's views: modes, sorting, the delta
//! filter's units, navigation history entries, popup styles, scan summaries
//! and the rows of the delta-detail popup; and the messages exchanged with
//! the monitoring daemon.
use vstd::prelude::*;

verus! {

/// What the browser is doing.
#[derive(Debug, Clone, Copy, PartialEq, Eq, Structural)]
pub enum AppMode {
    Browsing,
    DeletePrompt,
    DeletePermanentPrompt,
    Deleting,
    Help,
    TimeHelp,
    Command,
    Finder,
    AiReview,
    QuitConfirm,
    MultiSelectExitConfirm,
}

/// State of the tree search.
#[derive(Debug, Clone, Copy, PartialEq, Eq, Structural)]
pub enum SearchMode {
    Inactive,
    Input,
    Active,
}

/// Order of a directory's children.
#[derive(Debug, Clone, Copy, PartialEq, Eq, Structural)]
pub enum SortMode {
    Name,
    Size,
    Delta,
}

/// The next sort mode: name, then size, then delta, then name again.
pub open spec fn next_sort(m: SortMode) -> SortMode {
    match m {
        SortMode::Name => SortMode::Size,
        SortMode::Size => SortMode::Delta,
        SortMode::Delta => SortMode::Name,
    }
}

/// Label of a sort mode.
pub open spec fn sort_label(m: SortMode) -> Seq<char> {
    match m {
        SortMode::Size => "Size"@,
        SortMode::Name => "Name"@,
        SortMode::Delta => "Delta"@,
    }
}

impl SortMode {
    /// The next sort mode in the cycle.
    pub fn toggle(self) -> (m: Self)
        ensures
            m == next_sort(self),
    {
        match self {
            SortMode::Name => SortMode::Size,
            SortMode::Size => SortMode::Delta,
            SortMode::Delta => SortMode::Name,
        }
    }

    /// Label shown for this mode.
    pub fn label(self) -> (s: &'static str)
        ensures
            s@ == sort_label(self),
    {
        match self {
            SortMode::Size => "Size",
            SortMode::Name => "Name",
            SortMode::Delta => "Delta",
        }
    }
}

/// Toggling the sort mode three times gives back the mode one started from.
pub proof fn law_sort_cycle(m: SortMode)
    ensures
        next_sort(next_sort(next_sort(m))) == m,
        next_sort(m) != m,
{
}

/// Bytes per unit of the delta filter: KB, MB, GB for units 0, 1, 2; 1 for
/// any other index.
pub open spec fn unit_bytes(unit: usize) -> u64 {
    if unit == 0 {
        1024
    } else if unit == 1 {
        0x10_0000
    } else if unit == 2 {
        0x4000_0000
    } else {
        1
    }
}

/// Multiplier of a delta filter unit index.
pub fn delta_unit_multiplier(unit: usize) -> (m: u64)
    ensures
        m == unit_bytes(unit),
{
    if unit == 0 {
        1024
    } else if unit == 1 {
        1024 * 1024
    } else if unit == 2 {
        1024 * 1024 * 1024
    } else {
        1
    }
}

/// Labels of the delta filter units, by index.
pub fn delta_unit_labels() -> (v: Vec<&'static str>)
    ensures
        v@.map_values(|s: &str| s@) == seq!["KB"@, "MB"@, "GB"@],
{
    let v = vec!["KB", "MB", "GB"];
    assert(v@.map_values(|s: &str| s@) =~= seq!["KB"@, "MB"@, "GB"@]);
    v
}

/// Number of time-window presets.
pub const TIME_PRESET_COUNT: usize = 7;

/// A position in the navigation history.
#[derive(Debug, Clone)]
pub struct NavPosition {
    pub current_dir_path: Vec<String>,
    pub view_root_path: String,
    pub cursor: usize,
    pub scroll_offset: usize,
}

/// Look of a popup.
#[derive(Debug, Clone, Copy, PartialEq, Eq, Structural)]
pub enum PopupStyle {
    Normal,
    Danger,
}

/// Totals of a finished scan.
#[derive(Debug, Clone)]
pub struct ScanSummary {
    pub root_path: String,
    pub total_size: u64,
    pub total_disk_usage: u64,
    pub total_files: u64,
    /// Time the scan took, in milliseconds.
    pub duration_ms: u64,
}

/// One row of the delta-detail popup.
#[derive(Debug, Clone)]
pub struct DeltaDetailRow {
    /// "YYYY-MM-DD HH:MM:SS".
    pub timestamp: String,
    /// Name of the direct child the change belongs to.
    pub child_name: String,
    pub delta_size: i64,
    /// Formatted delta.
    pub delta_display: String,
    /// Whether the row sums changes deeper below the child.
    pub is_aggregated: bool,
}

/// State of the delta-detail popup.
#[derive(Debug, Clone)]
pub struct DeltaDetailState {
    pub path: String,
    pub entries: Vec<DeltaDetailRow>,
    pub scroll: usize,
}

/// A recorded change of size under a path.
#[derive(Debug, Clone)]
pub struct DeltaEvent {
    pub path: String,
    pub delta_size: i64,
    pub event_type: String,
    pub timestamp: u64,
    pub is_agg: bool,
    pub process_info: Option<String>,
}

/// A change of size as reported by the daemon.
#[derive(Debug, Clone)]
pub struct DeltaEntry {
    pub path: String,
    pub delta_size: i64,
    pub event_type: String,
    pub timestamp: u64,
    pub is_agg: bool,
}

/// Counts and sums of the changes in a time window.
#[derive(Debug, Clone, Default, PartialEq, Eq, Structural)]
pub struct DeltaSummary {
    pub event_count: u64,
    pub create_count: u64,
    pub modify_count: u64,
    pub delete_count: u64,
    pub agg_count: u64,
    pub positive_events: u64,
    pub negative_events: u64,
    pub zero_events: u64,
    pub total_delta: i64,
    pub positive_delta: i64,
    pub negative_delta: i64,
}

/// A request to the monitoring daemon.
#[derive(Debug, Clone)]
pub enum DaemonRequest {
    GetDelta { path: String, from_ms: u64, to_ms: u64 },
    GetDeltaDetail { path: String, from_ms: u64, to_ms: u64 },
    Ping,
    GetStatus,
}

/// A reply of the monitoring daemon.
#[derive(Debug, Clone)]
pub enum DaemonResponse {
    Delta { total_delta: i64, entries: Vec<DeltaEntry> },
    DeltaDetail { entries: Vec<DeltaEntry> },
    Pong,
    Status { version: String, watch_dirs: Vec<String>, uptime_secs: u64 },
    Error { message: String },
}

/// Why a scan failed.
#[derive(Debug, Clone)]
pub enum ScanError {
    PathNotFound(String),
    PermissionDenied(String),
    Cancelled,
    Io(String),
}

/// Why a snapshot could not be read.
#[derive(Debug, Clone)]
pub enum SnapshotError {
    VersionMismatch { expected: u32, actual: u32 },
    Corrupted(String),
    NotFound(String),
    Io(String),
}

fn prefixed(prefix: &str, rest: &str) -> (s: String)
    ensures
        s@ == prefix@ + rest@,
{
    let mut s = crate::text::string_from(prefix);
    crate::text::push_str(&mut s, rest);
    s
}

/// Message of a scan error.
pub open spec fn scan_error_text(e: ScanError) -> Seq<char> {
    match e {
        ScanError::PathNotFound(p) => "path not found: "@ + p@,
        ScanError::PermissionDenied(p) => "permission denied: "@ + p@,
        ScanError::Cancelled => "scan cancelled by user"@,
        ScanError::Io(m) => "IO error: "@ + m@,
    }
}

impl ScanError {
    /// The message shown for this error.
    pub fn message(&self) -> (s: String)
        ensures
            s@ == scan_error_text(*self),
    {
        match self {
            ScanError::PathNotFound(p) => prefixed("path not found: ", p.as_str()),
            ScanError::PermissionDenied(p) => prefixed("permission denied: ", p.as_str()),
            ScanError::Cancelled => crate::text::string_from("scan cancelled by user"),
            ScanError::Io(m) => prefixed("IO error: ", m.as_str()),
        }
    }
}

/// Message of a snapshot error.
pub open spec fn snapshot_error_text(e: SnapshotError) -> Seq<char> {
    match e {
        SnapshotError::VersionMismatch { expected, actual } => "snapshot version mismatch: expected v"@ + crate::text::decimal(
            expected as nat,
        ) + ", got v"@ + crate::text::decimal(actual as nat),
        SnapshotError::Corrupted(m) => "snapshot file corrupted: "@ + m@,
        SnapshotError::NotFound(p) => "snapshot file not found: "@ + p@,
        SnapshotError::Io(m) => "IO error: "@ + m@,
    }
}

impl SnapshotError {
    /// The message shown for this error.
    pub fn message(&self) -> (s: String)
        ensures
            s@ == snapshot_error_text(*self),
    {
        match self {
            SnapshotError::VersionMismatch { expected, actual } => {
                let mut s = crate::text::string_from("snapshot version mismatch: expected v");
                crate::text::push_decimal(&mut s, *expected as u64);
                crate::text::push_str(&mut s, ", got v");
                crate::text::push_decimal(&mut s, *actual as u64);
                proof {
                    assert(s@ =~= snapshot_error_text(*self));
                }
                s
            },
            SnapshotError::Corrupted(m) => prefixed("snapshot file corrupted: ", m.as_str()),
            SnapshotError::NotFound(p) => prefixed("snapshot file not found: ", p.as_str()),
            SnapshotError::Io(m) => prefixed("IO error: ", m.as_str()),
        }
    }
}

/// Checks the version read from a snapshot file against the one this
/// library writes.
pub fn check_snapshot_version(actual: u32) -> (r: Result<(), SnapshotError>)
    ensures
        r is Ok <==> actual == crate::model::SNAPSHOT_VERSION,
        r matches Err(SnapshotError::VersionMismatch { expected, actual: a }) ==> expected == crate::model::SNAPSHOT_VERSION
            && a == actual,
        r matches Err(e) ==> e is VersionMismatch,
{
    if actual != crate::model::SNAPSHOT_VERSION {
        Err(SnapshotError::VersionMismatch { expected: crate::model::SNAPSHOT_VERSION, actual })
    } else {
        Ok(())
    }
}

} // verus!
