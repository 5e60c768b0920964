use argus::browse::{
    collect_dir_entries, locate_current_dir, lookup_delta, mark_reviewed, sort_children, DirEntry,
};
use argus::model::{FileType, Snapshot, SnapshotBuilder, ROOT_NODE};
use argus::review::RiskLevel;
use argus::summary::{count_files, format_duration};
use argus::ui::SortMode;

fn row(name: &str, disk: u64) -> DirEntry {
    DirEntry {
        node: 0,
        path: vec!["root".to_string(), name.to_string()],
        has_scan_data: true,
        has_ai: false,
        ai_risk_level: None,
        is_dir: false,
        size: disk,
        disk_usage: disk,
    }
}

fn names(rows: &[DirEntry]) -> Vec<String> {
    rows.iter().map(|r| r.path.last().unwrap().clone()).collect()
}

fn sample() -> Snapshot {
    let mut b = SnapshotBuilder::new("root");
    let src = b.push_dir(ROOT_NODE, "src");
    b.push_file(src, "main.rs", FileType::File, 40, 40);
    b.push_file(ROOT_NODE, ".hidden", FileType::File, 5, 8);
    b.push_file(ROOT_NODE, "README", FileType::File, 7, 8);
    b.nodes[src as usize].set_size(40);
    b.nodes[0].set_size(52);
    b.finish("/work/root".to_string(), 52, 56)
}

#[test]
fn sort_by_name_orders_names() {
    let mut rows = vec![row("b", 1), row("C", 5), row("a", 3)];
    sort_children(&mut rows, SortMode::Name, &[]);
    assert_eq!(names(&rows), vec!["C", "a", "b"]);
}

#[test]
fn sort_by_size_puts_largest_first_then_name() {
    let mut rows = vec![row("b", 10), row("a", 10), row("c", 30), row("d", 1)];
    sort_children(&mut rows, SortMode::Size, &[]);
    assert_eq!(names(&rows), vec!["c", "a", "b", "d"]);
}

#[test]
fn sort_by_delta_uses_change_magnitude() {
    let mut rows = vec![row("a", 1), row("b", 1), row("c", 1)];
    let cache = vec![
        (vec!["root".to_string(), "a".to_string()], 5i64),
        (vec!["root".to_string(), "b".to_string()], -50i64),
    ];
    sort_children(&mut rows, SortMode::Delta, &cache);
    assert_eq!(names(&rows), vec!["b", "a", "c"]);
}

#[test]
fn lookup_delta_finds_key_or_zero() {
    let cache = vec![(vec!["r".to_string()], 3i64), (vec!["r".to_string(), "x".to_string()], -7i64)];
    assert_eq!(lookup_delta(&cache, &vec!["r".to_string(), "x".to_string()]), -7);
    assert_eq!(lookup_delta(&cache, &vec!["r".to_string()]), 3);
    assert_eq!(lookup_delta(&cache, &vec!["q".to_string()]), 0);
}

#[test]
fn collect_skips_hidden_unless_shown() {
    let snap = sample();
    let path = vec!["root".to_string()];
    let scan_cache: Vec<(String, Snapshot)> = vec![];
    let rows = collect_dir_entries(&snap, ROOT_NODE, &path, false, &scan_cache, "/work/root", None);
    assert_eq!(names(&rows), vec!["src", "README"]);
    assert!(rows[0].is_dir);
    assert!(!rows[0].has_scan_data);
    assert!(rows[1].has_scan_data);
    assert_eq!(rows[1].size, 7);
    assert_eq!(rows[1].disk_usage, 8);
    assert_eq!(rows[1].path, vec!["root".to_string(), "README".to_string()]);

    let all = collect_dir_entries(&snap, ROOT_NODE, &path, true, &scan_cache, "/work/root", Some((&snap, ROOT_NODE)));
    assert_eq!(names(&all), vec!["src", ".hidden", "README"]);
    assert!(all[0].has_scan_data);
}

#[test]
fn mark_reviewed_uses_full_paths() {
    let mut rows = vec![row("a", 1), row("b", 2)];
    let reviews = vec![("/work/root/b/".to_string(), RiskLevel::High)];
    mark_reviewed(&mut rows, "/work/root", &reviews);
    assert!(!rows[0].has_ai);
    assert_eq!(rows[0].ai_risk_level, None);
    assert!(rows[1].has_ai);
    assert_eq!(rows[1].ai_risk_level, Some(RiskLevel::High));
}

#[test]
fn locate_current_dir_reports_totals() {
    let snap = sample();
    let top = locate_current_dir(&snap, ROOT_NODE, &["root".to_string()]).unwrap();
    assert_eq!(top.dir_idx, ROOT_NODE);
    assert_eq!(top.total, 52);
    assert_eq!(top.items, 3);
    assert_eq!(top.parent_total, 52);
    let src = locate_current_dir(&snap, ROOT_NODE, &["root".to_string(), "src".to_string()]).unwrap();
    assert_eq!(src.total, 40);
    assert_eq!(src.items, 1);
    assert_eq!(src.parent_total, 52);
    assert!(locate_current_dir(&snap, ROOT_NODE, &["root".to_string(), "nope".to_string()]).is_none());
    assert!(locate_current_dir(&snap, ROOT_NODE, &["other".to_string(), "src".to_string()]).is_none());
}

#[test]
fn format_duration_joins_nonzero_parts() {
    assert_eq!(format_duration(0), "0s");
    assert_eq!(format_duration(59), "59s");
    assert_eq!(format_duration(60), "1m");
    assert_eq!(format_duration(3661), "1h 1m 1s");
    assert_eq!(format_duration(86400 + 5), "1d 5s");
    assert_eq!(format_duration(2 * 86400 + 3 * 3600), "2d 3h");
}

#[test]
fn count_files_counts_non_directories() {
    let snap = sample();
    assert_eq!(count_files(&snap, ROOT_NODE), 3);
    assert_eq!(count_files(&snap, 1), 1);
    let empty = SnapshotBuilder::new("x").finish("/x".to_string(), 0, 0);
    assert_eq!(count_files(&empty, ROOT_NODE), 0);
}
