use argus::cleaning::{default_clean_targets, plan_clean, CleanItem, CleanTarget, TargetCategory, TargetScan};
use argus::config::{apply_raw_config, LabelMapping, RawConfig, RawKeybindings, RawTheme};
use argus::diff::{aggregate_deltas, collect_large_files, filter_by_threshold, format_top_large_files, DiffNode};
use argus::format::{extract_unit, format_count, format_delta, format_signed_size, format_size, key_symbol};
use argus::maintenance::{
    all_artifact_kinds, audit_record, exec_all_shell_cmds, shell_cmd_result, tally_report, trash_error_message,
    AuditOp, CommandOutcome, ShellCmdTarget,
};
use argus::model::{hash_root_path, FileType, SnapshotBuilder, ROOT_NODE};
use argus::paths::{default_config_path, default_snapshots_dir};
use argus::review::{mock_ai_verdict, resolve_label, AiPathVerdict, AiResponse, AiReviewState, AiStatus};
use argus::safety::{is_protected_path, Platform, RiskLevel};
use argus::scan::{shallow_snapshot, EntryKind, ListedEntry, ProgressTracker, TreeScan, WalkEntry};
use argus::search::fuzzy_match_indices;
use argus::time_args::{
    format_absolute_label, format_duration_label, format_time_label, is_time_only, parse_date_time, parse_duration,
    parse_single_time_arg, pick_instant_exec, plan_time_arg, TimeArgKind,
};
use argus::ui::{check_snapshot_version, ScanError, SnapshotError, SortMode};
use sha2::Digest;

/// The text the display has always shown for a size, computed with floats.
fn float_size_text(bytes: u64) -> String {
    let units = ["B", "KB", "MB", "GB", "TB"];
    let mut size = bytes as f64;
    let mut idx = 0;
    while size >= 1024.0 && idx < units.len() - 1 {
        size /= 1024.0;
        idx += 1;
    }
    if idx == 0 {
        format!("{} {}", bytes, units[idx])
    } else {
        format!("{:.2} {}", size, units[idx])
    }
}

#[test]
fn format_size_matches_float_rendering() {
    let mut samples: Vec<u64> = vec![
        0,
        1,
        1023,
        1024,
        1152,
        1153,
        1536,
        5 * 1024 + 123,
        1_048_575,
        1_048_576,
        10_485_760 + 5 * 1024,
        1_073_741_823,
        1_073_741_824,
        2_684_354_560,
        1_099_511_627_775,
        1_099_511_627_776,
        (1u64 << 53) - 1,
        1u64 << 53,
        (1u64 << 53) + 1,
        (1u64 << 53) + 3,
        u64::MAX - 1,
        u64::MAX,
    ];
    let mut x: u64 = 0x9E37_79B9_7F4A_7C15;
    for _ in 0..2000 {
        x = x.wrapping_mul(6364136223846793005).wrapping_add(1442695040888963407);
        samples.push(x >> (x % 64));
    }
    for b in samples {
        assert_eq!(format_size(b), float_size_text(b), "bytes = {b}");
    }
}

#[test]
fn format_size_exact_values() {
    assert_eq!(format_size(1536), "1.50 KB");
    assert_eq!(format_size(1_099_511_627_776), "1.00 TB");
    assert_eq!(format_size(1023), "1023 B");
}

#[test]
fn format_delta_extremes() {
    assert_eq!(format_delta(i64::MIN), format!("-{}", format_size(1u64 << 63)));
    assert_eq!(format_delta(2048), "+2.00 KB");
    assert_eq!(format_signed_size(-1024), "-1.00 KB");
}

#[test]
fn format_count_groups() {
    assert_eq!(format_count(0), "0");
    assert_eq!(format_count(999), "999");
    assert_eq!(format_count(1000), "1,000");
    assert_eq!(format_count(1_000_001), "1,000,001");
    assert_eq!(format_count(u64::MAX), "18,446,744,073,709,551,615");
}

#[test]
fn extract_unit_words() {
    assert_eq!(extract_unit("1.23 MB"), "MB");
    assert_eq!(extract_unit("  500 B  "), "B");
    assert_eq!(extract_unit(""), "B");
    assert_eq!(extract_unit("GB"), "GB");
}

#[test]
fn key_symbols() {
    assert_eq!(key_symbol("Tab"), "⇥");
    assert_eq!(key_symbol("S-Tab"), "⇧⇥");
    assert_eq!(key_symbol("Esc"), "⎋");
    assert_eq!(key_symbol("Enter"), "⏎");
    assert_eq!(key_symbol("q"), "q");
}

#[test]
fn config_paths() {
    assert_eq!(default_snapshots_dir(Some("/x"), Some("/home/u")), "/x/argus/snapshots");
    assert_eq!(default_snapshots_dir(None, Some("/home/u")), "/home/u/.config/argus/snapshots");
    assert_eq!(default_snapshots_dir(None, None), "./argus/snapshots");
    assert_eq!(default_config_path(None, Some("/home/u")), "/home/u/.config/argus/config.toml");
}

#[test]
fn browser_protected_paths() {
    assert!(is_protected_path(Platform::MacOs, "/System/Volumes/Data"));
    assert!(is_protected_path(Platform::MacOs, "/var/db"));
    assert!(!is_protected_path(Platform::MacOs, "/private/etc"));
    assert!(!is_protected_path(Platform::MacOs, "/Systemic"));
    assert!(is_protected_path(Platform::Linux, "/proc/1"));
    assert!(!is_protected_path(Platform::Linux, "/home/u"));
}

#[test]
fn fuzzy_match_lowercases_unicode() {
    assert_eq!(fuzzy_match_indices("É", "caféx"), Some(vec![3]));
    assert_eq!(fuzzy_match_indices("BAR", "fooBarbar"), Some(vec![3, 4, 5]));
}

#[test]
fn durations() {
    assert_eq!(parse_duration("3d").unwrap(), 259_200_000);
    assert_eq!(parse_duration(" 2W ").unwrap(), 1_209_600_000);
    assert_eq!(parse_duration("12").unwrap(), 43_200_000);
    assert_eq!(parse_duration("5m").unwrap(), 300_000);
    assert_eq!(parse_duration("+1h").unwrap(), 3_600_000);
    assert_eq!(parse_duration("xx").unwrap_err(), "invalid number: xx");
    assert_eq!(parse_duration("d").unwrap_err(), "invalid number: ");
}

#[test]
fn date_times() {
    assert_eq!(parse_date_time("07-13").unwrap(), (7, 13, 0, 0));
    assert_eq!(parse_date_time("07-13 14:30").unwrap(), (7, 13, 14, 30));
    assert_eq!(parse_date_time("0713").unwrap_err(), "invalid date: 0713");
    assert_eq!(parse_date_time("07-13 1430").unwrap_err(), "invalid time: 1430");
    assert_eq!(parse_date_time("a-13").unwrap_err(), "invalid month: a");
    assert_eq!(parse_date_time("07-x 10:00").unwrap_err(), "invalid day: x");
    assert_eq!(parse_date_time("07-13 10:zz").unwrap_err(), "invalid minute: zz");
    assert_eq!(parse_date_time("1 2 3").unwrap_err(), "invalid date-time: 1 2 3");
}

#[test]
fn time_labels() {
    assert!(is_time_only("14:30"));
    assert!(!is_time_only("14:3a"));
    assert!(is_time_only(":"));
    assert_eq!(format_duration_label(604_800_000), "1w");
    assert_eq!(format_duration_label(3 * 86_400_000), "3d");
    assert_eq!(format_duration_label(3_600_000), "1h");
    assert_eq!(format_duration_label(90_000), "1m");
    assert_eq!(format_absolute_label(7, 13, 0, 0), "07-13");
    assert_eq!(format_absolute_label(7, 13, 14, 5), "07-13 14:05");
    assert_eq!(format_time_label("3d", "now"), "3d ~ now");
}

#[test]
fn time_argument_kinds() {
    let (k, l) = plan_time_arg("3d").unwrap();
    assert_eq!(k, TimeArgKind::Ago { ms: 259_200_000 });
    assert_eq!(l, "3d");
    let (k, l) = plan_time_arg("14:30").unwrap();
    assert_eq!(k, TimeArgKind::ClockTime { hour: 14, minute: 30 });
    assert_eq!(l, "14:30");
    let (k, l) = plan_time_arg("07-13").unwrap();
    assert_eq!(k, TimeArgKind::DateTime { month: 7, day: 13, hour: 0, minute: 0 });
    assert_eq!(l, "07-13");
    assert_eq!(plan_time_arg("bad").unwrap_err(), "invalid date-time: invalid date: bad");
    assert_eq!(plan_time_arg("12:").unwrap_err(), "invalid minute: 12:");
    let p = parse_single_time_arg("2h").unwrap();
    assert_eq!(p.label, "2h");
    assert!(p.date.is_none());
    let p = parse_single_time_arg("07-13 09:05").unwrap();
    assert_eq!(p.label, "07-13 09:05");
    assert_eq!(p.date, Some((7, 13)));
}

#[test]
fn instant_choice() {
    assert_eq!(pick_instant_exec(1000, Some(500), Some(100)), 500);
    assert_eq!(pick_instant_exec(1000, Some(2000), Some(100)), 100);
    assert_eq!(pick_instant_exec(1000, None, Some(100)), 100);
    assert_eq!(pick_instant_exec(1000, None, None), 0);
}

#[test]
fn root_hash_is_sha256_prefix() {
    let digest = sha2::Sha256::digest("/home/user".as_bytes());
    let expected: String = digest[..4].iter().map(|b| format!("{:02x}", b)).collect();
    assert_eq!(hash_root_path("/home/user"), expected);
}

fn file_entry(depth: usize, name: &str, size: u64, id: Option<(u64, u64)>) -> WalkEntry {
    WalkEntry {
        depth,
        name: name.to_string(),
        path: format!("/r/{name}"),
        kind: EntryKind::Other { file_type: FileType::File, size, disk_usage: size, is_file: true, is_symlink: false, id },
    }
}

#[test]
fn walk_builds_tree_and_skips_hard_links() {
    let mut scan = TreeScan::start("r", false);
    let root = WalkEntry { depth: 0, name: "r".into(), path: "/r".into(), kind: EntryKind::Directory };
    assert!(scan.step(&root).is_none());
    scan.step(&WalkEntry { depth: 1, name: "a".into(), path: "/r/a".into(), kind: EntryKind::Directory });
    scan.step(&file_entry(2, "x", 10, Some((1, 7))));
    scan.step(&file_entry(1, "y", 5, Some((1, 8))));
    scan.step(&file_entry(1, "x-link", 10, Some((1, 7))));
    scan.step(&WalkEntry { depth: 1, name: "bad".into(), path: "/r/bad".into(), kind: EntryKind::Unreadable });
    let (snap, report) = scan.finish("/r".to_string());
    assert!(report.is_none());
    assert_eq!(snap.node_count(), 4);
    assert_eq!(snap.total_size, 15);
    assert_eq!(snap.children_len(ROOT_NODE), 2);
    assert_eq!(snap.name(1), "a");
    assert_eq!(snap.node(1).size(), 10);
    assert_eq!(snap.children_len(1), 1);
}

#[test]
fn progress_reports_in_batches() {
    let mut t = ProgressTracker::new(true);
    for _ in 0..31 {
        assert!(t.record_files_only(1).is_none());
    }
    let u = t.record_files_only(1).unwrap();
    assert_eq!(u.file_count, 32);
    assert!(t.record(0, 1024 * 1024 - 1, 0, Some("/p".into())).is_none());
    let u = t.record(0, 1, 0, None).unwrap();
    assert_eq!(u.total_bytes, 1024 * 1024);
    assert_eq!(u.current_path.as_deref(), Some("/p"));
    let f = t.finish().unwrap();
    assert!(f.current_path.is_none());
    let mut quiet = ProgressTracker::new(false);
    for _ in 0..100 {
        assert!(quiet.record_files_only(1).is_none());
    }
    assert_eq!(quiet.file_count, 100);
}

#[test]
fn shallow_listing_totals() {
    let entries = vec![
        ListedEntry { name: "d".into(), is_dir: true, file_type: FileType::Directory, size: 0, disk_usage: 0 },
        ListedEntry { name: "f".into(), is_dir: false, file_type: FileType::File, size: 7, disk_usage: 4096 },
        ListedEntry { name: "l".into(), is_dir: false, file_type: FileType::Symlink, size: 0, disk_usage: 0 },
    ];
    let snap = shallow_snapshot("top", "/top".to_string(), &entries);
    assert_eq!(snap.total_size, 7);
    assert_eq!(snap.total_disk_usage, 4096);
    assert_eq!(snap.children_len(ROOT_NODE), 3);
    assert_eq!(snap.node(3).file_type(), FileType::Symlink);
    assert!(snap.node(1).is_dir());
}

#[test]
fn rollup_sums_children() {
    let mut b = SnapshotBuilder::new("r");
    let a = b.push_dir(ROOT_NODE, "a");
    b.push_file(a, "x", FileType::File, 100, 8);
    b.push_file(a, "y", FileType::File, 50, 8);
    b.push_file(ROOT_NODE, "z", FileType::File, 1, 1);
    b.roll_up_totals();
    assert_eq!(b.nodes[a as usize].size(), 150);
    assert_eq!(b.nodes[0].size(), 151);
    assert_eq!(b.nodes[0].disk_usage(), 17);
}

fn item(path: &str, size: u64) -> CleanItem {
    CleanItem { path: path.to_string(), size, risk: RiskLevel::Low, target_id: "t".into() }
}

#[test]
fn report_tallies_outcomes() {
    let items = vec![item("/a", 10), item("/b", 20), item("/c", 30)];
    let outcomes: Vec<Result<(), String>> = vec![Ok(()), Err("denied".into()), Ok(())];
    let r = tally_report(&items, &outcomes);
    assert_eq!(r.total_attempted, 3);
    assert_eq!(r.total_succeeded, 2);
    assert_eq!(r.total_failed, 1);
    assert_eq!(r.freed_bytes, 40);
    assert_eq!(r.errors, vec![("/b".to_string(), "denied".to_string())]);
    let a = audit_record(AuditOp::Clean, &items, &r);
    assert!(!a.success);
    assert_eq!(a.error.as_deref(), Some("1 failures"));
    assert_eq!(a.total_bytes, 40);
    assert_eq!(a.paths.len(), 3);
    assert_eq!(AuditOp::Purge.name(), "purge");
    assert_eq!(trash_error_message("/a", "busy"), "trash error for /a: busy");
    assert_eq!(all_artifact_kinds().len(), 7);
}

#[test]
fn shell_command_results() {
    let t = ShellCmdTarget { id: "x".into(), label: "X".into(), command: "brew".into(), args: vec![], timeout_secs: 1 };
    let failed = CommandOutcome::Ran { success: false, stdout: " out \n".into(), stderr: "  err\n".into() };
    let r = shell_cmd_result(&t, &failed);
    assert!(!r.success);
    assert_eq!(r.output, "out");
    assert_eq!(r.error.as_deref(), Some("err"));
    let ok = CommandOutcome::Ran { success: true, stdout: "done".into(), stderr: "warn".into() };
    assert!(shell_cmd_result(&t, &ok).error.is_none());
    let missing = CommandOutcome::NotStarted { reason: "no such file".into() };
    let all = exec_all_shell_cmds(&[t.clone()], &[missing]);
    assert_eq!(all[0].error.as_deref(), Some("brew not found: no such file"));
}

#[test]
fn config_file_overrides_defaults() {
    let raw = RawConfig {
        keybindings: Some(RawKeybindings {
            move_up: Some("w".into()),
            move_down: Some("s".into()),
            enter_dir: None,
            leave_dir: None,
            sort_toggle: None,
            delete_item: None,
            focus_panel: None,
            quit: None,
        }),
        theme: Some(RawTheme {
            color_scheme: Some("dark".into()),
            colors: Some(vec![("growth_high".into(), "#112233".into()), ("custom_key".into(), "#00FF00".into())]),
        }),
        auto_scan_on_start: Some(Some(true)),
        uds_path: Some(None),
        custom_mappings: Some(Some(vec![LabelMapping { pattern: "*.pyc".into(), label: "python-bytecode".into() }])),
        language: Some(Some("zh-CN".into())),
    };
    let c = apply_raw_config(&raw);
    assert_eq!(c.keybindings.move_up, "w");
    assert_eq!(c.keybindings.move_down, "s");
    assert_eq!(c.keybindings.quit, "q");
    assert_eq!(c.theme.color_scheme, "dark");
    assert_eq!(c.theme.color("growth_high").as_deref(), Some("#112233"));
    assert_eq!(c.theme.color("custom_key").as_deref(), Some("#00FF00"));
    assert_eq!(c.theme.color("text_primary").as_deref(), Some("#FFFFFF"));
    assert!(c.browsing.auto_scan_on_start);
    assert_eq!(c.daemon.uds_path, "/tmp/argusd.sock");
    assert_eq!(c.labels.custom_mappings.len(), 1);
    assert_eq!(c.ai.language, "zh-CN");
}

#[test]
fn labels_and_builtin_verdicts() {
    assert_eq!(resolve_label("/proj/Target"), "build-artifacts");
    assert_eq!(resolve_label("/proj/.git"), "vcs-data");
    assert_eq!(resolve_label("/home/u/.foo"), "hidden-config");
    assert_eq!(resolve_label("/home/u/stuff"), "uncategorized");
    assert_eq!(resolve_label("/home/u/node_modules"), "package-dependencies");
    let v = mock_ai_verdict("/proj/.git", 10);
    assert_eq!(v.risk_level, argus::review::RiskLevel::High);
    assert!(!v.deletable);
    assert!(v.label_detail.is_empty());
    let d = mock_ai_verdict("/home/u/Downloads", 1);
    assert_eq!(d.risk_level, argus::review::RiskLevel::Low);
}

#[test]
fn verdict_from_answer() {
    let resp = AiResponse {
        label_detail: "Nginx logs".into(),
        description: "HTTP logs".into(),
        risk_level: "HIGH".into(),
        suggestion: "Rotate".into(),
        background: "".into(),
        deletable: false,
    };
    let v = AiPathVerdict::from_response("/var/log".into(), 5, "log-files".into(), resp);
    assert_eq!(v.risk_level, argus::review::RiskLevel::High);
    assert_eq!(v.purpose, "HTTP logs");
    let odd = AiResponse { risk_level: "whatever".into(), ..AiResponse {
        label_detail: String::new(),
        description: String::new(),
        risk_level: String::new(),
        suggestion: String::new(),
        background: String::new(),
        deletable: true,
    } };
    let v = AiPathVerdict::from_response("/x".into(), 0, "x".into(), odd);
    assert_eq!(v.risk_level, argus::review::RiskLevel::Medium);
    assert_eq!(argus::review::RiskLevel::Medium.label(), "Medium Risk");
}

#[test]
fn review_marks() {
    let mut st = AiReviewState {
        results: vec![mock_ai_verdict("/a", 1), mock_ai_verdict("/b", 2), mock_ai_verdict("/c", 3)],
        pending_paths: vec![],
        pending_total_size: 0,
        cursor: 2,
        scroll_offset: 0,
        mark_for_delete: std::collections::HashSet::new(),
        status: AiStatus::Ready,
        delete_confirm: None,
        info_item: None,
    };
    st.toggle_mark();
    st.cursor = 0;
    st.toggle_mark();
    assert_eq!(st.marked_paths(), vec!["/a".to_string(), "/c".to_string()]);
    st.toggle_mark();
    assert_eq!(st.marked_paths(), vec!["/c".to_string()]);
}

#[test]
fn sort_cycle_and_errors() {
    let m = SortMode::Size;
    assert_eq!(m.toggle().toggle().toggle(), m);
    assert!(check_snapshot_version(argus::model::SNAPSHOT_VERSION).is_ok());
    let e = check_snapshot_version(3).unwrap_err();
    assert_eq!(e.message(), format!("snapshot version mismatch: expected v{}, got v3", argus::model::SNAPSHOT_VERSION));
    assert_eq!(ScanError::Cancelled.message(), "scan cancelled by user");
    assert_eq!(ScanError::PathNotFound("/x".into()).message(), "path not found: /x");
    assert_eq!(SnapshotError::Corrupted("bad".into()).message(), "snapshot file corrupted: bad");
}

#[test]
fn default_targets_per_platform() {
    assert!(default_clean_targets(Platform::Linux, Some("/home/u")).is_empty());
    assert!(default_clean_targets(Platform::MacOs, None).is_empty());
    let t = default_clean_targets(Platform::MacOs, Some("/Users/u"));
    assert_eq!(t.len(), 36);
    assert_eq!(t[0].paths, vec!["/Users/u/Library/Caches".to_string()]);
}

#[test]
fn failed_scan_fails_plan() {
    let target = CleanTarget {
        id: "t1".into(),
        label: "T".into(),
        paths: vec!["/x".into()],
        risk: RiskLevel::Safe,
        category: TargetCategory::TempFiles,
    };
    let scans: Vec<TargetScan> = vec![Err("boom".into())];
    let err = plan_clean(Platform::MacOs, &[target.clone()], &scans, None).unwrap_err();
    assert_eq!(err, "scan target t1: boom");
    let scans: Vec<TargetScan> = vec![Ok((100, vec!["/x".into(), "/System/y".into()]))];
    let plan = plan_clean(Platform::MacOs, &[target], &scans, None).unwrap();
    assert_eq!(plan.total_bytes, 100);
    assert_eq!(plan.items.len(), 2);
    assert_eq!(plan.items[1].risk, RiskLevel::High);
    assert_eq!(plan.items[0].size, 100);
}

fn node(name: &str, is_dir: bool, size: u64, delta: i64, children: Vec<DiffNode>) -> DiffNode {
    DiffNode { name: name.to_string(), is_dir, current_size: size, size_delta: delta, children }
}

#[test]
fn change_tree_queries() {
    let tree = node(
        "test",
        true,
        1110,
        1110,
        vec![node("small", false, 10, 10, vec![]), node("medium", false, 100, 100, vec![]), node("large", false, 1000, 1000, vec![])],
    );
    let f = filter_by_threshold(&tree, 100).unwrap();
    let names: Vec<&str> = f.children.iter().map(|c| c.name.as_str()).collect();
    assert_eq!(names, vec!["medium", "large"]);
    let unchanged = node("t", true, 5, 0, vec![node("u", false, 5, 0, vec![])]);
    assert!(filter_by_threshold(&unchanged, 0).is_none());

    let mut agg = node("r", true, 0, 0, vec![node("d", true, 0, 0, vec![node("f", false, 9, -40, vec![])]), node("g", false, 1, 15, vec![])]);
    aggregate_deltas(&mut agg);
    assert_eq!(agg.size_delta, -25);
    assert_eq!(agg.children[0].size_delta, -40);

    let mut files: Vec<(String, u64)> = Vec::new();
    collect_large_files(&tree, &mut files);
    assert_eq!(files.len(), 3);
    assert_eq!(format_top_large_files(&files[..1]), "  - small (0 KB)");
    assert_eq!(format_top_large_files(&[("a".to_string(), 4096), ("b".to_string(), 2048)]), "  - a (4 KB)\n  - b (2 KB)");
    assert_eq!(format_top_large_files(&[]), "  (no large file changes)");
}

#[test]
fn datetime_to_millis_is_zero_for_impossible_dates() {
    assert_eq!(argus::time_args::datetime_to_millis(13, 1, 0, 0), 0);
    assert_eq!(argus::time_args::datetime_to_millis(2, 30, 12, 0), 0);
    assert_eq!(argus::time_args::datetime_to_millis(4, 31, 12, 0), 0);
    assert_eq!(argus::time_args::datetime_to_millis(6, 1, 24, 0), 0);
    assert_eq!(argus::time_args::datetime_to_millis(6, 1, 12, 60), 0);
    assert_ne!(argus::time_args::datetime_to_millis(1, 1, 12, 0), 0);
}
