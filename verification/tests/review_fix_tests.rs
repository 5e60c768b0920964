use argus::browsing::BrowseState;
use argus::flat::scan_complete_plan;
use argus::tree_ops::{apply_deletions, TreeState};
use argus::ui::AppMode;
use argus::cleaning::{default_clean_targets, target_label, CleanTarget, TargetCategory};
use argus::maintenance::{free_space_from_df, sort_artifacts, ArtifactKind};
use argus::model::{alloc_name_into, FileType, SnapshotBuilder, ROOT_NODE, SNAPSHOT_VERSION};
use argus::safety::{Platform, RiskLevel};
use argus::snapshot_codec::{check_snapshot_version, compact_payload, snapshot_payload};
use argus::time_args::{ago_start, parse_single_time_arg};
use argus::ui::SnapshotError;

fn find<'a>(ts: &'a [CleanTarget], id: &str) -> &'a CleanTarget {
    ts.iter().find(|t| t.id == id).unwrap()
}

#[test]
fn default_targets_have_their_risks_and_paths() {
    let ts = default_clean_targets(Platform::MacOs, Some("/Users/u"));
    assert_eq!(ts.len(), 36);
    let mut ids: Vec<&str> = ts.iter().map(|t| t.id.as_str()).collect();
    ids.sort();
    ids.dedup();
    assert_eq!(ids.len(), 36);
    assert_eq!(find(&ts, "ios-backups").risk, RiskLevel::High);
    assert_eq!(find(&ts, "dev-xcode-simulators").risk, RiskLevel::High);
    assert_eq!(find(&ts, "dev-docker").risk, RiskLevel::Medium);
    let trash = find(&ts, "trash");
    assert_eq!(trash.risk, RiskLevel::Safe);
    assert_eq!(trash.category, TargetCategory::Trash);
    assert_eq!(trash.paths, vec!["/Users/u/.Trash".to_string(), "/Users/Shared/Trash".to_string()]);
    assert_eq!(target_label(&ts, "trash"), "Trash");
    assert_eq!(target_label(&ts, "nope"), "nope");
    assert!(default_clean_targets(Platform::Linux, Some("/home/u")).is_empty());
}

#[test]
fn span_arguments_start_before_now() {
    assert_eq!(ago_start(10_000_000, 7_200_000), 2_800_000);
    assert_eq!(ago_start(5, 7_200_000), 0);
    let p = parse_single_time_arg("2h").unwrap();
    assert_eq!(p.label, "2h");
    assert!(p.date.is_none());
    let now = std::time::SystemTime::now().duration_since(std::time::UNIX_EPOCH).unwrap().as_millis() as u64;
    assert!(p.ms <= now - 7_200_000 && p.ms + 60_000 >= now - 7_200_000);
}

#[test]
fn test_compact_bytes_roundtrip() {
    let raw: Vec<u8> = (0..200u32).map(|i| (i % 7) as u8).collect();
    let stored = compact_payload(&raw).unwrap();
    assert_eq!(&stored[..2], &[0x1f, 0x8b]);
    assert_eq!(snapshot_payload(&stored).unwrap(), raw);
    assert!(check_snapshot_version(SNAPSHOT_VERSION).is_ok());
}

#[test]
fn snapshot_payload_passes_plain_data_and_rejects_bad_gzip() {
    assert_eq!(snapshot_payload(&[1, 2, 3]).unwrap(), vec![1, 2, 3]);
    assert!(matches!(snapshot_payload(&[0x1f, 0x8b, 0, 0]), Err(SnapshotError::Io(_))));
    match check_snapshot_version(SNAPSHOT_VERSION + 1) {
        Err(SnapshotError::VersionMismatch { expected, actual }) => {
            assert_eq!(expected, SNAPSHOT_VERSION);
            assert_eq!(actual, SNAPSHOT_VERSION + 1);
        }
        other => panic!("unexpected {:?}", other),
    }
}

#[test]
fn inline_name_bytes_are_zero_past_the_name() {
    let mut names = vec![9u8];
    let (off, len, flags, inline) = alloc_name_into(&mut names, "abc");
    assert_eq!((off, len, flags), (0, 3, 2));
    assert_eq!(&inline[..3], b"abc");
    assert!(inline[3..].iter().all(|b| *b == 0));
    let (off, len, flags, inline) = alloc_name_into(&mut names, "a-very-long-name.txt");
    assert_eq!((off, len, flags), (1, 20, 0));
    assert_eq!(inline, [0u8; 12]);
    assert_eq!(names.len(), 21);
}

#[test]
fn pushed_files_record_whether_the_name_is_inline() {
    let mut b = SnapshotBuilder::new("root");
    let short = b.push_file(ROOT_NODE, "short.txt", FileType::File, 1, 1);
    let long = b.push_file(ROOT_NODE, "seventeen-bytes.x", FileType::File, 1, 1);
    assert!(b.nodes[short as usize].has_inline_name());
    assert!(!b.nodes[long as usize].has_inline_name());
    let snap = b.finish("/r".to_string(), 2, 2);
    assert_eq!(snap.name(long), "seventeen-bytes.x");
}

#[test]
fn artifacts_are_listed_largest_first() {
    let mut found = vec![
        ("/a".to_string(), ArtifactKind::Target, 5u64),
        ("/b".to_string(), ArtifactKind::NodeModules, 50),
        ("/c".to_string(), ArtifactKind::Venv, 5),
    ];
    sort_artifacts(&mut found);
    let paths: Vec<&str> = found.iter().map(|f| f.0.as_str()).collect();
    assert_eq!(paths, vec!["/b", "/a", "/c"]);
}

#[test]
fn free_space_reads_the_fourth_field() {
    let report = "Filesystem 1024-blocks Used Available Capacity Mounted on\n/dev/disk1 100 40 60 40% /\n";
    assert_eq!(free_space_from_df(report), 60 * 1024);
    assert_eq!(free_space_from_df("header only\n"), 0);
    assert_eq!(free_space_from_df("h\nx y z w\nfs 1 2 +7 3\n"), 7 * 1024);
}

#[test]
fn finished_scans_rebuild_the_view_they_cover() {
    let dir = vec!["test".to_string(), "src".to_string()];
    let p = scan_complete_plan("/tmp/test/", "/tmp/test", &dir);
    assert!(p.rebuild);
    assert!(p.new_view_root.is_none());
    assert_eq!(p.restore, Some(dir.clone()));
    let p = scan_complete_plan("/tmp/test/src", "/tmp/test", &dir);
    assert!(p.rebuild);
    assert_eq!(p.new_view_root, Some("/tmp/test/src".to_string()));
    assert!(p.restore.is_none());
    let p = scan_complete_plan("/elsewhere", "/tmp/test", &dir);
    assert!(!p.rebuild && p.new_view_root.is_none() && p.restore.is_none());
}

#[test]
fn deletion_done_returns_to_browsing() {
    let mut s = BrowseState::new();
    s.mode = AppMode::Deleting;
    s.multi_select = true;
    s.selected_paths = vec![vec!["a".to_string()]];
    s.deletion_done();
    assert_eq!(s.mode, AppMode::Browsing);
    assert!(!s.multi_select);
    assert!(s.selected_paths.is_empty());
}

#[test]
fn deletions_sum_what_the_scans_free() {
    let mut b = SnapshotBuilder::new("test");
    b.push_file(ROOT_NODE, "a.txt", FileType::File, 30, 30);
    b.push_file(ROOT_NODE, "b.txt", FileType::File, 12, 12);
    b.nodes[0].set_size(42);
    let snap = b.finish("/tmp/test".to_string(), 42, 42);
    let mut state = TreeState { scan_cache: vec![("/tmp/test".to_string(), snap)], view_root_path: "/tmp/test".to_string(), tree_root: None };
    let freed = apply_deletions(&mut state, &["/tmp/test/a.txt".to_string(), "/tmp/test/b.txt".to_string()]);
    assert_eq!(freed, 42);
    assert_eq!(apply_deletions(&mut state, &[]), 0);
}
