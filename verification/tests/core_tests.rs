use argus::bloom::SeenInodes;
use argus::cleaning::{
    default_clean_targets, plan_clean, scan_target_size, CleanTarget, PathProbe, TargetCategory, TargetScan,
};
use argus::diff::{collect_extensions, find_subtree, has_significant_changes, DiffNode};
use argus::human_size::parse_human_size;
use argus::maintenance::{app_name_from_path, default_shell_cmd_targets, ArtifactKind};
use argus::model::{compute_size, hash_root_path, FileNode, FileType, SnapshotBuilder, ROOT_NODE, SNAPSHOT_VERSION, INLINE_NAME_MAX};
use argus::review::estimate_tokens;
use argus::safety::{check_deletion_allowed, classify_risk, is_protected, Platform, RiskLevel};

fn diff_node(name: &str, is_dir: bool, current_size: u64, size_delta: i64, children: Vec<DiffNode>) -> DiffNode {
    DiffNode { name: name.to_string(), is_dir, current_size, size_delta, children }
}

#[test]
fn test_estimate_tokens_empty() {
    assert_eq!(estimate_tokens(""), 0);
}

#[test]
fn test_estimate_tokens_short() {
    let n = estimate_tokens("hello world");
    assert!(n > 0);
}

#[test]
fn test_estimate_tokens_cjk() {
    let n = estimate_tokens("你好世界");
    assert!(n > 0);
}

#[test]
fn test_collect_extensions() {
    let tree = diff_node(
        "root",
        true,
        300,
        100,
        vec![diff_node("file.log", false, 200, 100, vec![]), diff_node("data.bin", false, 100, 0, vec![])],
    );
    let mut ext_map: Vec<(String, u64)> = Vec::new();
    let mut total = 0u64;
    collect_extensions(&tree, &mut ext_map, &mut total);
    let get = |k: &str| ext_map.iter().find(|(e, _)| e == k).map(|(_, v)| *v);
    assert_eq!(get(".log").unwrap(), 200);
    assert_eq!(get(".bin").unwrap(), 100);
    assert_eq!(total, 300);
}

#[test]
fn test_find_subtree_deep() {
    let tree = diff_node("a", true, 0, 0, vec![diff_node("b", true, 0, 0, vec![diff_node("c", true, 100, 50, vec![])])]);
    let found = find_subtree(&tree, &["a", "b", "c"]);
    assert!(found.is_some());
    assert_eq!(found.unwrap().size_delta, 50);

    let not_found = find_subtree(&tree, &["a", "x"]);
    assert!(not_found.is_none());
}

#[test]
fn test_basic_insert_and_detect_duplicates() {
    let mut s = SeenInodes::new();
    assert!(s.insert((1, 100)));
    assert!(!s.insert((1, 100)));
    assert!(s.insert((1, 200)));
    assert!(s.insert((2, 100)));
    assert!(!s.insert((1, 100)));
    assert_eq!(s.len(), 3);
}

#[test]
fn test_no_false_negatives() {
    let mut s = SeenInodes::new();
    let keys: Vec<(u64, u64)> = (0..10_000u64).map(|i| (i, i * 7 + 1)).collect();
    for &k in &keys {
        assert!(s.insert(k), "first insert of {k:?}");
    }
    let mut false_negatives = 0;
    for &k in &keys {
        if s.insert(k) {
            false_negatives += 1;
        }
    }
    assert!(false_negatives == 0, "expected 0 false negatives, got {false_negatives}");
    assert_eq!(s.len(), keys.len());
}

#[test]
fn test_empty() {
    let s = SeenInodes::new();
    assert!(s.is_empty());
    assert_eq!(s.len(), 0);
}

#[test]
fn test_false_positive_rate_within_budget() {
    let mut s = SeenInodes::new();
    let n = 50_000u64;
    for i in 0..n {
        s.insert((i, i * 3 + 1));
    }
    assert_eq!(s.len(), n as usize);
    let mut fps = 0u64;
    for i in n..2 * n {
        if !s.insert((i, i * 3 + 1)) {
            fps += 1;
        }
    }
    let rate = fps as f64 / n as f64;
    assert!(rate < 0.01, "false positive rate too high: {:.4} (expected < 0.01)", rate);
}

#[test]
fn test_default_targets_have_ids() {
    let targets = default_clean_targets(Platform::MacOs, Some("/Users/test"));
    assert!(!targets.is_empty());
    for t in &targets {
        assert!(!t.id.is_empty(), "target id empty: {:?}", t.label);
        assert!(!t.paths.is_empty(), "target {:?} has no paths", t.id);
    }
}

#[test]
fn test_target_category_labels() {
    assert_eq!(TargetCategory::AppCache.label(), "App Cache");
    assert_eq!(TargetCategory::Trash.label(), "Trash");
}

fn nonexistent_target(path: &str) -> CleanTarget {
    CleanTarget {
        id: "nonexistent".into(),
        label: "Nonexistent".into(),
        paths: vec![path.to_string()],
        risk: RiskLevel::Safe,
        category: TargetCategory::TempFiles,
    }
}

#[test]
fn test_scan_target_size_nonexistent() {
    let target = nonexistent_target("/_nonexistent_path_xyz99/");
    let probes = [PathProbe { exists: false, size: Ok(0) }];
    let (size, paths) = scan_target_size(&target, &probes).unwrap();
    assert_eq!(size, 0);
    assert!(paths.is_empty());
}

#[test]
fn test_plan_clean_nonexistent() {
    let target = nonexistent_target("/_xyz_nonexistent_test_99/");
    let probes = [PathProbe { exists: false, size: Ok(0) }];
    let scan: TargetScan = scan_target_size(&target, &probes);
    let plan = plan_clean(Platform::MacOs, &[target], &[scan], Some("/Users/test")).unwrap();
    assert!(plan.is_empty());
    assert_eq!(plan.total_bytes, 0);
}

#[test]
fn test_artifact_kind_dir_names() {
    assert_eq!(ArtifactKind::NodeModules.dir_name(), "node_modules");
    assert_eq!(ArtifactKind::Target.dir_name(), "target");
    assert_eq!(ArtifactKind::Venv.dir_name(), "venv");
}

#[test]
fn test_artifact_kind_labels() {
    assert_eq!(ArtifactKind::Target.label(), "target (Rust)");
    assert_eq!(ArtifactKind::NodeModules.label(), "node_modules");
}

#[test]
fn test_protected_system_paths() {
    assert!(is_protected(Platform::MacOs, "/System"));
    assert!(is_protected(Platform::MacOs, "/System/Library"));
    assert!(is_protected(Platform::MacOs, "/usr/bin"));
    assert!(!is_protected(Platform::MacOs, "/tmp"));
    assert!(!is_protected(Platform::MacOs, "/var/folders"));
}

#[test]
fn test_non_protected_user_paths() {
    assert!(!is_protected(Platform::MacOs, "/Users/test/Downloads"));
}

#[test]
fn test_risk_system_is_high() {
    assert_eq!(classify_risk(Platform::MacOs, "/System", Some("/Users/test")), RiskLevel::High);
}

#[test]
fn test_check_deletion_allowed_rejects_protected() {
    assert!(check_deletion_allowed(Platform::MacOs, "/System").is_err());
    assert!(check_deletion_allowed(Platform::MacOs, "/tmp").is_ok());
}

#[test]
fn test_risk_level_labels() {
    assert_eq!(RiskLevel::Safe.label(), "safe");
    assert_eq!(RiskLevel::High.label(), "high");
    assert_eq!(RiskLevel::from_label("medium"), Some(RiskLevel::Medium));
    assert_eq!(RiskLevel::from_label("unknown"), None);
}

#[test]
fn test_requires_confirmation() {
    assert!(!RiskLevel::Safe.requires_typed_confirmation());
    assert!(!RiskLevel::Low.requires_typed_confirmation());
    assert!(RiskLevel::Medium.requires_typed_confirmation());
    assert!(RiskLevel::High.requires_typed_confirmation());
}

#[test]
fn test_default_shell_cmd_targets_have_ids() {
    let targets = default_shell_cmd_targets();
    for t in &targets {
        assert!(!t.id.is_empty(), "target id empty: {:?}", t.label);
        assert!(!t.command.is_empty());
    }
}

#[test]
fn test_app_name_from_path() {
    assert_eq!(app_name_from_path("/Applications/Firefox.app"), "Firefox");
}

#[test]
fn test_has_significant_changes() {
    let diff = diff_node("root", true, 1000, 500, vec![]);
    assert!(has_significant_changes(&diff, 400));
    assert!(!has_significant_changes(&diff, 600));
}

#[test]
fn test_parse_human_size_bytes() {
    assert_eq!(parse_human_size("500B").unwrap(), 500);
}

#[test]
fn test_parse_human_size_kb() {
    assert_eq!(parse_human_size("10KB").unwrap(), 10240);
}

#[test]
fn test_parse_human_size_mb() {
    assert_eq!(parse_human_size("50MB").unwrap(), 52_428_800);
}

#[test]
fn test_parse_human_size_gb() {
    assert_eq!(parse_human_size("2.5GB").unwrap(), 2_684_354_560);
}

#[test]
fn test_parse_human_size_zero() {
    assert_eq!(parse_human_size("0").unwrap(), 0);
}

#[test]
fn test_parse_human_size_invalid() {
    assert!(parse_human_size("xyz").is_err());
}

#[test]
fn test_parse_human_size_empty() {
    assert!(parse_human_size("").is_err());
}

#[test]
fn test_hash_root_path() {
    let hash = hash_root_path("/home/user");
    assert_eq!(hash.len(), 8);
}

#[test]
fn test_snapshot_builder_and_names() {
    let mut b = SnapshotBuilder::new("root");
    let f = b.push_file(ROOT_NODE, "a.txt", FileType::File, 10, 10);
    let d = b.push_dir(ROOT_NODE, "sub");
    b.push_file(d, "b.txt", FileType::File, 20, 20);
    let snap = b.finish("/tmp".to_string(), 30, 30);
    assert_eq!(snap.version, SNAPSHOT_VERSION);
    assert_eq!(snap.name(ROOT_NODE), "root");
    assert_eq!(snap.name(f), "a.txt");
    assert_eq!(snap.children_len(ROOT_NODE), 2);
    assert_eq!(snap.children_len(d), 1);
    assert!(snap.node(f).has_inline_name() || snap.name(f) == "a.txt");
}

#[test]
fn test_long_name_goes_to_blob() {
    let long = "a".repeat(INLINE_NAME_MAX + 5);
    let mut b = SnapshotBuilder::new("root");
    let idx = b.push_file(ROOT_NODE, &long, FileType::File, 1, 1);
    let snap = b.finish("/tmp".to_string(), 1, 1);
    assert!(!snap.node(idx).has_inline_name());
    assert_eq!(snap.name(idx), long);
    assert!(!snap.names.is_empty());
}

#[test]
fn test_file_node_size_of_reasonable() {
    let sz = std::mem::size_of::<FileNode>();
    assert_eq!(sz, 40, "FileNode should be 40 bytes, got {sz}");
}

#[test]
fn test_compute_size() {
    let mut nodes: Vec<FileNode> = {
        let mut b = SnapshotBuilder::new("parent");
        b.push_file(ROOT_NODE, "child1", FileType::File, 100, 100);
        b.push_file(ROOT_NODE, "child2", FileType::File, 200, 200);
        b.nodes
    };
    compute_size(&mut nodes);
    assert_eq!(nodes[0].size(), 300);
}

#[test]
fn protected_paths_follow_the_platform() {
    assert!(is_protected(Platform::Linux, "/proc/1"));
    assert!(is_protected(Platform::Linux, "/boot"));
    assert!(!is_protected(Platform::Linux, "/System"));
    assert!(!is_protected(Platform::MacOs, "/proc"));
    assert!(!is_protected(Platform::Linux, "/usr/binaries"));
    assert!(check_deletion_allowed(Platform::Linux, "/sys/kernel").is_err());
    assert_eq!(classify_risk(Platform::Linux, "/dev/null", Some("/home/u")), RiskLevel::High);
}
