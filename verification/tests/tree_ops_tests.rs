use argus::model::{FileType, Snapshot, SnapshotBuilder, ROOT_NODE};
use argus::tree_ops::{
    apply_deletion_to_state, enrich_snapshot_sizes, node_size_in_snapshot, path_to_components, prune_file_node,
    push_path, recompute_file_node_size, remove_path_from_snapshot, remove_path_from_tree, resolve_scan_tree,
    size_for_path, TreeState,
};

fn roll_sizes(b: &mut SnapshotBuilder) {
    for i in (1..b.nodes.len()).rev() {
        let size = b.nodes[i].size();
        if let Some(p) = b.nodes[i].parent() {
            let t = b.nodes[p as usize].size().saturating_add(size);
            b.nodes[p as usize].set_size(t);
        }
    }
}

fn child_named(snap: &Snapshot, parent: u32, name: &str) -> Option<u32> {
    snap.children(parent).iter().copied().find(|&c| snap.name(c) == name)
}

fn ignore_tree() -> Snapshot {
    let mut b = SnapshotBuilder::new("test");
    let ignore = b.push_dir(ROOT_NODE, "ignore");
    b.push_file(ignore, "keep.bin", FileType::File, 12, 12);
    b.push_file(ignore, "delete.bin", FileType::File, 10, 10);
    roll_sizes(&mut b);
    let total = b.nodes[0].size();
    b.finish("/tmp/test".to_string(), total, total)
}

fn flat_tree() -> Snapshot {
    let mut b = SnapshotBuilder::new("test");
    b.push_file(ROOT_NODE, "keep.txt", FileType::File, 80, 80);
    b.push_file(ROOT_NODE, "delete.txt", FileType::File, 20, 20);
    roll_sizes(&mut b);
    let total = b.nodes[0].size();
    b.finish("/tmp/test".to_string(), total, total)
}

#[test]
fn test_enrich_snapshot_sizes_recurses_into_deep_children() {
    let root_path = "/tmp/test".to_string();

    let mut live = SnapshotBuilder::new("test");
    let t = live.push_dir(ROOT_NODE, "target");
    let d = live.push_dir(t, "debug");
    let b = live.push_dir(d, "build");
    live.push_file(b, "build-script-build", FileType::File, 475_880, 475_880);
    let mut live_snap = live.finish(root_path.clone(), 0, 0);

    let mut scan = SnapshotBuilder::new("test");
    let t = scan.push_dir(ROOT_NODE, "target");
    let d = scan.push_dir(t, "debug");
    let b = scan.push_dir(d, "build");
    scan.push_file(b, "build-script-build", FileType::File, 475_880, 475_880);
    roll_sizes(&mut scan);
    let total = scan.nodes[0].size();
    let scan_snap = scan.finish(root_path.clone(), total, total);

    let scan_cache = vec![(root_path.clone(), scan_snap)];
    let root_scan_tree = resolve_scan_tree(&scan_cache, &root_path);

    enrich_snapshot_sizes(&mut live_snap, ROOT_NODE, &scan_cache, &root_path, root_scan_tree, &mut Vec::new());

    // build dir is index 3
    assert_eq!(live_snap.node(3).size(), 475_880);
}

#[test]
fn test_size_for_path_cache_hit() {
    let root_path = "/tmp/test";
    let sub_path = "/tmp/test/src".to_string();
    let mut b = SnapshotBuilder::new("src");
    b.nodes[0].set_size(100);
    let scan_cache = vec![(sub_path.clone(), b.finish(sub_path, 100, 0))];
    let size = size_for_path(&scan_cache, root_path, None, &["test".into(), "src".into()]);
    assert_eq!(size, Some(100));
}

#[test]
fn test_size_for_path_scan_tree_fallback() {
    let root_path = "/tmp/test".to_string();
    let mut b = SnapshotBuilder::new("test");
    let src = b.push_dir(ROOT_NODE, "src");
    b.nodes[src as usize].set_size(200);
    b.nodes[0].set_size(200);
    let snap = b.finish(root_path.clone(), 200, 0);
    let scan_cache = vec![(root_path.clone(), snap)];
    let root_scan_tree = resolve_scan_tree(&scan_cache, &root_path);
    let size = size_for_path(&scan_cache, &root_path, root_scan_tree, &["test".into(), "src".into()]);
    assert_eq!(size, Some(200));
}

#[test]
fn test_size_for_path_no_match() {
    let root_path = "/tmp/test".to_string();
    let snap = SnapshotBuilder::new("test").finish(root_path.clone(), 0, 0);
    let scan_cache = vec![(root_path.clone(), snap)];
    let root_scan_tree = resolve_scan_tree(&scan_cache, &root_path);
    let size = size_for_path(&scan_cache, &root_path, root_scan_tree, &["test".into(), "nonexistent".into()]);
    assert_eq!(size, None);
}

#[test]
fn test_delete_updates_parent_sizes_and_scan_cache() {
    let mut state = TreeState {
        scan_cache: vec![("/tmp/test".to_string(), ignore_tree())],
        view_root_path: "/tmp/test".to_string(),
        tree_root: Some((ignore_tree(), ROOT_NODE)),
    };

    apply_deletion_to_state(&mut state, "/tmp/test/ignore/delete.bin");

    let (snap, _) = state.tree_root.as_ref().unwrap();
    assert_eq!(snap.node(1).size(), 12);
    assert_eq!(snap.node(ROOT_NODE).size(), 12);

    let cached = &state.scan_cache.iter().find(|(k, _)| k == "/tmp/test").unwrap().1;
    assert_eq!(cached.node(ROOT_NODE).size(), 12);
    assert_eq!(cached.node(1).size(), 12);
    assert!(!cached.children(1).iter().any(|&idx| cached.name(idx) == "delete.bin"));
}

#[test]
fn test_delete_file_under_root_keeps_scan_data_and_percentage() {
    let mut state = TreeState {
        scan_cache: vec![("/tmp/test".to_string(), flat_tree())],
        view_root_path: "/tmp/test".to_string(),
        tree_root: Some((flat_tree(), ROOT_NODE)),
    };
    {
        let (snap, _) = state.tree_root.as_ref().unwrap();
        let keep = child_named(snap, ROOT_NODE, "keep.txt").unwrap();
        assert_eq!(snap.node(keep).size(), 80);
    }

    apply_deletion_to_state(&mut state, "/tmp/test/delete.txt");

    let (snap, _) = state.tree_root.as_ref().unwrap();
    assert_eq!(snap.node(ROOT_NODE).size(), 80);
    let keep = child_named(snap, ROOT_NODE, "keep.txt").unwrap();
    assert_eq!(snap.node(keep).size(), 80);

    let root_total = snap.node(ROOT_NODE).size();
    let pct = (snap.node(keep).size() as f64 / root_total as f64) * 100.0;
    assert!((pct - 100.0).abs() < 0.1);

    assert!(child_named(snap, ROOT_NODE, "delete.txt").is_none());
}

#[test]
fn test_delete_in_subdirectory_preserves_parent_scan_cache() {
    let mut parent_b = SnapshotBuilder::new("github");
    let argus = parent_b.push_dir(ROOT_NODE, "argus");
    parent_b.push_file(ROOT_NODE, "readme.md", FileType::File, 10, 10);
    parent_b.push_file(argus, "keep.txt", FileType::File, 80, 80);
    parent_b.push_file(argus, "delete.txt", FileType::File, 20, 20);
    roll_sizes(&mut parent_b);
    let parent_total = parent_b.nodes[0].size();
    let parent_scan = parent_b.finish("/tmp/github".to_string(), parent_total, parent_total);

    let mut sub_b = SnapshotBuilder::new("argus");
    sub_b.push_file(ROOT_NODE, "keep.txt", FileType::File, 80, 80);
    sub_b.push_file(ROOT_NODE, "delete.txt", FileType::File, 20, 20);
    let mut sub_snap = sub_b.finish("/tmp/github/argus".to_string(), 0, 0);

    let view_root = "/tmp/github/argus".to_string();
    let scan_cache = vec![("/tmp/github".to_string(), parent_scan)];
    {
        let root_scan_tree = resolve_scan_tree(&scan_cache, &view_root);
        enrich_snapshot_sizes(&mut sub_snap, ROOT_NODE, &scan_cache, &view_root, root_scan_tree, &mut Vec::new());
    }
    let keep = child_named(&sub_snap, ROOT_NODE, "keep.txt").unwrap();
    assert_eq!(sub_snap.node(keep).size(), 80);

    let mut state = TreeState { scan_cache, view_root_path: view_root.clone(), tree_root: Some((sub_snap, ROOT_NODE)) };
    apply_deletion_to_state(&mut state, "/tmp/github/argus/delete.txt");

    assert!(state.scan_cache.iter().any(|(k, _)| k == "/tmp/github"));
    assert!(resolve_scan_tree(&state.scan_cache, &state.view_root_path).is_some());

    let (snap, _) = state.tree_root.as_ref().unwrap();
    let keep = child_named(snap, ROOT_NODE, "keep.txt").unwrap();
    assert_eq!(snap.node(keep).size(), 80);
    assert_eq!(snap.node(ROOT_NODE).size(), 80);
}

#[test]
fn path_to_components_relative_parts() {
    assert_eq!(path_to_components("/tmp/test", "/tmp/test/a/b.txt"), Some(vec!["a".to_string(), "b.txt".to_string()]));
    assert_eq!(path_to_components("/tmp/test", "/tmp/test"), None);
    assert_eq!(path_to_components("/tmp/test", "/tmp/other/a"), None);
    assert_eq!(path_to_components("/tmp/test/", "/tmp/test/./a"), Some(vec!["a".to_string()]));
}

#[test]
fn node_size_follows_the_path() {
    let snap = ignore_tree();
    assert_eq!(node_size_in_snapshot(&snap, "/tmp/test/ignore"), 22);
    assert_eq!(node_size_in_snapshot(&snap, "/tmp/test/ignore/keep.bin"), 12);
    assert_eq!(node_size_in_snapshot(&snap, "/tmp/test/ignore/missing"), 0);
    assert_eq!(node_size_in_snapshot(&snap, "/elsewhere/x"), 0);
}

#[test]
fn recompute_sums_files_and_empties_directories() {
    let mut b = SnapshotBuilder::new("root");
    let a = b.push_dir(ROOT_NODE, "a");
    b.push_file(a, "x", FileType::File, 5, 5);
    b.push_file(a, "y", FileType::File, 7, 7);
    let e = b.push_dir(ROOT_NODE, "empty");
    b.push_file(ROOT_NODE, "z", FileType::File, 3, 3);
    b.nodes[e as usize].set_size(99);
    let mut snap = b.finish("/r".to_string(), 0, 0);
    let total = recompute_file_node_size(&mut snap, ROOT_NODE);
    assert_eq!(total, 15);
    assert_eq!(snap.node(ROOT_NODE).size(), 15);
    assert_eq!(snap.node(a).size(), 12);
    assert_eq!(snap.node(e).size(), 0);
}

#[test]
fn recompute_saturates() {
    let mut b = SnapshotBuilder::new("root");
    b.push_file(ROOT_NODE, "x", FileType::File, u64::MAX, 0);
    b.push_file(ROOT_NODE, "y", FileType::File, 1, 0);
    let mut snap = b.finish("/r".to_string(), 0, 0);
    assert_eq!(recompute_file_node_size(&mut snap, ROOT_NODE), u64::MAX);
}

#[test]
fn prune_removes_only_named_paths() {
    let mut snap = ignore_tree();
    let names = vec!["ignore".to_string(), "missing".to_string()];
    assert!(!prune_file_node(&mut snap, ROOT_NODE, &names, 0));
    assert_eq!(snap.node(ROOT_NODE).size(), 22);
    let names = vec!["ignore".to_string(), "keep.bin".to_string()];
    assert!(prune_file_node(&mut snap, ROOT_NODE, &names, 0));
    assert_eq!(snap.node(ROOT_NODE).size(), 10);
    assert_eq!(snap.children(1).len(), 1);
    assert!(!prune_file_node(&mut snap, ROOT_NODE, &names, 2));
}

#[test]
fn removing_a_path_updates_the_total() {
    let mut snap = ignore_tree();
    assert!(remove_path_from_snapshot(&mut snap, "/tmp/test/ignore"));
    assert_eq!(snap.node(ROOT_NODE).size(), 0);
    assert_eq!(snap.total_size, 0);
    assert!(!remove_path_from_snapshot(&mut snap, "/tmp/test/ignore"));

    let mut tree = ignore_tree();
    assert!(!remove_path_from_tree(&mut tree, "/tmp/other", "/tmp/test/ignore/keep.bin"));
    assert!(remove_path_from_tree(&mut tree, "/tmp/test", "/tmp/test/ignore/keep.bin"));
    assert_eq!(tree.node(ROOT_NODE).size(), 10);
    assert_eq!(tree.total_size, 22);
}

#[test]
fn deletion_drops_scans_below_the_deleted_path() {
    let mut sub = SnapshotBuilder::new("deep");
    sub.push_file(ROOT_NODE, "keep.bin", FileType::File, 12, 12);
    let sub = sub.finish("/tmp/test/ignore/deep".to_string(), 12, 12);
    let mut state = TreeState {
        scan_cache: vec![
            ("/tmp/test/ignore/deep".to_string(), sub),
            ("/tmp/test".to_string(), ignore_tree()),
            ("/var/other".to_string(), flat_tree()),
        ],
        view_root_path: "/tmp/test".to_string(),
        tree_root: None,
    };
    let freed = apply_deletion_to_state(&mut state, "/tmp/test/ignore");
    // the dropped scan counts its whole total, the root scan the node it held
    assert_eq!(freed, 12 + 22);
    assert_eq!(state.scan_cache.len(), 2);
    assert_eq!(state.scan_cache[0].0, "/tmp/test");
    assert_eq!(state.scan_cache[0].1.total_size, 0);
    assert_eq!(state.scan_cache[1].0, "/var/other");
    assert_eq!(state.scan_cache[1].1.total_size, 100);
    assert!(state.tree_root.is_none());
}

#[test]
fn resolve_prefers_the_nearest_cached_ancestor() {
    let scan_cache = vec![("/tmp/test".to_string(), ignore_tree())];
    let (snap, idx) = resolve_scan_tree(&scan_cache, "/tmp/test/ignore").unwrap();
    assert_eq!(snap.name(idx), "ignore");
    assert!(resolve_scan_tree(&scan_cache, "/tmp/test/missing").is_none());
    assert!(resolve_scan_tree(&scan_cache, "/elsewhere").is_none());
    let (_, idx) = resolve_scan_tree(&scan_cache, "/tmp/test/").unwrap();
    assert_eq!(idx, ROOT_NODE);
}

#[test]
fn push_path_joins_components() {
    let mut p = "/tmp".to_string();
    push_path(&mut p, "a");
    assert_eq!(p, "/tmp/a");
    let mut q = "/tmp/".to_string();
    push_path(&mut q, "b");
    assert_eq!(q, "/tmp/b");
    let mut r = String::new();
    push_path(&mut r, "c");
    assert_eq!(r, "c");
    push_path(&mut r, "/abs");
    assert_eq!(r, "/abs");
}
