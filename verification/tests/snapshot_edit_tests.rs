use argus::model::{FileType, Snapshot, SnapshotBuilder, ROOT_NODE};

fn names(s: &Snapshot, p: u32) -> Vec<String> {
    s.children(p).iter().map(|&c| s.name(c).to_string()).collect()
}

#[test]
fn from_builder_matches_finish() {
    let mut b = SnapshotBuilder::new("root");
    b.push_file(ROOT_NODE, "a.txt", FileType::File, 10, 4096);
    let s = Snapshot::from_builder("/r".to_string(), b, 10, 4096);
    assert_eq!(s.root_path, "/r");
    assert_eq!(s.total_size, 10);
    assert_eq!(s.node_count(), 2);
    assert_eq!(names(&s, ROOT_NODE), vec!["a.txt"]);
}

#[test]
fn children_sort_by_name_keeping_equal_names_in_order() {
    let mut b = SnapshotBuilder::new("root");
    b.push_file(ROOT_NODE, "zeta", FileType::File, 1, 1);
    let d = b.push_dir(ROOT_NODE, "alpha");
    b.push_file(ROOT_NODE, "Beta", FileType::File, 2, 2);
    b.push_file(ROOT_NODE, "alpha", FileType::File, 3, 3);
    b.push_file(d, "inner", FileType::File, 4, 4);
    let mut s = b.finish("/r".to_string(), 0, 0);
    s.sort_children(ROOT_NODE);
    assert_eq!(names(&s, ROOT_NODE), vec!["Beta", "alpha", "alpha", "zeta"]);
    let kids = s.children(ROOT_NODE).to_vec();
    assert!(s.node(kids[1]).is_dir() && !s.node(kids[2]).is_dir());
    assert_eq!(names(&s, d), vec!["inner"]);
}

#[test]
fn grafting_copies_the_listed_children() {
    let mut b = SnapshotBuilder::new("root");
    let d = b.push_dir(ROOT_NODE, "dir");
    let mut s = b.finish("/r".to_string(), 0, 0);
    let mut l = SnapshotBuilder::new("dir");
    l.push_file(ROOT_NODE, "a-very-long-file-name.bin", FileType::File, 100, 4096);
    l.push_dir(ROOT_NODE, "sub");
    let listed = l.finish("/r/dir".to_string(), 100, 4096);
    s.graft_children_from(d, &listed);
    assert_eq!(s.node_count(), 4);
    assert_eq!(names(&s, d), vec!["a-very-long-file-name.bin", "sub"]);
    let kids = s.children(d).to_vec();
    assert_eq!(s.node(kids[0]).size(), 100);
    assert_eq!(s.node(kids[0]).parent(), Some(d));
    assert!(s.node(kids[1]).is_dir());
    assert!(s.children(kids[1]).is_empty());
    assert_eq!(s.name(d), "dir");
    let c = s.clone_node_from(&listed, 1, ROOT_NODE);
    assert_eq!(c, 4);
    assert_eq!(s.name(c), "a-very-long-file-name.bin");
    assert!(s.children(ROOT_NODE).len() == 1);
}
