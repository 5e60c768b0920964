use argus::browse::{full_path, refresh_current_filtered, sort_children, DirEntry};
use argus::browser_state::DeltaFilter;
use argus::flat::{load_listing, selected_entry, EnterOutcome, FlatNav, Listing};
use argus::model::{FileType, Snapshot, SnapshotBuilder, ROOT_NODE};
use argus::navigation::{cycle_match, SearchState};
use argus::review::RiskLevel;
use argus::ui::{SearchMode, SortMode};

struct FlatApp {
    snap: Snapshot,
    nav: FlatNav,
    view_root_path: String,
    scan_cache: Vec<(String, Snapshot)>,
    sort_mode: SortMode,
    delta_cache: Vec<(Vec<String>, i64)>,
    filter: DeltaFilter,
    show_hidden: bool,
    children: Vec<DirEntry>,
    filtered: Vec<usize>,
    search: SearchState,
    total: u64,
}

impl FlatApp {
    fn new(snap: Snapshot, view_root_path: &str, root_name: &str) -> FlatApp {
        let mut nav = FlatNav::new();
        nav.current_dir_path = vec![root_name.to_string()];
        let mut app = FlatApp {
            snap,
            nav,
            view_root_path: view_root_path.to_string(),
            scan_cache: Vec::new(),
            sort_mode: SortMode::Size,
            delta_cache: Vec::new(),
            filter: DeltaFilter::new(),
            show_hidden: false,
            children: Vec::new(),
            filtered: Vec::new(),
            search: SearchState {
                search_word: String::new(),
                search_mode: SearchMode::Inactive,
                search_match_indices: Vec::new(),
                cursor: 0,
            },
            total: 0,
        };
        app.load();
        app
    }

    fn load(&mut self) {
        let reviews: Vec<(String, RiskLevel)> = Vec::new();
        let listing = load_listing(
            &self.snap,
            ROOT_NODE,
            &mut self.nav.current_dir_path,
            self.show_hidden,
            &self.scan_cache,
            &self.view_root_path,
            self.sort_mode,
            &self.delta_cache,
            &reviews,
            &self.filter,
            &mut self.nav.cursor,
            &mut self.search,
        );
        match listing {
            Some(Listing { children, filtered, totals }) => {
                self.children = children;
                self.filtered = filtered;
                self.total = totals.total;
            }
            None => {
                self.children.clear();
                self.filtered.clear();
            }
        }
    }

    fn name(&self, i: usize) -> String {
        self.snap.name(self.children[i].node).to_string()
    }

    fn names(&self) -> Vec<String> {
        (0..self.children.len()).map(|i| self.name(i)).collect()
    }

    fn selected(&self) -> Option<&DirEntry> {
        selected_entry(&self.filtered, self.children.len(), self.nav.cursor).map(|i| &self.children[i])
    }

    fn enter_directory(&mut self) -> EnterOutcome {
        let selected = self.selected().cloned();
        let r = self.nav.enter_directory(selected.as_ref(), &self.view_root_path, &self.scan_cache);
        if r == EnterOutcome::Entered {
            self.load();
        }
        r
    }

    fn go_to_parent(&mut self) {
        if self.nav.go_to_parent() {
            self.load();
        }
    }

    fn go_to_root(&mut self) {
        self.nav.go_to_root();
        self.load();
    }

    fn refresh(&mut self) {
        self.filtered = refresh_current_filtered(&self.children, &self.filter, &self.delta_cache, &mut self.nav.cursor);
    }
}

fn make_flat_app() -> FlatApp {
    let mut b = SnapshotBuilder::new("test");
    let src = b.push_dir(ROOT_NODE, "src");
    let docs = b.push_dir(ROOT_NODE, "docs");
    b.push_file(ROOT_NODE, "readme.md", FileType::File, 50, 50);
    b.nodes[src as usize].set_size(100);
    b.nodes[src as usize].set_disk_usage(100);
    b.nodes[docs as usize].set_size(50);
    b.nodes[docs as usize].set_disk_usage(50);
    b.nodes[0].set_size(200);
    b.nodes[0].set_disk_usage(200);
    let snap = b.finish("/tmp/test".to_string(), 200, 200);
    FlatApp::new(snap, "/tmp/test", "test")
}

fn search(app: &FlatApp, word: &str) -> SearchState {
    let mut s = SearchState {
        search_word: word.to_string(),
        search_mode: SearchMode::Active,
        search_match_indices: Vec::new(),
        cursor: app.nav.cursor,
    };
    s.apply_search(&app.names());
    s
}

#[test]
fn test_load_current_children_basic() {
    let app = make_flat_app();
    assert_eq!(app.children.len(), 3);
    assert_eq!(app.total, 200);
    assert_eq!(app.name(0), "src");
    assert_eq!(app.name(1), "docs");
    assert_eq!(app.name(2), "readme.md");
}

#[test]
fn test_selected_entry_returns_correct_item() {
    let mut app = make_flat_app();
    app.nav.cursor = 0;
    let entry = app.selected().unwrap();
    assert_eq!(app.snap.name(entry.node), "src");
    assert!(entry.is_dir);

    app.nav.cursor = 2;
    let entry = app.selected().unwrap();
    assert_eq!(app.snap.name(entry.node), "readme.md");
    assert!(!entry.is_dir);
}

#[test]
fn test_selected_entry_out_of_bounds() {
    let mut app = make_flat_app();
    app.nav.cursor = 100;
    assert!(app.selected().is_none());
}

#[test]
fn test_enter_directory_into_subdir() {
    let mut app = make_flat_app();
    app.nav.cursor = 0;

    app.enter_directory();
    assert_eq!(app.nav.current_dir_path, vec![String::from("test"), String::from("src")]);
    assert_eq!(app.children.len(), 0);
    assert_eq!(app.nav.dir_stack.len(), 1);
    assert_eq!(app.nav.cursor, 0);
}

#[test]
fn test_enter_directory_non_dir_does_nothing() {
    let mut app = make_flat_app();
    let readme_idx = (0..app.children.len()).position(|i| app.name(i) == "readme.md").unwrap();
    app.nav.cursor = readme_idx;

    app.enter_directory();
    assert_eq!(app.nav.current_dir_path, vec![String::from("test")]);
    assert!(app.nav.dir_stack.is_empty());
}

#[test]
fn test_go_to_parent_restores_previous() {
    let mut app = make_flat_app();
    app.nav.cursor = 0;
    app.enter_directory();
    assert_eq!(app.nav.current_dir_path, vec![String::from("test"), String::from("src")]);

    app.go_to_parent();
    assert_eq!(app.nav.current_dir_path, vec![String::from("test")]);
    assert!(app.nav.dir_stack.is_empty());
}

#[test]
fn test_go_to_parent_at_root_does_nothing() {
    let mut app = make_flat_app();
    assert_eq!(app.nav.current_dir_path, vec![String::from("test")]);

    app.go_to_parent();
    assert_eq!(app.nav.current_dir_path, vec![String::from("test")]);
}

#[test]
fn test_go_to_root_clears_stack() {
    let mut app = make_flat_app();
    app.nav.cursor = 0;
    app.enter_directory();
    assert_eq!(app.nav.dir_stack.len(), 1);

    app.go_to_root();
    assert_eq!(app.nav.current_dir_path, vec![String::from("test")]);
    assert!(app.nav.dir_stack.is_empty());
}

#[test]
fn test_apply_search_filters_children() {
    let app = make_flat_app();
    let s = search(&app, "src");
    assert_eq!(app.filtered.len(), 3);
    assert_eq!(s.search_match_indices.len(), 1);
    assert_eq!(s.search_match_indices[0], 0);
    assert_eq!(app.name(0), "src");
}

#[test]
fn test_apply_search_empty_query_restores_all() {
    let app = make_flat_app();
    let s = search(&app, "nonexistent");
    assert_eq!(app.filtered.len(), 3);
    assert!(s.search_match_indices.is_empty());

    let s = search(&app, "");
    assert_eq!(app.filtered.len(), 3);
    assert!(s.search_match_indices.is_empty());
}

#[test]
fn test_cycle_match_forward() {
    let mut app = make_flat_app();
    let s = search(&app, "readme");
    assert_eq!(s.search_match_indices.len(), 1);

    app.nav.cursor = 0;
    app.nav.cursor = cycle_match(&s.search_match_indices, app.nav.cursor, true);
    assert_eq!(app.nav.cursor, 2);
}

#[test]
fn test_cycle_match_backward() {
    let mut app = make_flat_app();
    let s = search(&app, "readme");
    assert_eq!(s.search_match_indices.len(), 1);

    app.nav.cursor = 0;
    app.nav.cursor = cycle_match(&s.search_match_indices, app.nav.cursor, false);
    assert_eq!(app.nav.cursor, 2);
}

#[test]
fn test_sort_by_name() {
    let mut app = make_flat_app();
    app.sort_mode = SortMode::Name;
    sort_children(&mut app.children, app.sort_mode, &app.delta_cache);
    app.refresh();
    assert_eq!(app.name(0), "docs");
    assert_eq!(app.name(1), "readme.md");
    assert_eq!(app.name(2), "src");
}

#[test]
fn test_sort_by_size() {
    let mut app = make_flat_app();
    app.sort_mode = SortMode::Size;
    sort_children(&mut app.children, app.sort_mode, &app.delta_cache);
    app.refresh();
    assert_eq!(app.name(0), "src");
    assert_eq!(app.name(1), "docs");
    assert_eq!(app.name(2), "readme.md");
}

#[test]
fn test_hidden_files_toggle_in_load() {
    let mut b = SnapshotBuilder::new("test");
    b.push_file(ROOT_NODE, ".hidden", FileType::File, 50, 0);
    b.push_file(ROOT_NODE, "visible.txt", FileType::File, 50, 0);
    b.nodes[0].set_size(100);
    let snap = b.finish("/tmp/test".to_string(), 100, 0);
    let mut app = FlatApp::new(snap, "/tmp/test", "test");

    app.show_hidden = false;
    app.load();
    assert_eq!(app.children.len(), 1);
    assert_eq!(app.name(0), "visible.txt");

    app.show_hidden = true;
    app.load();
    assert_eq!(app.children.len(), 2);
}

#[test]
fn test_dir_stack_depth_multiple_entries() {
    let mut b = SnapshotBuilder::new("root");
    let a = b.push_dir(ROOT_NODE, "a");
    b.push_dir(ROOT_NODE, "b");
    b.push_dir(a, "deep");
    b.nodes[0].set_size(300);
    b.nodes[a as usize].set_size(200);
    let snap = b.finish("/tmp/deep".to_string(), 300, 0);
    let mut app = FlatApp::new(snap, "/tmp/deep", "root");

    app.nav.cursor = 0;
    app.enter_directory();
    assert_eq!(app.nav.current_dir_path, vec![String::from("root"), String::from("a")]);

    app.nav.cursor = 0;
    app.enter_directory();
    assert_eq!(
        app.nav.current_dir_path,
        vec![String::from("root"), String::from("a"), String::from("deep")]
    );
    assert_eq!(app.nav.dir_stack.len(), 2);

    app.go_to_parent();
    assert_eq!(app.nav.current_dir_path, vec![String::from("root"), String::from("a")]);
    assert_eq!(app.nav.dir_stack.len(), 1);

    app.go_to_parent();
    assert_eq!(app.nav.current_dir_path, vec![String::from("root")]);
    assert!(app.nav.dir_stack.is_empty());
}

#[test]
fn test_selected_node_full_path_flat_mode() {
    let mut app = make_flat_app();
    let idx = (0..app.children.len()).position(|i| app.name(i) == "readme.md").unwrap();
    app.nav.cursor = app.filtered.iter().position(|&i| i == idx).unwrap_or(0);
    let path = app.selected().map(|e| full_path(&app.view_root_path, &e.path));
    assert_eq!(path, Some("/tmp/test/readme.md".to_string()));
}

#[test]
fn test_refresh_current_filtered_delta_active() {
    let mut app = make_flat_app();
    app.filter.active = true;
    app.filter.value = 80;
    app.filter.unit = 0;
    app.delta_cache = vec![
        (vec![String::from("test"), String::from("src")], 100_000i64),
        (vec![String::from("test"), String::from("docs")], 50_000i64),
        (vec![String::from("test"), String::from("readme.md")], 0i64),
    ];
    app.refresh();
    assert_eq!(app.filtered.len(), 1);
    let idx = app.filtered[0];
    assert_eq!(app.name(idx), "src");
}

#[test]
fn selected_node_full_path_empty_listing_is_none() {
    let mut b = SnapshotBuilder::new("empty");
    b.nodes[0].set_size(0);
    let snap = b.finish("/tmp/empty".to_string(), 0, 0);
    let app = FlatApp::new(snap, "/tmp/empty", "empty");
    assert!(app.selected().is_none());
}

#[test]
fn enter_directory_with_own_scan_switches_root() {
    let mut app = make_flat_app();
    let mut b = SnapshotBuilder::new("src");
    b.push_file(ROOT_NODE, "lib.rs", FileType::File, 10, 10);
    let src_scan = b.finish("/tmp/test/src".to_string(), 10, 10);
    app.scan_cache.push(("/tmp/test/src/".to_string(), src_scan));
    app.nav.cursor = 0;
    let r = app.enter_directory();
    assert_eq!(r, EnterOutcome::SwitchToScan("/tmp/test/src".to_string()));
    assert!(app.nav.dir_stack.is_empty());
    assert!(app.nav.current_dir_path.is_empty());
}

#[test]
fn load_listing_unknown_path_gives_none() {
    let mut app = make_flat_app();
    app.nav.current_dir_path = vec!["test".to_string(), "nowhere".to_string()];
    app.nav.cursor = 4;
    app.load();
    assert!(app.children.is_empty());
    assert_eq!(app.nav.cursor, 4);
}

#[test]
fn load_listing_names_root_when_path_is_empty() {
    let mut app = make_flat_app();
    app.nav.current_dir_path.clear();
    app.load();
    assert_eq!(app.nav.current_dir_path, vec!["test".to_string()]);
    assert_eq!(app.children.len(), 3);
}

#[test]
fn test_load_current_children_resets_search() {
    let mut app = make_flat_app();
    app.search.search_word = "src".to_string();
    app.search.search_mode = SearchMode::Active;
    app.search.search_match_indices = vec![0];
    app.load();
    assert!(app.search.search_word.is_empty());
    assert_eq!(app.search.search_mode, SearchMode::Inactive);
    assert!(app.search.search_match_indices.is_empty());
    assert_eq!(app.filtered, vec![0, 1, 2]);
    assert_eq!(app.total, 200);
}
