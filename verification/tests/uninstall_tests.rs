use argus::cleanup_view::{
    CleanupAction, CleanupMode, CleanupState, PopupKey, UninstallAction, UninstallPhase, UninstallState,
};
use argus::cleaning::CleanItem;
use argus::safety::RiskLevel;
use argus::uninstall::{
    app_id, assemble_leftovers, bundle_id_from_plist, collect_installed_apps, is_app_bundle, known_names,
    leftover_candidates, orphaned_data, trash_failure, uninstall_items, AppInfo, BundleProbe, ListedEntry,
};

fn app(name: &str, id: &str, size: u64) -> AppInfo {
    AppInfo {
        id: id.to_string(),
        name: name.to_string(),
        path: format!("/Applications/{}.app", name),
        size,
        last_used: None,
        is_from_app_store: false,
    }
}

#[test]
fn plist_bundle_id_is_read_after_the_key() {
    let plist = "<dict>\n<key>CFBundleIdentifier</key>\n<string>org.mozilla.firefox</string>\n</dict>";
    assert_eq!(bundle_id_from_plist(plist), Some("org.mozilla.firefox".to_string()));
    assert_eq!(bundle_id_from_plist("<dict></dict>"), None);
    assert_eq!(bundle_id_from_plist("<key>CFBundleIdentifier</key> <data>x</data>"), None);
}

#[test]
fn app_id_falls_back_to_unknown_name() {
    assert_eq!(app_id(None, "Firefox"), "unknown.Firefox");
    assert_eq!(app_id(Some("<plist/>"), "Firefox"), "unknown.Firefox");
    let plist = "<key>CFBundleIdentifier</key>\n<string>com.x.y</string>";
    assert_eq!(app_id(Some(plist), "Y"), "com.x.y");
}

#[test]
fn app_bundles_are_recognized_by_extension() {
    assert!(is_app_bundle("/Applications/Firefox.app"));
    assert!(!is_app_bundle("/Applications/.app"));
    assert!(!is_app_bundle("/Applications/notes.txt"));
    assert!(!is_app_bundle("/Applications/app"));
}

#[test]
fn installed_apps_are_largest_first_and_stable() {
    let probes = vec![
        BundleProbe { path: "/Applications/A.app".into(), size: 10, plist: None, last_used: None },
        BundleProbe { path: "/Applications/B.app".into(), size: 30, plist: None, last_used: Some(5) },
        BundleProbe { path: "/Applications/C.app".into(), size: 10, plist: None, last_used: None },
    ];
    let apps = collect_installed_apps(&probes);
    let names: Vec<&str> = apps.iter().map(|a| a.name.as_str()).collect();
    assert_eq!(names, vec!["B", "A", "C"]);
    assert_eq!(apps[0].id, "unknown.B");
    assert_eq!(apps[0].last_used, Some(5));
}

#[test]
fn leftover_candidates_pair_id_and_name() {
    let a = app("Foo", "com.foo.app", 1);
    let c = leftover_candidates("/Users/me", &a);
    assert_eq!(c.len(), 16);
    assert_eq!(c[0], "/Users/me/Library/Application Support/com.foo.app");
    assert_eq!(c[1], "/Users/me/Library/Application Support/Foo");
    assert_eq!(c[3], "/Users/me/Library/Caches/Foo");
    assert_eq!(c[15], "/Users/me/Library/Containers/Foo");
}

#[test]
fn test_find_leftovers_nonexistent_app() {
    let a = AppInfo {
        id: "com.nonexistent.xyz".into(),
        name: "NonexistentAppXYZ".into(),
        path: "/Applications/NonexistentAppXYZ.app".into(),
        size: 0,
        last_used: None,
        is_from_app_store: false,
    };
    let support = vec![ListedEntry { path: "/Users/me/Library/Application Support/Other".into(), exists: true, size: 9 }];
    let leftovers = assemble_leftovers(&a, "/Users/me", &[None; 16], &support);
    assert!(leftovers.leftover_paths.is_empty());
    assert_eq!(leftovers.total_leftover_bytes, 0);
}

#[test]
fn leftovers_take_existing_places_then_matching_support_entries() {
    let a = app("Foo", "com.foo.app", 1);
    let mut probes = [None; 16];
    probes[0] = Some(100);
    probes[3] = Some(5);
    let support = vec![
        ListedEntry { path: "/Users/me/Library/Application Support/com.foo.app".into(), exists: true, size: 100 },
        ListedEntry { path: "/Users/me/Library/Application Support/comfooapp-data".into(), exists: true, size: 7 },
        ListedEntry { path: "/Users/me/Library/Application Support/FOO Helper".into(), exists: false, size: 8 },
        ListedEntry { path: "/Users/me/Library/Application Support/Bar".into(), exists: true, size: 9 },
    ];
    let l = assemble_leftovers(&a, "/Users/me", &probes, &support);
    assert_eq!(
        l.leftover_paths,
        vec![
            "/Users/me/Library/Application Support/com.foo.app".to_string(),
            "/Users/me/Library/Caches/Foo".to_string(),
            "/Users/me/Library/Application Support/comfooapp-data".to_string(),
        ]
    );
    assert_eq!(l.total_leftover_bytes, 112);
    assert_eq!(l.app.name, "Foo");
}

#[test]
fn test_find_orphaned_data_returns_ok() {
    let apps = vec![app("Foo", "com.foo.app", 1)];
    let known = known_names(&apps);
    assert_eq!(known, vec!["foo".to_string(), "comfooapp".to_string()]);
    let entries = vec![
        ("/Users/me/Library/Caches/foo.cache".to_string(), 3u64),
        ("/Users/me/Library/Caches/.DS_Store".to_string(), 4u64),
        ("/Users/me/Library/Caches/Gone".to_string(), 5u64),
        ("/Users/me/Library/Logs/fo".to_string(), 6u64),
    ];
    let data = orphaned_data(&known, &entries);
    assert!(data.item_count == 0 || data.total_bytes > 0);
    assert_eq!(data.paths, vec!["/Users/me/Library/Caches/Gone".to_string()]);
    assert_eq!(data.total_bytes, 5);
    assert_eq!(data.item_count, 1);
}

#[test]
fn uninstall_items_list_bundle_then_leftovers() {
    let a = app("Foo", "com.foo.app", 40);
    let l = vec![("/Users/me/Library/Caches/Foo".to_string(), 2u64)];
    let items: Vec<CleanItem> = uninstall_items(&a, Some(&l));
    assert_eq!(items.len(), 2);
    assert_eq!(items[0].path, "/Applications/Foo.app");
    assert_eq!(items[0].target_id, "uninstall");
    assert_eq!(items[1].target_id, "uninstall-leftover");
    assert_eq!(items[1].size, 2);
    assert_eq!(items[1].risk, RiskLevel::Low);
    assert_eq!(uninstall_items(&a, None).len(), 1);
    assert_eq!(trash_failure("denied"), "trash: denied");
}

fn item(path: &str, size: u64) -> CleanItem {
    CleanItem { path: path.into(), size, risk: RiskLevel::Safe, target_id: "t".into() }
}

#[test]
fn cleanup_keys_move_select_and_confirm() {
    let mut s = CleanupState::new(CleanupMode::Clean);
    let mut gg = false;
    assert!(matches!(s.handle_cleanup_key(PopupKey::Down, &mut gg), CleanupAction::Nothing));
    assert_eq!(s.cursor, 0);
    s.scanning = false;
    s.items = vec![item("/a", 1), item("/b", 2), item("/c", 3)];
    s.handle_cleanup_key(PopupKey::Char('j'), &mut gg);
    s.handle_cleanup_key(PopupKey::Char('j'), &mut gg);
    s.handle_cleanup_key(PopupKey::Char('j'), &mut gg);
    assert_eq!(s.cursor, 2);
    s.handle_cleanup_key(PopupKey::Char(' '), &mut gg);
    s.handle_cleanup_key(PopupKey::Char('g'), &mut gg);
    assert!(gg);
    s.handle_cleanup_key(PopupKey::Char('g'), &mut gg);
    assert_eq!(s.cursor, 0);
    s.handle_cleanup_key(PopupKey::Char(' '), &mut gg);
    s.handle_cleanup_key(PopupKey::Char('d'), &mut gg);
    assert!(s.dry_run);
    s.handle_cleanup_key(PopupKey::Enter, &mut gg);
    assert!(s.confirm_pending);
    match s.handle_cleanup_key(PopupKey::Char('y'), &mut gg) {
        CleanupAction::Clean(items, dry) => {
            let paths: Vec<&str> = items.iter().map(|i| i.path.as_str()).collect();
            assert_eq!(paths, vec!["/a", "/c"]);
            assert!(dry);
        }
        other => panic!("unexpected {:?}", other),
    }
    assert!(!s.confirm_pending);
}

#[test]
fn cleanup_details_open_and_close() {
    let mut s = CleanupState::new(CleanupMode::Purge);
    let mut gg = false;
    s.scanning = false;
    s.items = vec![item("/a", 1)];
    match s.handle_cleanup_key(PopupKey::Char('i'), &mut gg) {
        CleanupAction::Details(p) => assert_eq!(p, "/a"),
        other => panic!("unexpected {:?}", other),
    }
    assert!(s.detail_pending);
    s.handle_cleanup_key(PopupKey::Char('j'), &mut gg);
    assert_eq!(s.cursor, 0);
    s.handle_cleanup_key(PopupKey::Esc, &mut gg);
    assert!(!s.detail_pending);
    assert!(matches!(s.handle_cleanup_key(PopupKey::Char('q'), &mut gg), CleanupAction::Exit));
}

fn uninstall_state() -> UninstallState {
    let mut s = UninstallState::new();
    s.scanning = false;
    s.apps = vec![app("Zed", "dev.zed", 5), app("alpha", "a.b", 50), app("Beta", "b.c", 20)];
    s.filtered = vec![0, 1, 2];
    s
}

#[test]
fn uninstall_filter_and_sort() {
    let mut s = uninstall_state();
    let mut gg = false;
    s.handle_uninstall_key(PopupKey::Char('/'), &mut gg);
    assert!(s.filter_mode);
    s.handle_uninstall_key(PopupKey::Char('A'), &mut gg);
    assert_eq!(s.filtered, vec![1, 2]);
    s.handle_uninstall_key(PopupKey::Backspace, &mut gg);
    assert_eq!(s.filtered, vec![0, 1, 2]);
    s.handle_uninstall_key(PopupKey::Esc, &mut gg);
    assert!(!s.filter_mode);
    s.handle_uninstall_key(PopupKey::Char('o'), &mut gg);
    assert_eq!(s.sort_mode, 1);
    s.handle_uninstall_key(PopupKey::Char('o'), &mut gg);
    assert_eq!(s.sort_mode, 2);
    let names: Vec<&str> = s.apps.iter().map(|a| a.name.as_str()).collect();
    assert_eq!(names, vec!["alpha", "Beta", "Zed"]);
    s.handle_uninstall_key(PopupKey::Char('o'), &mut gg);
    let names: Vec<&str> = s.apps.iter().map(|a| a.name.as_str()).collect();
    assert_eq!(names, vec!["alpha", "Beta", "Zed"]);
    assert_eq!(s.sort_mode, 0);
}

#[test]
fn uninstall_pick_confirm_and_run() {
    let mut s = uninstall_state();
    let mut gg = false;
    s.handle_uninstall_key(PopupKey::Down, &mut gg);
    match s.handle_uninstall_key(PopupKey::Enter, &mut gg) {
        UninstallAction::FindLeftovers(a) => assert_eq!(a.name, "alpha"),
        other => panic!("unexpected {:?}", other),
    }
    assert_eq!(s.phase, UninstallPhase::Confirm);
    assert_eq!(s.selected_app, Some(1));
    s.scanning = false;
    s.handle_uninstall_key(PopupKey::Tab, &mut gg);
    assert!(!s.remove_leftovers);
    s.handle_uninstall_key(PopupKey::Enter, &mut gg);
    assert!(s.confirm_pending);
    match s.handle_uninstall_key(PopupKey::Char('Y'), &mut gg) {
        UninstallAction::Uninstall(a, rm) => {
            assert_eq!(a.name, "alpha");
            assert!(!rm);
        }
        other => panic!("unexpected {:?}", other),
    }
    s.handle_uninstall_key(PopupKey::Esc, &mut gg);
    assert_eq!(s.phase, UninstallPhase::SelectApp);
    assert!(matches!(s.handle_uninstall_key(PopupKey::Char('q'), &mut gg), UninstallAction::Exit));
}
