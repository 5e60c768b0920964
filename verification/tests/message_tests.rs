use argus::browser_state::TimeWindow;
use argus::browsing::BrowseState;
use argus::cleaning::{CleanItem, CleanReport};
use argus::cleanup_view::{CleanupMode, CleanupState, UninstallState};
use argus::messages::{handle_message, AppMessage, AppState};
use argus::model::SnapshotBuilder;
use argus::review::{AiPathVerdict, AiReviewState, AiStatus};
use argus::safety::RiskLevel as CleanRisk;
use argus::tree_ops::TreeState;
use argus::ui::AppMode;
use std::collections::HashSet;

fn app(view_root: &str) -> AppState {
    AppState {
        tree: TreeState { scan_cache: Vec::new(), view_root_path: view_root.to_string(), tree_root: None },
        browse: BrowseState::new(),
        current_dir_path: Vec::new(),
        window: TimeWindow::new(),
        scanning: true,
        scan_progress: None,
        scan_current_path: None,
        last_scan: None,
        server_mode: false,
        server_connected: false,
        delta_cache: Vec::new(),
        delta_filter_active: false,
        delta_pending: false,
        deleting: false,
        delete_progress: None,
        deleted_bytes: 0,
        cleanup: None,
        uninstall: None,
        ai: None,
        status: None,
    }
}

fn verdict(path: &str, size: u64) -> AiPathVerdict {
    AiPathVerdict {
        path: path.to_string(),
        size,
        label: String::new(),
        label_detail: String::new(),
        purpose: String::new(),
        risk_level: argus::review::RiskLevel::Low,
        suggestion: String::new(),
        background: String::new(),
        deletable: true,
    }
}

#[test]
fn scan_progress_and_completion_update_the_scan_state() {
    let mut s = app("/data");
    let e = handle_message(&mut s, AppMessage::ScanProgress { file_count: 3, total_bytes: 900, current_path: Some("/data/a".into()) });
    assert_eq!(s.scan_progress, Some((3, 900)));
    assert_eq!(s.scan_current_path.as_deref(), Some("/data/a"));
    assert!(!e.rebuild && !e.reload_listing);
    let snap = SnapshotBuilder::new("data").finish("/data".to_string(), 1234, 4096);
    let e = handle_message(&mut s, AppMessage::ScanComplete(snap));
    assert!(!s.scanning);
    assert!(s.scan_progress.is_none() && s.scan_current_path.is_none());
    let t = s.last_scan.as_ref().unwrap();
    assert_eq!((t.root_path.as_str(), t.total_size, t.total_disk_usage), ("/data", 1234, 4096));
    assert_eq!(s.tree.scan_cache.len(), 1);
    assert!(e.scan_finished && e.rebuild && e.reload_listing && !e.request_deltas);
    // A rescan of the same root replaces the cached scan.
    let snap = SnapshotBuilder::new("data").finish("/data/".to_string(), 99, 0);
    handle_message(&mut s, AppMessage::ScanComplete(snap));
    assert_eq!(s.tree.scan_cache.len(), 1);
    assert_eq!(s.tree.scan_cache[0].0, "/data");
    assert_eq!(s.tree.scan_cache[0].1.total_size, 99);
}

#[test]
fn scan_of_a_subdirectory_becomes_the_root_and_others_are_only_cached() {
    let mut s = app("/data");
    s.current_dir_path = vec!["data".to_string(), "sub".to_string()];
    s.server_mode = true;
    let snap = SnapshotBuilder::new("sub").finish("/data/sub".to_string(), 10, 10);
    let e = handle_message(&mut s, AppMessage::ScanComplete(snap));
    assert_eq!(s.tree.view_root_path, "/data/sub");
    assert!(s.current_dir_path.is_empty());
    assert!(e.rebuild && e.request_deltas);
    let other = SnapshotBuilder::new("x").finish("/elsewhere".to_string(), 1, 1);
    let e = handle_message(&mut s, AppMessage::ScanComplete(other));
    assert_eq!(s.tree.view_root_path, "/data/sub");
    assert_eq!(s.tree.scan_cache.len(), 2);
    assert!(!e.rebuild && e.scan_finished);
}

#[test]
fn rescan_of_root_keeps_the_shown_directory() {
    let mut s = app("/data");
    s.current_dir_path = vec!["data".to_string(), "sub".to_string()];
    let snap = SnapshotBuilder::new("data").finish("/data".to_string(), 10, 10);
    let e = handle_message(&mut s, AppMessage::ScanComplete(snap));
    assert_eq!(s.current_dir_path, vec!["data".to_string(), "sub".to_string()]);
    assert!(e.rebuild);
}

#[test]
fn errors_and_daemon_messages_set_the_status() {
    let mut s = app("/data");
    let e = handle_message(&mut s, AppMessage::Error("disk gone".into()));
    assert!(!s.scanning);
    let st = s.status.as_ref().unwrap();
    assert_eq!((st.text.as_str(), st.is_error, st.secs), ("disk gone", true, 5));
    assert!(e.scan_aborted && e.log_status);
    let e = handle_message(&mut s, AppMessage::DaemonConnected);
    assert!(s.server_mode && s.server_connected);
    assert_eq!(s.window.preset, 0);
    assert_eq!(s.window.to - s.window.from, 3_600_000);
    let st = s.status.as_ref().unwrap();
    assert_eq!((st.text.as_str(), st.is_error, st.secs), ("connected to daemon", false, 2));
    assert!(e.keep_client && e.request_deltas);
    s.delta_filter_active = true;
    let e = handle_message(&mut s, AppMessage::DeltaData { deltas: vec![(vec!["a".to_string()], 5)], client_returned: true });
    assert_eq!(s.delta_cache.len(), 1);
    assert!(e.keep_client && e.reload_listing);
    let e = handle_message(&mut s, AppMessage::DaemonDisconnected);
    assert!(!s.server_mode && !s.server_connected && !s.delta_filter_active);
    assert!(s.delta_cache.is_empty());
    assert_eq!(s.status.as_ref().unwrap().text, "daemon disconnected");
    assert!(e.drop_client && e.refilter_listing);
    let e = handle_message(&mut s, AppMessage::Info("note".into()));
    let st = s.status.as_ref().unwrap();
    assert_eq!((st.text.as_str(), st.is_error, st.secs), ("note", true, 4));
    assert!(e.log_status);
    let e = handle_message(&mut s, AppMessage::DeltaDetailLoaded);
    assert!(e.show_detail);
}

#[test]
fn finished_deletions_report_and_count() {
    let mut s = app("/data");
    s.deleting = true;
    s.browse.mode = AppMode::Deleting;
    s.browse.multi_select = true;
    s.browse.selected_paths = vec![vec!["a".to_string()]];
    handle_message(&mut s, AppMessage::DeleteProgress { current: 1, total: 2 });
    assert_eq!(s.delete_progress, Some((1, 2)));
    let e = handle_message(&mut s, AppMessage::DeleteComplete { errors: vec![], paths: vec!["/data/a".into(), "/data/b".into()] });
    assert!(!s.deleting && s.delete_progress.is_none());
    assert_eq!(s.browse.mode, AppMode::Browsing);
    assert!(!s.browse.multi_select && s.browse.selected_paths.is_empty());
    let st = s.status.as_ref().unwrap();
    assert_eq!((st.text.as_str(), st.is_error, st.secs), ("deleted 2 item(s)", false, 3));
    assert!(e.reload_listing && !e.log_status);
    let e = handle_message(&mut s, AppMessage::DeleteComplete { errors: vec!["x: denied".into(), "y: busy".into()], paths: vec![] });
    let st = s.status.as_ref().unwrap();
    assert_eq!((st.text.as_str(), st.is_error, st.secs), ("2 delete(s) failed: x: denied; y: busy", true, 5));
    assert!(e.log_status);
    assert_eq!(s.deleted_bytes, 0);
}

#[test]
fn review_answers_are_listed_by_path() {
    let mut s = app("/data");
    let e = handle_message(&mut s, AppMessage::AiAnalysisComplete(vec![verdict("/b", 1)]));
    assert!(s.ai.is_none());
    assert!(e.reload_listing && !e.remember_verdicts);
    s.ai = Some(AiReviewState {
        results: Vec::new(),
        pending_paths: vec!["/b".into(), "/a".into()],
        pending_total_size: 3,
        cursor: 0,
        scroll_offset: 0,
        mark_for_delete: HashSet::new(),
        status: AiStatus::Loading,
        delete_confirm: None,
        info_item: None,
    });
    let e = handle_message(&mut s, AppMessage::AiAnalysisComplete(vec![verdict("/c", 1), verdict("/a", 2), verdict("/b", 3), verdict("/a", 4)]));
    let a = s.ai.as_ref().unwrap();
    let order: Vec<(&str, u64)> = a.results.iter().map(|v| (v.path.as_str(), v.size)).collect();
    assert_eq!(order, vec![("/a", 2), ("/a", 4), ("/b", 3), ("/c", 1)]);
    assert!(a.pending_paths.is_empty());
    assert!(matches!(a.status, AiStatus::Ready));
    assert!(e.remember_verdicts && e.reload_listing);
    handle_message(&mut s, AppMessage::AiAnalysisError("timeout".into()));
    let a = s.ai.as_ref().unwrap();
    assert!(a.results.is_empty());
    assert!(matches!(&a.status, AiStatus::Error(m) if m == "timeout"));
    let st = s.status.as_ref().unwrap();
    assert_eq!((st.text.as_str(), st.is_error, st.secs), ("AI analysis error: timeout", true, 10));
}

#[test]
fn popup_results_reach_open_popups() {
    let mut s = app("/data");
    handle_message(&mut s, AppMessage::CleanupScanComplete { items: vec![], total_bytes: 0 });
    assert!(s.cleanup.is_none() && !s.scanning);
    s.cleanup = Some(CleanupState::new(CleanupMode::Clean));
    handle_message(&mut s, AppMessage::CleanupScanProgress("/tmp/x".into()));
    assert_eq!(s.cleanup.as_ref().unwrap().scan_current_path.as_deref(), Some("/tmp/x"));
    let items = vec![
        CleanItem { path: "/s".into(), size: 10, risk: CleanRisk::Safe, target_id: "t".into() },
        CleanItem { path: "/l".into(), size: 2_000_000_000, risk: CleanRisk::Safe, target_id: "t".into() },
    ];
    handle_message(&mut s, AppMessage::CleanupScanComplete { items, total_bytes: 2_000_000_010 });
    let c = s.cleanup.as_ref().unwrap();
    assert!(!c.scanning);
    assert_eq!(c.items[0].path, "/l");
    assert!(c.selected.contains(&0) && !c.selected.contains(&1));
    assert_eq!(c.total_bytes, 2_000_000_010);
    handle_message(&mut s, AppMessage::CleanupDetailReady(vec![("f".into(), 1)]));
    assert_eq!(s.cleanup.as_ref().unwrap().detail_items.as_ref().unwrap().len(), 1);
    let report = CleanReport { total_attempted: 1, total_succeeded: 1, total_failed: 0, freed_bytes: 10, errors: vec![] };
    handle_message(&mut s, AppMessage::CleanupExecComplete(report));
    assert_eq!(s.cleanup.as_ref().unwrap().report.as_ref().unwrap().freed_bytes, 10);
    s.uninstall = Some(UninstallState::new());
    s.scanning = true;
    handle_message(&mut s, AppMessage::AppListReady(vec![]));
    assert!(!s.scanning);
    assert!(s.uninstall.as_ref().unwrap().filtered.is_empty());
    handle_message(&mut s, AppMessage::UninstallScanProgress("/Applications/X.app".into()));
    assert_eq!(s.uninstall.as_ref().unwrap().scan_current_path.as_deref(), Some("/Applications/X.app"));
    let report = CleanReport { total_attempted: 2, total_succeeded: 2, total_failed: 0, freed_bytes: 7, errors: vec![] };
    handle_message(&mut s, AppMessage::UninstallComplete(report));
    let u = s.uninstall.as_ref().unwrap();
    assert!(!u.confirm_pending);
    assert_eq!(u.report.as_ref().unwrap().freed_bytes, 7);
}
