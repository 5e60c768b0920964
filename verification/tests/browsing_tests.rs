use argus::browsing::{BrowseAction, BrowseKey, BrowseState, BrowseView};
use argus::display::FilterFocus;
use argus::ui::{AppMode, SearchMode, SortMode};

fn view() -> BrowseView {
    BrowseView {
        flat: true,
        rows: 3,
        tree_lines: 3,
        scanning: false,
        server_mode: false,
        detail_rows: None,
        detail_overflows: false,
        info_open: false,
    }
}

fn press(s: &mut BrowseState, v: BrowseView, key: BrowseKey) -> BrowseAction {
    let names: Vec<String> = vec!["src".into(), "docs".into(), "readme.md".into()];
    let path = vec!["test".to_string(), names[s.search.cursor.min(2)].clone()];
    s.handle_browsing_key(v, key, Some(&path), &names)
}

#[test]
fn test_browsing_key_quit() {
    let mut app = BrowseState::new();
    app.mode = AppMode::Browsing;
    press(&mut app, view(), BrowseKey::Char('q'));
    assert!(app.should_quit);
}

#[test]
fn test_browsing_key_ctrl_c() {
    let mut app = BrowseState::new();
    app.mode = AppMode::Browsing;
    press(&mut app, view(), BrowseKey::CtrlC);
    assert!(app.should_quit);
}

#[test]
fn test_browsing_key_enter_command_mode() {
    let mut app = BrowseState::new();
    app.mode = AppMode::Browsing;
    let r = press(&mut app, view(), BrowseKey::Char(':'));
    assert_eq!(app.mode, AppMode::Command);
    assert_eq!(r, BrowseAction::OpenCommandLine);
}

#[test]
fn test_browsing_key_help() {
    let mut app = BrowseState::new();
    app.mode = AppMode::Browsing;
    press(&mut app, view(), BrowseKey::Char('?'));
    assert_eq!(app.mode, AppMode::Help);
}

#[test]
fn test_browsing_key_cancel_scan() {
    let mut app = BrowseState::new();
    app.mode = AppMode::Browsing;
    let mut v = view();
    v.scanning = true;
    let r = press(&mut app, v, BrowseKey::Esc);
    assert_eq!(r, BrowseAction::CancelScan);
}

#[test]
fn test_browsing_key_gg_double_tap_pending_cleared_on_other_key() {
    let mut app = BrowseState::new();
    app.mode = AppMode::Browsing;
    app.pending_gg = true;
    press(&mut app, view(), BrowseKey::Char('j'));
    assert!(!app.pending_gg);
}

#[test]
fn browsing_q_closes_info_popup_first() {
    let mut app = BrowseState::new();
    let mut v = view();
    v.info_open = true;
    let r = press(&mut app, v, BrowseKey::Char('q'));
    assert_eq!(r, BrowseAction::CloseInfo);
    assert!(!app.should_quit);
}

#[test]
fn browsing_gg_jumps_to_top_and_g_keeps_pending() {
    let mut app = BrowseState::new();
    app.search.cursor = 2;
    press(&mut app, view(), BrowseKey::Char('g'));
    assert!(app.pending_gg);
    assert_eq!(app.search.cursor, 2);
    press(&mut app, view(), BrowseKey::Char('g'));
    assert!(!app.pending_gg);
    assert_eq!(app.search.cursor, 0);
    press(&mut app, view(), BrowseKey::Char('G'));
    assert_eq!(app.search.cursor, 2);
}

#[test]
fn browsing_moves_stay_in_rows() {
    let mut app = BrowseState::new();
    press(&mut app, view(), BrowseKey::Up);
    assert_eq!(app.search.cursor, 0);
    press(&mut app, view(), BrowseKey::Down);
    press(&mut app, view(), BrowseKey::Char('j'));
    press(&mut app, view(), BrowseKey::Char('j'));
    assert_eq!(app.search.cursor, 2);
}

#[test]
fn browsing_directory_keys_depend_on_flat_listing() {
    let mut app = BrowseState::new();
    assert_eq!(press(&mut app, view(), BrowseKey::Char('l')), BrowseAction::EnterDirectory);
    assert_eq!(press(&mut app, view(), BrowseKey::Left), BrowseAction::GoToParent);
    assert_eq!(press(&mut app, view(), BrowseKey::Char('H')), BrowseAction::GoToRoot);
    let mut v = view();
    v.flat = false;
    assert_eq!(press(&mut app, v, BrowseKey::Right), BrowseAction::ExpandNode);
    assert_eq!(press(&mut app, v, BrowseKey::Char('h')), BrowseAction::CollapseOrUp);
    assert_eq!(press(&mut app, v, BrowseKey::Char('H')), BrowseAction::CollapseAll);
    assert_eq!(press(&mut app, v, BrowseKey::Char('u')), BrowseAction::NavigateUpRoot);
    assert_eq!(press(&mut app, v, BrowseKey::Char('w')), BrowseAction::SetRootToSelected);
}

#[test]
fn browsing_tab_starts_multi_select_and_toggles() {
    let mut app = BrowseState::new();
    press(&mut app, view(), BrowseKey::Tab);
    assert!(app.multi_select);
    assert_eq!(app.selected_paths, vec![vec!["test".to_string(), "src".to_string()]]);
    assert_eq!(app.search.cursor, 1);
    assert_eq!(press(&mut app, view(), BrowseKey::Char('D')), BrowseAction::MultiDelete(true));
    press(&mut app, view(), BrowseKey::Esc);
    assert!(!app.multi_select);
    assert!(app.selected_paths.is_empty());
}

#[test]
fn browsing_tab_without_tree_lines_does_nothing() {
    let mut app = BrowseState::new();
    let mut v = view();
    v.tree_lines = 0;
    press(&mut app, v, BrowseKey::Tab);
    assert!(!app.multi_select);
    assert_eq!(app.search.cursor, 0);
}

#[test]
fn browsing_sort_key_cycles_and_leaves_multi_select() {
    let mut app = BrowseState::new();
    press(&mut app, view(), BrowseKey::Tab);
    let r = press(&mut app, view(), BrowseKey::Char('o'));
    assert_eq!(r, BrowseAction::Resort);
    assert_eq!(app.sort_mode, SortMode::Delta);
    assert!(!app.multi_select);
    assert!(app.selected_paths.is_empty());
}

#[test]
fn browsing_slash_starts_search_and_search_takes_keys() {
    let mut app = BrowseState::new();
    press(&mut app, view(), BrowseKey::Char('/'));
    assert_eq!(app.search.search_mode, SearchMode::Input);
    let r = press(&mut app, view(), BrowseKey::Char('q'));
    assert_eq!(r, BrowseAction::Searched(true));
    assert!(!app.should_quit);
    assert_eq!(app.search.search_word, "q");
}

#[test]
fn browsing_filter_key_needs_server_and_focuses_pane() {
    let mut app = BrowseState::new();
    press(&mut app, view(), BrowseKey::Char('f'));
    assert!(!app.filter_pane);
    let mut v = view();
    v.server_mode = true;
    press(&mut app, v, BrowseKey::Char('f'));
    assert!(app.filter_pane);
    assert_eq!(app.filter_focus, FilterFocus::TimePreset);
    assert_eq!(press(&mut app, v, BrowseKey::Char('j')), BrowseAction::FilterPaneKey);
}

#[test]
fn browsing_detail_popup_scrolls_and_closes() {
    let mut app = BrowseState::new();
    let mut v = view();
    v.detail_rows = Some(2);
    v.detail_overflows = true;
    press(&mut app, v, BrowseKey::Down);
    press(&mut app, v, BrowseKey::Down);
    assert_eq!(app.detail_scroll, 1);
    press(&mut app, v, BrowseKey::Up);
    press(&mut app, v, BrowseKey::Up);
    assert_eq!(app.detail_scroll, 0);
    assert_eq!(press(&mut app, v, BrowseKey::Char('q')), BrowseAction::CloseDetail);
    assert!(!app.should_quit);
}

#[test]
fn browsing_hidden_toggle_and_clear_filter() {
    let mut app = BrowseState::new();
    assert_eq!(press(&mut app, view(), BrowseKey::Char('.')), BrowseAction::HiddenToggled);
    assert!(app.show_hidden);
    assert_eq!(press(&mut app, view(), BrowseKey::Char('c')), BrowseAction::ClearFilterPane);
    assert_eq!(press(&mut app, view(), BrowseKey::Char('R')), BrowseAction::Reconnect);
    let mut v = view();
    v.server_mode = true;
    assert_eq!(press(&mut app, v, BrowseKey::Char('t')), BrowseAction::TimeToggle);
}
