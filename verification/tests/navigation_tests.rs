use argus::navigation::{
    apply_search, cycle_match, handle_gg_double_tap, is_inherited_selection, move_cursor, selected_paths_full,
    toggle_selection, NavHistory,
};
use argus::paths::expand_tilde;
use argus::ui::NavPosition;

fn place(dir: &str, cursor: usize) -> NavPosition {
    NavPosition {
        current_dir_path: vec!["root".to_string(), dir.to_string()],
        view_root_path: "/root".to_string(),
        cursor,
        scroll_offset: 0,
    }
}

fn strings(v: &[&str]) -> Vec<String> {
    v.iter().map(|s| s.to_string()).collect()
}

#[test]
fn history_back_and_forward() {
    let mut h = NavHistory::new();
    assert!(h.nav_back().is_none());
    h.push_nav_history(place("a", 1));
    h.push_nav_history(place("b", 2));
    h.push_nav_history(place("c", 3));
    assert_eq!(h.idx, 2);
    let back = h.nav_back().unwrap();
    assert_eq!(back.current_dir_path[1], "b");
    assert_eq!(back.cursor, 2);
    let back = h.nav_back().unwrap();
    assert_eq!(back.current_dir_path[1], "a");
    assert!(h.nav_back().is_none());
    let fwd = h.nav_forward().unwrap();
    assert_eq!(fwd.current_dir_path[1], "b");
    // a new place drops the places ahead
    h.push_nav_history(place("d", 4));
    assert_eq!(h.entries.len(), 3);
    assert_eq!(h.entries[2].current_dir_path[1], "d");
    assert!(h.nav_forward().is_none());
    let back = h.nav_back().unwrap();
    assert_eq!(back.current_dir_path[1], "b");
}

#[test]
fn cursor_stays_on_rows() {
    assert_eq!(move_cursor(3, 1, 10), 4);
    assert_eq!(move_cursor(3, -5, 10), 0);
    assert_eq!(move_cursor(8, 5, 10), 9);
    assert_eq!(move_cursor(7, 1, 0), 7);
    assert_eq!(move_cursor(0, 0, 1), 0);
}

#[test]
fn double_g_jumps_to_top() {
    let mut cursor = 5;
    let mut pending = false;
    handle_gg_double_tap(&mut cursor, &mut pending);
    assert_eq!((cursor, pending), (5, true));
    handle_gg_double_tap(&mut cursor, &mut pending);
    assert_eq!((cursor, pending), (0, false));
}

#[test]
fn cycling_through_matches() {
    let matches = vec![1, 4, 7];
    assert_eq!(cycle_match(&matches, 4, true), 7);
    assert_eq!(cycle_match(&matches, 7, true), 1);
    assert_eq!(cycle_match(&matches, 1, false), 7);
    assert_eq!(cycle_match(&matches, 4, false), 1);
    assert_eq!(cycle_match(&matches, 2, true), 1);
    assert_eq!(cycle_match(&matches, 2, false), 7);
    assert_eq!(cycle_match(&[], 3, true), 3);
}

#[test]
fn search_finds_matching_rows() {
    let names = strings(&["src", "target", "README.md", "tests"]);
    let mut cursor = 0;
    let rows = apply_search("t", &names, &mut cursor);
    assert_eq!(rows, vec![1, 3]);
    assert_eq!(cursor, 1);
    let mut cursor = 2;
    let rows = apply_search("zzz", &names, &mut cursor);
    assert!(rows.is_empty());
    assert_eq!(cursor, 2);
    let rows = apply_search("", &names, &mut cursor);
    assert!(rows.is_empty());
}

#[test]
fn selection_toggles_and_inherits() {
    let mut selected: Vec<Vec<String>> = Vec::new();
    toggle_selection(&mut selected, &strings(&["root", "a"]));
    assert_eq!(selected, vec![strings(&["root", "a"])]);
    assert!(is_inherited_selection(&selected, &strings(&["root", "a", "b"])));
    assert!(!is_inherited_selection(&selected, &strings(&["root", "a"])));
    assert!(!is_inherited_selection(&selected, &strings(&["root", "ab"])));
    // a path below a selected directory cannot be toggled on its own
    toggle_selection(&mut selected, &strings(&["root", "a", "b"]));
    assert_eq!(selected.len(), 1);
    toggle_selection(&mut selected, &strings(&["root", "c"]));
    assert_eq!(selected.len(), 2);
    toggle_selection(&mut selected, &strings(&["root", "a"]));
    assert_eq!(selected, vec![strings(&["root", "c"])]);
}

#[test]
fn selected_paths_are_joined_onto_the_root() {
    let selected = vec![strings(&["root", "a", "b"]), strings(&["root"])];
    let full = selected_paths_full("/work/root", &selected);
    assert_eq!(full, vec!["/work/root/a/b".to_string(), "/work/root".to_string()]);
}

#[test]
fn tilde_expands_to_home() {
    assert_eq!(expand_tilde("~", Some("/home/u")), "/home/u");
    assert_eq!(expand_tilde("~/docs", Some("/home/u")), "/home/u/docs");
    assert_eq!(expand_tilde("~docs", Some("/home/u")), "~docs");
    assert_eq!(expand_tilde("/tmp", Some("/home/u")), "/tmp");
    assert_eq!(expand_tilde("~/docs", None), "~/docs");
}

use argus::navigation::{SearchKey, SearchState};
use argus::ui::SearchMode;

fn search(mode: SearchMode, word: &str) -> SearchState {
    SearchState { search_word: word.to_string(), search_mode: mode, search_match_indices: Vec::new(), cursor: 0 }
}

#[test]
fn test_search_keys_input_char() {
    let mut app = search(SearchMode::Input, "");
    let names = vec!["tmp".to_string()];
    let consumed = app.handle_search_keys(SearchKey::Char('f'), &names).consumed;
    assert!(consumed);
    assert_eq!(app.search_word, "f");
}

#[test]
fn test_search_keys_input_backspace() {
    let mut app = search(SearchMode::Input, "fo");
    let names = vec!["tmp".to_string()];
    let consumed = app.handle_search_keys(SearchKey::Backspace, &names).consumed;
    assert!(consumed);
    assert_eq!(app.search_word, "f");
}

#[test]
fn test_search_keys_input_enter_empty_goes_inactive() {
    let mut app = search(SearchMode::Input, "");
    let names = vec!["tmp".to_string()];
    let consumed = app.handle_search_keys(SearchKey::Enter, &names).consumed;
    assert!(consumed);
    assert_eq!(app.search_mode, SearchMode::Inactive);
}

#[test]
fn test_search_keys_input_enter_with_word_goes_active() {
    let mut app = search(SearchMode::Input, "foo");
    let names = vec!["tmp".to_string()];
    let consumed = app.handle_search_keys(SearchKey::Enter, &names).consumed;
    assert!(consumed);
    assert_eq!(app.search_mode, SearchMode::Active);
}

#[test]
fn test_search_keys_input_esc_clears_and_goes_inactive() {
    let mut app = search(SearchMode::Input, "foo");
    let consumed = app.handle_search_keys(SearchKey::Esc, &[]).consumed;
    assert!(consumed);
    assert!(app.search_word.is_empty());
    assert_eq!(app.search_mode, SearchMode::Inactive);
}

#[test]
fn test_search_keys_active_esc_returns_inactive() {
    let mut app = search(SearchMode::Active, "target");
    let consumed = app.handle_search_keys(SearchKey::Esc, &[]).consumed;
    assert!(consumed);
    assert!(app.search_word.is_empty());
    assert_eq!(app.search_mode, SearchMode::Inactive);
}

#[test]
fn test_search_keys_inactive_returns_false() {
    let mut app = search(SearchMode::Inactive, "");
    let consumed = app.handle_search_keys(SearchKey::Char('n'), &[]).consumed;
    assert!(!consumed);
}

#[test]
fn search_keys_find_and_cycle_matches() {
    let names = strings(&["alpha", "beta", "alphabet", "gamma"]);
    let mut app = search(SearchMode::Input, "");
    app.cursor = 3;
    app.handle_search_keys(SearchKey::Char('a'), &names);
    app.handle_search_keys(SearchKey::Char('l'), &names);
    assert_eq!(app.search_match_indices, vec![0, 2]);
    assert_eq!(app.cursor, 0);
    app.handle_search_keys(SearchKey::Enter, &names);
    assert_eq!(app.search_mode, SearchMode::Active);
    let r = app.handle_search_keys(SearchKey::Char('n'), &names);
    assert!(!r.consumed);
    assert_eq!(app.cursor, 2);
    app.handle_search_keys(SearchKey::Char('n'), &names);
    assert_eq!(app.cursor, 0);
    app.handle_search_keys(SearchKey::Char('N'), &names);
    assert_eq!(app.cursor, 2);
    app.handle_search_keys(SearchKey::Char('/'), &names);
    assert_eq!(app.search_mode, SearchMode::Input);
    assert!(app.search_word.is_empty());
}

use argus::navigation::{handle_help_key, handle_time_help_key, PopupKey};
use argus::ui::AppMode;

#[test]
fn test_help_key_esc_returns_to_browsing() {
    let mut mode = AppMode::Help;
    handle_help_key(PopupKey::Esc, &mut mode);
    assert_eq!(mode, AppMode::Browsing);
    mode = AppMode::Help;
    handle_help_key(PopupKey::Char('?'), &mut mode);
    assert_eq!(mode, AppMode::Browsing);
}

#[test]
fn test_help_key_other_keys_ignored() {
    let mut mode = AppMode::Help;
    handle_help_key(PopupKey::Char('x'), &mut mode);
    assert_eq!(mode, AppMode::Help);
}

#[test]
fn test_time_help_key_esc_returns_to_browsing() {
    let mut mode = AppMode::TimeHelp;
    let mut scroll = 5;
    handle_time_help_key(PopupKey::Esc, &mut mode, &mut scroll);
    assert_eq!(mode, AppMode::Browsing);
    assert_eq!(scroll, 0);
}

#[test]
fn test_time_help_key_scroll_down() {
    let mut mode = AppMode::TimeHelp;
    let mut scroll = 0;
    handle_time_help_key(PopupKey::Char('j'), &mut mode, &mut scroll);
    assert_eq!(scroll, 1);
}

#[test]
fn test_time_help_key_scroll_up() {
    let mut mode = AppMode::TimeHelp;
    let mut scroll = 5;
    handle_time_help_key(PopupKey::Char('k'), &mut mode, &mut scroll);
    assert_eq!(scroll, 4);
}

#[test]
fn test_time_help_key_scroll_up_stays_non_negative() {
    let mut mode = AppMode::TimeHelp;
    let mut scroll = 0;
    handle_time_help_key(PopupKey::Char('k'), &mut mode, &mut scroll);
    assert_eq!(scroll, 0);
}

#[test]
fn test_move_cursor_basic_down() {
    let filtered = vec![0, 1, 2];
    let mut cursor = 0;
    cursor = move_cursor(cursor, 1, filtered.len());
    assert_eq!(cursor, 1);
    cursor = move_cursor(cursor, 1, filtered.len());
    assert_eq!(cursor, 2);
}

#[test]
fn test_move_cursor_basic_up() {
    let filtered = vec![0, 1, 2];
    let mut cursor = 2;
    cursor = move_cursor(cursor, -1, filtered.len());
    assert_eq!(cursor, 1);
    cursor = move_cursor(cursor, -1, filtered.len());
    assert_eq!(cursor, 0);
}

#[test]
fn test_move_cursor_bounds_top() {
    let filtered = vec![0, 1, 2];
    assert_eq!(move_cursor(0, -1, filtered.len()), 0);
}

#[test]
fn test_move_cursor_bounds_bottom() {
    let filtered = vec![0, 1, 2];
    assert_eq!(move_cursor(2, 1, filtered.len()), 2);
}

#[test]
fn test_move_cursor_empty() {
    let filtered: Vec<usize> = vec![];
    assert_eq!(move_cursor(0, 1, filtered.len()), 0);
}

#[test]
fn test_gg_double_tap_first_sets_pending() {
    let mut pending_gg = false;
    let mut cursor = 5;
    handle_gg_double_tap(&mut cursor, &mut pending_gg);
    assert!(pending_gg);
    assert_eq!(cursor, 5);
}

#[test]
fn test_gg_double_tap_second_jumps_to_top() {
    let mut pending_gg = true;
    let mut cursor = 5;
    handle_gg_double_tap(&mut cursor, &mut pending_gg);
    assert!(!pending_gg);
    assert_eq!(cursor, 0);
}
