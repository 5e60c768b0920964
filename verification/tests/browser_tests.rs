use argus::config::{TuiConfig, DEFAULT_UDS_PATH};
use argus::format::{display_size_label, format_count, format_delta, format_size};
use argus::search::{fuzzy_match, fuzzy_match_indices};
use argus::ui::{delta_unit_multiplier, SortMode};

#[test]
fn test_delta_unit_multiplier_values() {
    assert_eq!(delta_unit_multiplier(0), 1024);
    assert_eq!(delta_unit_multiplier(1), 1024 * 1024);
    assert_eq!(delta_unit_multiplier(2), 1024 * 1024 * 1024);
    assert_eq!(delta_unit_multiplier(3), 1);
}

#[test]
fn test_sort_mode_toggle() {
    assert_eq!(SortMode::Name.toggle(), SortMode::Size);
    assert_eq!(SortMode::Size.toggle(), SortMode::Delta);
    assert_eq!(SortMode::Delta.toggle(), SortMode::Name);
}

#[test]
fn test_sort_mode_label() {
    assert_eq!(SortMode::Name.label(), "Name");
    assert_eq!(SortMode::Size.label(), "Size");
    assert_eq!(SortMode::Delta.label(), "Delta");
}

#[test]
fn test_default_config() {
    let config = TuiConfig::default();
    assert_eq!(config.keybindings.move_up, "k");
    assert_eq!(config.keybindings.move_down, "j");
    assert_eq!(config.keybindings.enter_dir, "l");
    assert_eq!(config.keybindings.leave_dir, "h");
    assert_eq!(config.keybindings.quit, "q");
    assert_eq!(config.keybindings.help, "?");
    assert_eq!(config.theme.color_scheme, "system");
    assert!(config.theme.color("growth_high").is_some());
    assert!(config.theme.color("text_primary").is_some());
    assert!(!config.browsing.auto_scan_on_start);
    assert_eq!(config.daemon.uds_path, DEFAULT_UDS_PATH);
    assert_eq!(config.ai.language, "en-US");
}

#[test]
fn test_default_config_labels_empty() {
    let config = TuiConfig::default();
    assert!(config.labels.custom_mappings.is_empty());
}

#[test]
fn test_default_ai_language() {
    let config = TuiConfig::default();
    assert_eq!(config.ai.language, "en-US");
}

#[test]
fn test_fuzzy_match_indices_basic() {
    let result = fuzzy_match_indices("foo", "foobar");
    assert_eq!(result, Some(vec![0, 1, 2]));
}

#[test]
fn test_fuzzy_match_indices_case_insensitive() {
    let result = fuzzy_match_indices("FOO", "foobar");
    assert_eq!(result, Some(vec![0, 1, 2]));
}

#[test]
fn test_fuzzy_match_indices_no_match() {
    assert!(fuzzy_match_indices("xyz", "foobar").is_none());
}

#[test]
fn test_fuzzy_match_indices_empty_query() {
    assert!(fuzzy_match_indices("", "foobar").is_none());
}

#[test]
fn test_fuzzy_match_indices_query_longer_than_target() {
    assert!(fuzzy_match_indices("foobar", "foo").is_none());
}

#[test]
fn test_fuzzy_match_basic() {
    assert!(fuzzy_match("sc", "scan"));
}

#[test]
fn test_fuzzy_match_no_match() {
    assert!(!fuzzy_match("xyz", "scan"));
}

#[test]
fn test_fuzzy_match_exact() {
    assert!(fuzzy_match("Scan", "Scan"));
}

#[test]
fn test_display_size_label_file_shows_real_size() {
    assert_eq!(display_size_label(false, false, 1024), "    1.00 KB");
}

#[test]
fn test_display_size_label_unscanned_dir_shows_dash() {
    assert_eq!(display_size_label(true, false, 0), "          ?");
}

#[test]
fn test_display_size_label_scanned_dir_shows_size() {
    assert_eq!(display_size_label(true, true, 2048), "    2.00 KB");
}

#[test]
fn test_format_count_inserts_commas() {
    assert_eq!(format_count(123456), "123,456");
}

#[test]
fn test_format_size() {
    assert_eq!(format_size(500), "500 B");
    assert_eq!(format_size(1024), "1.00 KB");
    assert_eq!(format_size(1_048_576), "1.00 MB");
    assert_eq!(format_size(1_073_741_824), "1.00 GB");
}

#[test]
fn test_format_delta() {
    assert_eq!(format_delta(100), "+100 B");
    assert_eq!(format_delta(-100), "-100 B");
    assert_eq!(format_delta(0), "+0 B");
}
