use argus::delta_cache::build_delta_cache;
use argus::display::{
    branch_marker, cjk_width, cycle_filter_focus, line_indent, text_lines, truncate_path, truncate_str,
    unix_mode_string, FilterFocus,
};
use argus::ui::DeltaEntry;

fn entry(path: &str, delta: i64) -> DeltaEntry {
    DeltaEntry {
        path: path.to_string(),
        delta_size: delta,
        event_type: "modify".to_string(),
        timestamp: 1000,
        is_agg: false,
    }
}

fn lookup(cache: &[(Vec<String>, i64)], key: &[&str]) -> Option<i64> {
    cache
        .iter()
        .find(|(k, _)| k.len() == key.len() && k.iter().zip(key.iter()).all(|(a, b)| a == b))
        .map(|(_, v)| *v)
}

#[test]
fn delta_cache_sums_each_ancestor() {
    let entries = vec![
        entry("/home/u/argus/target/debug/deps/liba.rlib", 111),
        entry("/home/u/argus/target/debug/deps/libb.rlib", 222),
        entry("/home/u/argus/target/debug/incremental/cache.bin", 333),
        entry("/home/u/argus/target/debug/build/argusd", 444),
        entry("/home/u/argus/target/release/ignored.bin", -1),
        entry("/other/place/file", 5),
    ];
    let cache = build_delta_cache("/home/u/argus", &entries);
    let debug = lookup(&cache, &["argus", "target", "debug"]).unwrap();
    let deps = lookup(&cache, &["argus", "target", "debug", "deps"]).unwrap();
    let incremental = lookup(&cache, &["argus", "target", "debug", "incremental"]).unwrap();
    let build = lookup(&cache, &["argus", "target", "debug", "build"]).unwrap();
    assert_eq!(deps, 333);
    assert_eq!(incremental, 333);
    assert_eq!(build, 444);
    assert_eq!(debug, deps + incremental + build);
    assert_eq!(lookup(&cache, &["argus", "target"]), Some(1109));
    assert_eq!(lookup(&cache, &["argus"]), Some(1109));
    assert_eq!(lookup(&cache, &["argus", "target", "debug", "deps", "liba.rlib"]), Some(111));
    assert_eq!(lookup(&cache, &["other"]), None);
    assert_eq!(lookup(&cache, &["place"]), None);
}

#[test]
fn delta_cache_merges_repeated_paths_and_ignores_outside() {
    let entries = vec![
        entry("/r/a/x", 10),
        entry("/r/a/x", -4),
        entry("/ra/b", 7),
        entry("r/a/x", 100),
    ];
    let cache = build_delta_cache("/r", &entries);
    assert_eq!(lookup(&cache, &["r", "a", "x"]), Some(6));
    assert_eq!(lookup(&cache, &["r", "a"]), Some(6));
    assert_eq!(lookup(&cache, &["r"]), Some(6));
    assert_eq!(cache.len(), 3);
}

#[test]
fn delta_cache_of_nothing_is_empty() {
    let cache = build_delta_cache("/r", &[]);
    assert!(cache.is_empty());
}

#[test]
fn cjk_characters_are_two_columns_wide() {
    assert_eq!(cjk_width('a'), 1);
    assert_eq!(cjk_width('中'), 2);
    assert_eq!(cjk_width('\u{FF21}'), 2);
    assert_eq!(cjk_width('\u{2E7F}'), 1);
}

#[test]
fn text_lines_wraps_at_width() {
    assert_eq!(text_lines("", 10), 1);
    assert_eq!(text_lines("abcdef", 4), 2);
    assert_eq!(text_lines("abcd", 4), 1);
    assert_eq!(text_lines("中中中", 4), 2);
    assert_eq!(text_lines("a中中", 4), 2);
}

#[test]
fn text_lines_for_tiny_width_counts_bytes() {
    assert_eq!(text_lines("hello", 1), 5);
    assert_eq!(text_lines("", 0), 1);
    assert_eq!(text_lines("中", 1), 3);
}

#[test]
fn unix_mode_string_shows_permission_bits() {
    assert_eq!(unix_mode_string(0o700), "rwx------");
    assert_eq!(unix_mode_string(0), "---------");
    assert_eq!(unix_mode_string(0o755), "rwxrwxr-x");
    assert_eq!(unix_mode_string(0o644), "rw-rw-r--");
    assert_eq!(unix_mode_string(0o007), "------rwx");
}

#[test]
fn line_indent_is_two_spaces_per_level() {
    assert_eq!(line_indent(0), "");
    assert_eq!(line_indent(1), "  ");
    assert_eq!(line_indent(3), "      ");
}

#[test]
fn branch_marker_shows_directory_state() {
    assert_eq!(branch_marker(true, true), "- ");
    assert_eq!(branch_marker(true, false), "+ ");
    assert_eq!(branch_marker(false, true), "  ");
}

#[test]
fn truncate_path_keeps_both_ends() {
    assert_eq!(truncate_path("abcdefghij", 8), "abc...ij");
    assert_eq!(truncate_path("short", 10), "short");
    assert_eq!(truncate_path("abcdefghij", 4), "abcdefghij");
    assert_eq!(truncate_path("/a/very/long/path/name", 11), "/a/v...name");
}

#[test]
fn truncate_str_adds_ellipsis() {
    assert_eq!(truncate_str("hello world", 8), "hello...");
    assert_eq!(truncate_str("hello", 3), "hel");
    assert_eq!(truncate_str("hi", 10), "hi");
    assert_eq!(truncate_str("hi", 0), "");
}

#[test]
fn filter_focus_cycles_through_fields() {
    assert_eq!(cycle_filter_focus(FilterFocus::TimePreset, false, true), FilterFocus::DeltaValue);
    assert_eq!(cycle_filter_focus(FilterFocus::DeltaValue, false, true), FilterFocus::DeltaUnit);
    assert_eq!(cycle_filter_focus(FilterFocus::DeltaUnit, false, true), FilterFocus::TimePreset);
    assert_eq!(cycle_filter_focus(FilterFocus::TimePreset, false, false), FilterFocus::DeltaUnit);
    assert_eq!(cycle_filter_focus(FilterFocus::DeltaValue, true, true), FilterFocus::DeltaUnit);
    assert_eq!(cycle_filter_focus(FilterFocus::DeltaUnit, true, false), FilterFocus::DeltaValue);
    assert_eq!(cycle_filter_focus(FilterFocus::TimePreset, true, true), FilterFocus::DeltaValue);
}

#[test]
fn filter_focus_forward_then_back_returns() {
    for f in [FilterFocus::TimePreset, FilterFocus::DeltaValue, FilterFocus::DeltaUnit] {
        let there = cycle_filter_focus(f, false, true);
        assert_eq!(cycle_filter_focus(there, false, false), f);
    }
}
