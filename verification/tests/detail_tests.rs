use argus::detail::build_detail_state;
use argus::format::format_delta;
use argus::ui::DeltaEntry;

fn change(path: &str, delta: i64, ts: u64) -> DeltaEntry {
    DeltaEntry { path: path.to_string(), delta_size: delta, event_type: "modify".to_string(), timestamp: ts, is_agg: false }
}

#[test]
fn detail_rows_group_deeper_changes_by_child() {
    let entries = vec![
        change("/r/a", 10, 1_700_000_000_000),
        change("/r/b/x", 5, 1_700_000_100_000),
        change("/r/b/y", -2, 1_700_000_200_000),
        change("/r/c", -3, 1_600_000_000_000),
        change("/other/z", 7, 1_700_000_300_000),
        change("/r", 9, 1_700_000_400_000),
    ];
    let state = build_detail_state("/r", &entries);
    assert_eq!(state.path, "/r");
    assert_eq!(state.scroll, 0);
    let rows: Vec<(String, i64, bool)> =
        state.entries.iter().map(|r| (r.child_name.clone(), r.delta_size, r.is_aggregated)).collect();
    assert_eq!(
        rows,
        vec![("b".to_string(), 3, true), ("a".to_string(), 10, false), ("c".to_string(), -3, false)]
    );
    for r in &state.entries {
        assert_eq!(r.delta_display, format_delta(r.delta_size));
        assert_eq!(r.timestamp.len(), 19);
    }
}

#[test]
fn detail_rows_for_nothing_below() {
    let entries = vec![change("/elsewhere/a", 1, 1_000)];
    let state = build_detail_state("/r", &entries);
    assert!(state.entries.is_empty());
}

#[test]
fn detail_rows_tie_on_time_go_by_name() {
    let entries = vec![change("/r/zeta", 1, 1_650_000_000_000), change("/r/alpha", 2, 1_650_000_000_000)];
    let state = build_detail_state("/r", &entries);
    let names: Vec<&str> = state.entries.iter().map(|r| r.child_name.as_str()).collect();
    assert_eq!(names, vec!["alpha", "zeta"]);
}
