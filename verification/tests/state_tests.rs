use argus::browser_state::{commands, time_preset_label, CommandLine, DeltaFilter, TimeWindow};

#[test]
fn test_delta_filter_inc_basic() {
    let mut f = DeltaFilter::new();
    f.value = 5;
    f.inc();
    assert_eq!(f.value, 6);
}

#[test]
fn test_delta_filter_inc_unit_level_up() {
    let mut f = DeltaFilter::new();
    f.value = 1024;
    f.unit = 0;
    f.inc();
    assert_eq!(f.value, 1);
    assert_eq!(f.unit, 1);
}

#[test]
fn test_delta_filter_inc_unit_level_up_max_unit() {
    let mut f = DeltaFilter::new();
    f.value = 1024;
    f.unit = 2;
    f.inc();
    assert_eq!(f.value, 1025);
    assert_eq!(f.unit, 2);
}

#[test]
fn test_delta_filter_dec_basic() {
    let mut f = DeltaFilter::new();
    f.value = 5;
    f.dec();
    assert_eq!(f.value, 4);
}

#[test]
fn test_delta_filter_dec_min_zero() {
    let mut f = DeltaFilter::new();
    f.value = 0;
    f.dec();
    assert_eq!(f.value, 0);
}

#[test]
fn test_delta_filter_cycle_unit() {
    let mut f = DeltaFilter::new();
    assert_eq!(f.unit, 1);
    f.cycle_unit();
    assert_eq!(f.unit, 2);
    f.cycle_unit();
    assert_eq!(f.unit, 0);
    f.cycle_unit();
    assert_eq!(f.unit, 1);
}

#[test]
fn test_delta_filter_inc_unit_level_up_stays_at_gb() {
    let mut f = DeltaFilter::new();
    f.value = 1024;
    f.unit = 2;
    f.inc();
    assert_eq!(f.value, 1025);
    assert_eq!(f.unit, 2);
}

#[test]
fn test_push_command_history_empty() {
    let mut c = CommandLine::new();
    c.push_command_history("");
    assert!(c.history.is_empty());
}

#[test]
fn test_push_command_history_trimmed() {
    let mut c = CommandLine::new();
    c.push_command_history("  scan  ");
    assert_eq!(c.history, vec!["scan"]);
}

#[test]
fn test_push_command_history_dedup() {
    let mut c = CommandLine::new();
    c.push_command_history("scan");
    c.push_command_history("scan");
    assert_eq!(c.history.len(), 1);
}

#[test]
fn test_push_command_history_cap() {
    let mut c = CommandLine::new();
    for i in 0..60 {
        c.push_command_history(&format!("cmd{i}"));
    }
    assert_eq!(c.history.len(), 50);
    assert_eq!(c.history[0], "cmd10");
    assert_eq!(c.history[49], "cmd59");
}

#[test]
fn test_push_command_history_resets_idx() {
    let mut c = CommandLine::new();
    c.history_idx = Some(3);
    c.push_command_history("scan");
    assert_eq!(c.history_idx, None);
}

#[test]
fn test_clear_command_state() {
    let mut c = CommandLine::new();
    c.input = "scan".into();
    c.matches = vec!["Scan"];
    c.selected = 1;
    c.clear_command_state();
    assert!(c.input.is_empty());
    assert!(c.matches.is_empty());
    assert_eq!(c.selected, 0);
}

#[test]
fn test_update_command_matches_empty() {
    let mut c = CommandLine::new();
    c.update_command_matches();
    assert_eq!(c.matches.len(), commands().len());
}

#[test]
fn test_update_command_matches_fuzzy() {
    let mut c = CommandLine::new();
    c.input = "sc".into();
    c.update_command_matches();
    assert!(c.matches.contains(&"Scan"));
}

#[test]
fn test_set_time_preset_0() {
    let mut w = TimeWindow::new();
    w.set_time_preset(0);
    assert!(!w.custom);
    assert!(w.from < w.to);
    assert!(w.to - w.from <= 3_600_000);
}

#[test]
fn test_set_time_preset_7d() {
    let mut w = TimeWindow::new();
    w.set_time_preset(5);
    assert_eq!(w.preset, 5);
    let diff = w.to - w.from;
    assert!(diff >= 604_800_000 - 1000);
    assert!(diff <= 604_800_000 + 1000);
}

#[test]
fn test_time_preset_label_all() {
    assert_eq!(time_preset_label(0), "1h");
    assert_eq!(time_preset_label(1), "6h");
    assert_eq!(time_preset_label(2), "12h");
    assert_eq!(time_preset_label(3), "1d");
    assert_eq!(time_preset_label(4), "3d");
    assert_eq!(time_preset_label(5), "7d");
    assert_eq!(time_preset_label(99), "1h");
}

#[test]
fn test_default_time_range() {
    let mut w = TimeWindow::new();
    w.default_time_range();
    assert_eq!(w.preset, 0);
    assert!(!w.custom);
}

#[test]
fn preset_window_at_fixed_time() {
    let mut w = TimeWindow::new();
    w.set_preset_at(4, 1_000_000_000);
    assert_eq!(w.to, 1_000_000_000);
    assert_eq!(w.from, 1_000_000_000 - 259_200_000);
    w.set_preset_at(5, 10);
    assert_eq!(w.from, 0);
}

#[test]
fn matches_keep_selection_in_range() {
    let mut c = CommandLine::new();
    c.selected = 7;
    c.input = "ti".into();
    c.update_command_matches();
    assert_eq!(c.matches, vec!["Time"]);
    assert_eq!(c.selected, 0);
    c.input = "U".into();
    c.update_command_matches();
    assert_eq!(c.matches, vec!["Purge", "Uninstall"]);
}
