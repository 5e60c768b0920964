use argus::commands::{CommandState, Followup};
use argus::ui::{AppMode, SortMode};

fn app() -> CommandState {
    CommandState::new()
}

#[test]
fn test_execute_empty_command() {
    let mut app = app();
    assert_eq!(app.execute_command(""), Err("empty command".into()));
}

#[test]
fn test_execute_unknown_command() {
    let mut app = app();
    let result = app.execute_command("foobar");
    assert!(result.is_err());
    assert!(result.unwrap_err().contains("unknown command"));
}

#[test]
fn test_execute_help() {
    let mut app = app();
    assert!(app.execute_command("help").is_ok());
    assert_eq!(app.mode, AppMode::Help);
}

#[test]
fn test_execute_time_not_in_server_mode() {
    let mut app = app();
    assert_eq!(app.execute_command("time 2h"), Err("not in server mode".into()));
}

#[test]
fn test_execute_time_no_arg_opens_help() {
    let mut app = app();
    app.server_mode = true;
    assert!(app.execute_command("time").is_ok());
    assert_eq!(app.mode, AppMode::TimeHelp);
}

#[test]
fn test_execute_time_duration() {
    let mut app = app();
    app.server_mode = true;
    let result = app.execute_command("time 2h");
    assert!(result.is_ok());
    assert!(result.unwrap().contains("2h"));
    assert!(app.time_custom);
}

#[test]
fn test_execute_time_time_only() {
    let mut app = app();
    app.server_mode = true;
    let result = app.execute_command("time 14:30");
    assert!(result.is_ok());
    assert!(app.time_custom);
    assert!(app.time_custom_label.contains("14:30"));
}

#[test]
fn test_execute_time_absolute() {
    let mut app = app();
    app.server_mode = true;
    let result = app.execute_command("time 07-04");
    assert!(result.is_ok());
    assert!(app.time_custom);
}

#[test]
fn test_execute_time_range_time_to_time() {
    let mut app = app();
    app.server_mode = true;
    let result = app.execute_command("time 09:00 to 17:00");
    assert!(result.is_ok());
    assert!(app.time_custom);
    assert!(app.time_custom_label.contains("09:00"));
    assert!(app.time_custom_label.contains("17:00"));
}

#[test]
fn test_execute_time_range_absolute_to_absolute() {
    let mut app = app();
    app.server_mode = true;
    let result = app.execute_command("time 07-04 to 07-05");
    assert!(result.is_ok());
    assert!(app.time_custom);
    assert!(app.time_custom_label.contains("07-04"));
    assert!(app.time_custom_label.contains("07-05"));
}

#[test]
fn test_execute_time_range_duration_to_date_errors() {
    let mut app = app();
    app.server_mode = true;
    let result = app.execute_command("time 2h to 09:00");
    assert!(result.is_err());
}

#[test]
fn test_execute_time_invalid_duration() {
    let mut app = app();
    app.server_mode = true;
    let result = app.execute_command("time 2x");
    assert!(result.is_err());
}

#[test]
fn test_execute_sort_name() {
    let mut app = app();
    assert!(app.execute_command("sort n").is_ok());
    assert_eq!(app.sort_mode, SortMode::Name);
}

#[test]
fn test_execute_sort_toggle() {
    let mut app = app();
    app.sort_mode = SortMode::Name;
    assert!(app.execute_command("sort").is_ok());
    assert_eq!(app.sort_mode, SortMode::Size);
}

#[test]
fn test_execute_sort_unknown() {
    let mut app = app();
    let result = app.execute_command("sort x");
    assert!(result.is_err());
    assert!(result.unwrap_err().contains("unknown sort mode"));
}

#[test]
fn test_execute_delta_with_unit() {
    let mut app = app();
    app.server_mode = true;
    assert!(app.execute_command("delta 500k").is_ok());
    assert_eq!(app.delta_filter_value, 500);
    assert_eq!(app.delta_filter_unit, 0);
    assert!(app.delta_filter_active);
}

#[test]
fn test_execute_delta_not_in_server_mode() {
    let mut app = app();
    assert_eq!(app.execute_command("delta 100m"), Err("not in server mode".into()));
}

#[test]
fn test_cmd_scan_not_scanning() {
    let mut app = app();
    assert!(app.cmd_scan().is_ok());
}

#[test]
fn test_cmd_scan_already_scanning() {
    let mut app = app();
    app.scanning = true;
    assert_eq!(app.cmd_scan(), Err("already scanning".into()));
}

#[test]
fn test_cmd_consolidate_not_server_mode() {
    let mut app = app();
    assert_eq!(app.cmd_consolidate(), Err("not in server mode".into()));
}

#[test]
fn test_cmd_sort_quick_delta() {
    let mut app = app();
    app.sort_mode = SortMode::Name;
    let result = app.cmd_sort_quick(SortMode::Delta, "Delta");
    assert!(result.is_ok());
    assert_eq!(app.sort_mode, SortMode::Delta);
}

#[test]
fn test_cmd_sort_quick_size() {
    let mut app = app();
    app.sort_mode = SortMode::Name;
    let result = app.cmd_sort_quick(SortMode::Size, "Size");
    assert!(result.is_ok());
    assert_eq!(app.sort_mode, SortMode::Size);
}

#[test]
fn test_execute_delta_no_unit_uses_mb() {
    let mut app = app();
    app.server_mode = true;
    assert!(app.execute_command("delta 200").is_ok());
    assert_eq!(app.delta_filter_value, 200);
    assert_eq!(app.delta_filter_unit, 1);
}

#[test]
fn test_execute_delta_m_unit() {
    let mut app = app();
    app.server_mode = true;
    assert!(app.execute_command("delta 50m").is_ok());
    assert_eq!(app.delta_filter_value, 50);
    assert_eq!(app.delta_filter_unit, 1);
}

#[test]
fn test_execute_sort_shortcuts() {
    let mut app = app();
    assert!(app.execute_command("sd").is_ok());
    assert_eq!(app.sort_mode, SortMode::Delta);
    assert!(app.execute_command("ss").is_ok());
    assert_eq!(app.sort_mode, SortMode::Size);
    assert!(app.execute_command("sn").is_ok());
    assert_eq!(app.sort_mode, SortMode::Name);
}

#[test]
fn test_execute_scan() {
    let mut app = app();
    assert!(app.execute_command("scan").is_ok());
}

#[test]
fn command_messages_are_exact() {
    let mut app = app();
    app.server_mode = true;
    assert_eq!(app.execute_command("  DELTA 3g  "), Ok("delta filter set to 3GB".to_string()));
    assert_eq!(app.followup, Followup::RefreshFiltered);
    assert_eq!(app.execute_command("delta 1x2"), Err("invalid number: 1x2".to_string()));
    assert_eq!(app.execute_command("delta"), Ok("delta filter set to 0KB".to_string()));
    assert_eq!(app.execute_command("Sort S"), Ok("Sort: Size".to_string()));
    assert_eq!(app.followup, Followup::ReloadChildren);
    assert_eq!(app.execute_command("finder"), Ok("finder opened".to_string()));
    assert_eq!(app.mode, AppMode::Finder);
    assert_eq!(app.execute_command("consolidate"), Ok("consolidation requested".to_string()));
    assert_eq!(app.execute_command("time 3d"), Ok("time range: in 3d".to_string()));
    assert_eq!(app.time_custom_label, "3d");
    assert_eq!(app.followup, Followup::RefreshDeltas);
    assert_eq!(app.execute_command("time 07-04 To 9:5"), Ok("time range: 07-04 ~ 09:05".to_string()));
    assert!(app.execute_command("time  to 07-05").is_err());
    assert_eq!(app.execute_command("bogus arg"), Err("unknown command: bogus".to_string()));
}
