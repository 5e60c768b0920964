use argus::cleanup_view::rank_details;
use argus::diff::{aggregate_deltas, filter_by_threshold, DiffNode};
use argus::maintenance::{default_shell_cmd_targets, shell_cmd_audit, shell_cmd_result, CommandOutcome};
use argus::model::SnapshotBuilder;
use argus::snapshot_codec::{compact_payload, snapshot_payload};
use argus::time_args::{millis_of_reading, now_in_millis, parse_single_time_arg, resolve_clock_time, resolve_date_time};
use chrono::Datelike;

fn wall_clock_ms() -> u64 {
    std::time::SystemTime::now().duration_since(std::time::UNIX_EPOCH).unwrap().as_millis() as u64
}

#[test]
fn clock_reading_becomes_milliseconds() {
    assert_eq!(millis_of_reading(None), 0);
    assert_eq!(millis_of_reading(Some(1_700_000_000_123)), 1_700_000_000_123);
    assert_eq!(millis_of_reading(Some((1u128 << 64) + 7)), 7);
    let before = wall_clock_ms();
    let now = now_in_millis();
    let after = wall_clock_ms();
    assert!(before <= now && now <= after);
}

#[test]
fn clock_time_takes_the_given_date() {
    let p = resolve_clock_time(7, 4, 14, 30, "14:30".to_string());
    assert_eq!(p.date, Some((7, 4)));
    assert_eq!(p.label, "14:30");
    let now = wall_clock_ms();
    assert!(p.ms > 0 && p.ms <= now + 2 * 86_400_000);
    assert!(p.ms + 368 * 86_400_000 >= now);
}

#[test]
fn clock_time_argument_is_today() {
    let today = chrono::Local::now();
    let q = parse_single_time_arg("14:30").unwrap();
    assert_eq!(q.label, "14:30");
    assert_eq!(q.date, Some((today.month(), today.day())));
    let p = parse_single_time_arg("07-04").unwrap();
    assert_eq!(p.label, "07-04");
    assert_eq!(p.date, Some((7, 4)));
    assert_eq!(parse_single_time_arg("2x").err(), Some("invalid date-time: invalid date: 2x".to_string()));
}

#[test]
fn date_times_land_within_a_day_of_their_wall_clock() {
    let p = parse_single_time_arg("01-02 03:04").unwrap();
    let year = chrono::Local::now().year();
    let near = |y: i32| {
        let utc = chrono::NaiveDate::from_ymd_opt(y, 1, 2).unwrap().and_hms_opt(3, 4, 0).unwrap().and_utc().timestamp_millis();
        (p.ms as i64 - utc).abs() < 86_400_000
    };
    assert!(near(year) || near(year - 1));
    assert!(p.ms <= wall_clock_ms());
}

#[test]
fn compression_always_succeeds() {
    let empty = compact_payload(&[]).unwrap();
    assert_eq!(&empty[..2], &[0x1f, 0x8b]);
    assert_eq!(snapshot_payload(&empty).unwrap(), Vec::<u8>::new());
    let raw = vec![7u8; 4096];
    let stored = compact_payload(&raw).unwrap();
    assert!(stored.len() < raw.len());
    assert_eq!(snapshot_payload(&stored).unwrap(), raw);
}

#[test]
fn snapshot_time_is_the_clock() {
    let before = wall_clock_ms() as i64;
    let snap = SnapshotBuilder::new("root").finish("/r".to_string(), 0, 0);
    let after = wall_clock_ms() as i64;
    assert!(before <= snap.timestamp_ms && snap.timestamp_ms <= after);
}

#[test]
fn details_rank_larger_first_ties_in_order() {
    let entries = vec![
        ("a".to_string(), 5u64),
        ("b".to_string(), 10),
        ("c".to_string(), 5),
        ("d".to_string(), 10),
        ("e".to_string(), 7),
    ];
    let r = rank_details(entries);
    let names: Vec<&str> = r.iter().map(|e| e.0.as_str()).collect();
    assert_eq!(names, vec!["b", "d", "e", "a", "c"]);
    let many: Vec<(String, u64)> = (0..250u64).map(|i| (format!("f{i}"), i % 3)).collect();
    let r = rank_details(many);
    assert_eq!(r.len(), 200);
    assert_eq!(r[0].0, "f2");
    assert_eq!(r[1].0, "f5");
    assert_eq!(r[199].1, 0);
}

#[test]
fn only_commands_that_ran_are_audited() {
    let targets = default_shell_cmd_targets();
    let failed = CommandOutcome::Ran { success: false, stdout: String::new(), stderr: " boom ".to_string() };
    let r = shell_cmd_result(&targets[0], &failed);
    let a = shell_cmd_audit(&failed, &r).unwrap();
    assert!(!a.success);
    assert_eq!(a.error, Some("boom".to_string()));
    assert_eq!(a.total_bytes, 0);
    let missing = CommandOutcome::NotStarted { reason: "no such file".to_string() };
    let r = shell_cmd_result(&targets[0], &missing);
    assert!(shell_cmd_audit(&missing, &r).is_none());
}

fn leaf(name: &str, delta: i64) -> DiffNode {
    DiffNode { name: name.to_string(), is_dir: false, current_size: 10, size_delta: delta, children: Vec::new() }
}

#[test]
fn filtering_and_aggregation_keep_child_names() {
    let tree = DiffNode {
        name: "root".to_string(),
        is_dir: true,
        current_size: 30,
        size_delta: 0,
        children: vec![leaf("x", 500), leaf("y", 1), leaf("z", -900)],
    };
    let f = filter_by_threshold(&tree, 100).unwrap();
    let names: Vec<&str> = f.children.iter().map(|c| c.name.as_str()).collect();
    assert_eq!(names, vec!["x", "z"]);
    let mut agg = tree;
    aggregate_deltas(&mut agg);
    let names: Vec<&str> = agg.children.iter().map(|c| c.name.as_str()).collect();
    assert_eq!(names, vec!["x", "y", "z"]);
    assert_eq!(agg.size_delta, -399);
}

fn utc_ms(y: i32, m: u32, d: u32, h: u32, mi: u32) -> i64 {
    chrono::NaiveDate::from_ymd_opt(y, m, d).unwrap().and_hms_opt(h, mi, 0).unwrap().and_utc().timestamp_millis()
}

#[test]
fn date_times_resolve_in_the_given_year_or_the_one_before() {
    let now = utc_ms(2024, 7, 6, 0, 0);
    let r = resolve_date_time(2024, now, 7, 4, 14, 30) as i64;
    assert!((r - utc_ms(2024, 7, 4, 14, 30)).abs() < 86_400_000);
    assert!(r <= now);
    let early = utc_ms(2024, 6, 1, 0, 0);
    let r = resolve_date_time(2024, early, 7, 4, 14, 30) as i64;
    assert!((r - utc_ms(2023, 7, 4, 14, 30)).abs() < 86_400_000);
    assert_eq!(resolve_date_time(2024, now, 2, 30, 12, 0), 0);
    assert_eq!(resolve_date_time(2024, now, 6, 1, 24, 0), 0);
}
