use xos_apps::notifications::{
    clock_nanos, format_relative_time, is_in_calendar, relative_time_label, NotificationStore, EARLIEST_INSTANT_NS,
    LATEST_INSTANT_NS,
};

#[test]
fn a_new_store_has_the_samples() {
    let s = NotificationStore::new();
    let all = s.get_all();
    assert_eq!(all.len(), 4);
    let ids: Vec<u64> = all.iter().map(|n| n.id).collect();
    assert_eq!(ids, vec![1, 2, 3, 4]);
    assert_eq!(all[0].app_name, "System");
    assert_eq!(all[1].summary, "Download completed");
    assert_eq!(all[0].timestamp - all[3].timestamp, 18_000_000_000_000 - 900_000_000_000);
}

#[test]
fn samples_are_timed_from_now() {
    let s = NotificationStore::with_samples(100_000_000_000_000);
    let ts: Vec<i128> = s.get_all().iter().map(|n| n.timestamp).collect();
    assert_eq!(ts, vec![99_100_000_000_000, 97_300_000_000_000, 92_800_000_000_000, 82_000_000_000_000]);
}

#[test]
fn add_then_dismiss() {
    let mut s = NotificationStore::with_samples(0);
    assert_eq!(s.next_id(), 5);
    let id = s.add("Mail".into(), "New mail".into(), "2 messages".into(), 5);
    assert_eq!(id, 5);
    assert_eq!(s.get_all().len(), 5);
    s.remove(id);
    assert_eq!(s.get_all().len(), 4);
    s.remove(id);
    assert_eq!(s.get_all().len(), 4);
    let next = s.add("Mail".into(), "again".into(), "".into(), 6);
    assert_eq!(next, 6);
    assert_eq!(s.next_id(), 7);
    s.clear_all();
    assert!(s.get_all().is_empty());
    assert!(s.get_grouped().is_empty());
}

#[test]
fn groups_by_application_in_name_order() {
    let s = NotificationStore::with_samples(0);
    let g = s.get_grouped();
    let names: Vec<&str> = g.iter().map(|g| g.app_name.as_str()).collect();
    assert_eq!(names, vec!["File Manager", "Firefox", "System"]);
    let system: Vec<u64> = g[2].notifications.iter().map(|n| n.id).collect();
    assert_eq!(system, vec![1, 4]);
    assert_eq!(g[0].notifications.len(), 1);
}

#[test]
fn relative_times() {
    let sec: i128 = 1_000_000_000;
    assert_eq!(relative_time_label(0, 0), "just now");
    assert_eq!(relative_time_label(60 * sec - 1, 0), "just now");
    assert_eq!(relative_time_label(0, 10 * sec), "just now");
    assert_eq!(relative_time_label(60 * sec, 0), "1m ago");
    assert_eq!(relative_time_label(60 * sec + 500, 1_000), "just now");
    assert_eq!(relative_time_label(3_600 * sec - 1, 0), "59m ago");
    assert_eq!(relative_time_label(3_600 * sec, 0), "1h ago");
    assert_eq!(relative_time_label(86_400 * sec - 1, 0), "23h ago");
    assert_eq!(relative_time_label(86_400 * sec * 3, 0), "3d ago");
    assert_eq!(
        relative_time_label(LATEST_INSTANT_NS, EARLIEST_INSTANT_NS),
        format!("{}d ago", ((LATEST_INSTANT_NS - EARLIEST_INSTANT_NS) / 1_000_000_000) / 86_400)
    );
    assert_eq!(relative_time_label(LATEST_INSTANT_NS, EARLIEST_INSTANT_NS), "191491529d ago");
}

#[test]
fn relative_time_from_the_clock() {
    let s = NotificationStore::new();
    let labels: Vec<String> = s.get_all().iter().map(|n| format_relative_time(n.timestamp)).collect();
    assert_eq!(labels, vec!["15m ago", "45m ago", "2h ago", "5h ago"]);
}

#[test]
fn clock_readings_in_nanoseconds() {
    assert_eq!(clock_nanos(Ok(1_700_000_000_123_456_789)), 1_700_000_000_123_456_789);
    assert_eq!(clock_nanos(Err(5_000)), -5_000);
    assert_eq!(clock_nanos(Ok(u128::MAX)), LATEST_INSTANT_NS);
    assert_eq!(clock_nanos(Ok(8_210_266_876_799_999_999_999)), LATEST_INSTANT_NS);
    assert_eq!(clock_nanos(Ok(8_210_266_876_800_000_000_000)), LATEST_INSTANT_NS);
    assert_eq!(clock_nanos(Err(10_000_000_000_000_000_000)), -10_000_000_000_000_000_000);
    assert_eq!(clock_nanos(Err(u128::MAX)), EARLIEST_INSTANT_NS + 18_000_000_000_000);
    assert_eq!(clock_nanos(Err(8_334_601_297_200_000_000_000)), EARLIEST_INSTANT_NS + 18_000_000_000_000);
    assert_eq!(clock_nanos(Err(8_334_601_297_200_000_000_001)), EARLIEST_INSTANT_NS + 18_000_000_000_000);
    assert_eq!(relative_time_label(clock_nanos(Err(0)), -120_000_000_000), "2m ago");
}

#[test]
fn calendar_bounds() {
    assert!(is_in_calendar(0));
    assert!(is_in_calendar(LATEST_INSTANT_NS));
    assert!(is_in_calendar(EARLIEST_INSTANT_NS));
    assert!(!is_in_calendar(LATEST_INSTANT_NS + 1));
    assert!(!is_in_calendar(EARLIEST_INSTANT_NS - 1));
    // The calendar ends on the last day of the year 262142 and begins on the
    // first day of the year -262143.
    assert_eq!((LATEST_INSTANT_NS + 1) / 1_000_000_000, 8_210_266_876_800);
    assert_eq!(EARLIEST_INSTANT_NS / 1_000_000_000, -8_334_601_315_200);
}
