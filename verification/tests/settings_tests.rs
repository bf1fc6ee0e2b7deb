use xos_apps::settings::{
    battery_readings, battery_status_label, charge_limit_config, cooling_readings, cycle_count_label, fan_label,
    fan_override_config, find_last, highlighted_limit, int_value, parse_settings, text_value, throttling_label,
    update_controls, update_labels, update_readings, ChargeLimitButton, UpdateReadings,
};

#[test]
fn lines_with_one_equals_sign_are_settings() {
    let s = parse_settings("a=1\nno setting\nb=2=3\r\nc=\n=d\r\ne=5\r");
    let pairs: Vec<(String, String)> = s.iter().map(|x| (x.key.clone(), x.value.clone())).collect();
    assert_eq!(
        pairs,
        vec![
            ("a".to_string(), "1".to_string()),
            ("c".to_string(), "".to_string()),
            ("".to_string(), "d".to_string()),
            ("e".to_string(), "5\r".to_string()),
        ]
    );
}

#[test]
fn later_lines_override_earlier() {
    let s = parse_settings("x=1\ny=2\nx=3\n");
    assert_eq!(find_last(&s, "x"), Some("3".to_string()));
    assert_eq!(find_last(&s, "z"), None);
    assert_eq!(int_value(&s, "x", 7), 3);
    assert_eq!(int_value(&s, "z", 7), 7);
    assert_eq!(text_value(&s, "y", "none"), "2");
    assert_eq!(text_value(&s, "z", "none"), "none");
}

#[test]
fn numbers_parse_as_i32() {
    let s = parse_settings("a=+7\nb=-2147483648\nc=2147483648\nd=abc\ne=\nf=-\n");
    assert_eq!(int_value(&s, "a", 0), 7);
    assert_eq!(int_value(&s, "b", 0), i32::MIN);
    assert_eq!(int_value(&s, "c", 5), 5);
    assert_eq!(int_value(&s, "d", 5), 5);
    assert_eq!(int_value(&s, "e", 5), 5);
    assert_eq!(int_value(&s, "f", 5), 5);
}

#[test]
fn the_battery_page() {
    let r = battery_readings("capacity=85\nstatus=Charging\nwatts=12.5\ncycles=12\ncharge_limit=80\n");
    assert_eq!(r.capacity, 85);
    assert_eq!(r.status, "Charging");
    assert_eq!(r.cycles, 12);
    assert_eq!(r.charge_limit, 80);
    assert_eq!(battery_status_label(&r), "Battery: Charging (85%)");
    assert_eq!(cycle_count_label(r.cycles), "Cycle Count: 12");
    assert_eq!(highlighted_limit(r.charge_limit), ChargeLimitButton::Eighty);

    let d = battery_readings("");
    assert_eq!((d.capacity, d.status.as_str(), d.cycles, d.charge_limit), (0, "Unknown", 0, 100));
    assert_eq!(battery_status_label(&d), "Battery: Unknown (0%)");
    assert_eq!(highlighted_limit(90), ChargeLimitButton::Ninety);
    assert_eq!(highlighted_limit(100), ChargeLimitButton::Full);
    assert_eq!(highlighted_limit(55), ChargeLimitButton::Full);
}

#[test]
fn configuration_lines() {
    assert_eq!(charge_limit_config(90), "charge_limit=90\n");
    assert_eq!(fan_override_config(-1), "manual_speed=-1\n");
    assert_eq!(fan_override_config(75), "manual_speed=75\n");
}

#[test]
fn a_written_limit_reads_back() {
    let r = battery_readings(&charge_limit_config(90));
    assert_eq!(r.charge_limit, 90);
    let s = parse_settings(&fan_override_config(-1));
    assert_eq!(int_value(&s, "manual_speed", 0), -1);
}

#[test]
fn the_heat_page() {
    let c = cooling_readings("cpu_temp=55.0\nthrottle=1\n", "fan_speed=40\nfan_rpm=2100\n");
    assert!(c.throttling);
    assert_eq!((c.fan_speed, c.fan_rpm), (40, 2100));
    assert_eq!(throttling_label(c.throttling), "Thermal Throttling: ACTIVE");
    assert_eq!(fan_label(c.fan_speed, c.fan_rpm), "Active Fan Speed: 40% (2100 RPM)");
    let d = cooling_readings("throttle=1\nthrottle=0\n", "");
    assert!(!d.throttling);
    assert_eq!((d.fan_speed, d.fan_rpm), (0, 0));
    assert_eq!(throttling_label(false), "Thermal Throttling: INACTIVE");
    assert!(!cooling_readings("throttle=yes\n", "").throttling);
}

#[test]
fn the_updates_page() {
    let r = update_readings("status=Idle\nupdates_available=4\nlast_check=2024-05-01\n");
    let (a, b, c) = update_labels(&r);
    assert_eq!(a, "Status: Idle");
    assert_eq!(b, "Available Updates: 4 packages");
    assert_eq!(c, "Last Checked: 2024-05-01");
    assert_eq!(update_controls(&r), (false, true));

    let d = update_readings("");
    assert_eq!((d.status.as_str(), d.available, d.last_check.as_str()), ("Idle", 0, "Never"));
    assert_eq!(update_controls(&d), (false, false));

    let busy = UpdateReadings { status: "Downloading".to_string(), available: 3, last_check: "x".to_string() };
    assert_eq!(update_controls(&busy), (true, false));
}
