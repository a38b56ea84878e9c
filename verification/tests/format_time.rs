use msdp::format_time;

#[test]
fn zero_seconds() {
    assert_eq!(format_time(0), "00:00:00");
}

#[test]
fn pads_each_field() {
    assert_eq!(format_time(59), "00:00:59");
    assert_eq!(format_time(3661), "01:01:01");
}

#[test]
fn twenty_four_hours_stay_hours() {
    assert_eq!(format_time(24 * 3600), "24:00:00");
    assert_eq!(format_time(24 * 3600 + 3599), "24:59:59");
}

#[test]
fn days_after_twenty_four_hours() {
    assert_eq!(format_time(25 * 3600), "1d 01:00:00");
    // the uptime shown in the README
    assert_eq!(format_time(5 * 86400 + 21 * 3600 + 25 * 60 + 11), "5d 21:25:11");
    assert_eq!(format_time(2 * 86400 + 12 * 3600 + 27 * 60 + 42), "2d 12:27:42");
}

#[test]
fn many_days() {
    assert_eq!(format_time(1234 * 86400 + 5), "1234d 00:00:05");
    assert_eq!(format_time(u64::MAX), "213503982334601d 07:00:15");
}

#[test]
fn renderings_differ_for_different_durations() {
    let mut seen = std::collections::HashSet::new();
    for d in (0..200_000u64).step_by(7) {
        assert!(seen.insert(format_time(d)), "{} rendered twice", d);
    }
    // the last hour shown as hours and the first shown with days differ
    assert_ne!(format_time(24 * 3600 + 3599), format_time(25 * 3600));
}
