use std::time::Duration;
use textstats::text::push_decimal;
use textstats::duration::{
    breakdown, calculate_duration, duration_seconds, format_duration, format_seconds,
    unit_label, Breakdown, Unit,
};

#[test]
fn reading_time_of_125_words_at_275() {
    let duration = calculate_duration(125, 275);
    assert_eq!(duration, Duration::from_secs(27));
    assert_eq!(breakdown(duration.as_secs()), Breakdown::Seconds { seconds: 27 });
    assert_eq!(format_duration(duration), "27 secs");
}

#[test]
fn started_seconds_are_dropped() {
    assert_eq!(duration_seconds(1, 61), 0);
    assert_eq!(duration_seconds(1, 60), 1);
    assert_eq!(duration_seconds(1, 59), 1);
    assert_eq!(duration_seconds(275, 275), 60);
    assert_eq!(duration_seconds(274, 275), 59);
    assert_eq!(duration_seconds(41, 5), 492);
    assert_eq!(duration_seconds(1000, 180), 333);
    assert_eq!(duration_seconds(0, 275), 0);
}

#[test]
fn a_rate_of_zero_gives_zero_seconds() {
    assert_eq!(duration_seconds(100, 0), 0);
    assert_eq!(duration_seconds(0, 0), 0);
    assert_eq!(calculate_duration(100, 0), Duration::from_secs(0));
}

#[test]
fn huge_estimates_stop_at_the_largest_number() {
    assert_eq!(duration_seconds(usize::MAX, 1), u64::MAX);
    assert_eq!(
        duration_seconds(usize::MAX, 60),
        (usize::MAX as u128 * 60 / 60).min(u64::MAX as u128) as u64
    );
}

#[test]
fn calculate_duration_has_whole_seconds_only() {
    let duration = calculate_duration(1000, 180);
    assert_eq!(duration.as_secs(), 333);
    assert_eq!(duration.subsec_nanos(), 0);
}

#[test]
fn breakdown_picks_the_units() {
    assert_eq!(breakdown(0), Breakdown::Seconds { seconds: 0 });
    assert_eq!(breakdown(59), Breakdown::Seconds { seconds: 59 });
    assert_eq!(breakdown(60), Breakdown::Minutes { minutes: 1, seconds: 0 });
    assert_eq!(breakdown(125), Breakdown::Minutes { minutes: 2, seconds: 5 });
    assert_eq!(breakdown(3600), Breakdown::Minutes { minutes: 60, seconds: 0 });
    assert_eq!(breakdown(3659), Breakdown::Minutes { minutes: 60, seconds: 59 });
    assert_eq!(breakdown(3660), Breakdown::Hours { hours: 1, minutes: 1, seconds: 0 });
    assert_eq!(breakdown(7325), Breakdown::Hours { hours: 2, minutes: 2, seconds: 5 });
    assert_eq!(
        breakdown(u64::MAX),
        Breakdown::Hours { hours: u64::MAX / 3600, minutes: 0, seconds: 15 }
    );
}

#[test]
fn labels_follow_the_number() {
    assert_eq!(unit_label(Unit::Hour, 1), "hr");
    assert_eq!(unit_label(Unit::Hour, 0), "hrs");
    assert_eq!(unit_label(Unit::Hour, 2), "hrs");
    assert_eq!(unit_label(Unit::Minute, 1), "min");
    assert_eq!(unit_label(Unit::Minute, 0), "mins");
    assert_eq!(unit_label(Unit::Minute, 60), "mins");
    assert_eq!(unit_label(Unit::Second, 1), "sec");
    assert_eq!(unit_label(Unit::Second, 0), "secs");
    assert_eq!(unit_label(Unit::Second, 27), "secs");
}

#[test]
fn durations_as_text() {
    assert_eq!(format_seconds(0), "0 secs");
    assert_eq!(format_seconds(1), "1 sec");
    assert_eq!(format_seconds(27), "27 secs");
    assert_eq!(format_seconds(60), "1 min 0 secs");
    assert_eq!(format_seconds(61), "1 min 1 sec");
    assert_eq!(format_seconds(125), "2 mins 5 secs");
    assert_eq!(format_seconds(3600), "60 mins 0 secs");
    assert_eq!(format_seconds(3660), "1 hr 1 min 0 secs");
    assert_eq!(format_seconds(3661), "1 hr 1 min 1 sec");
    assert_eq!(format_seconds(7325), "2 hrs 2 mins 5 secs");
    assert_eq!(format_duration(Duration::from_millis(61_999)), "1 min 1 sec");
}

#[test]
fn decimal_digits() {
    for n in [0u64, 1, 9, 10, 11, 99, 100, 101, 12345, 1_000_000, u64::MAX] {
        let mut text = String::from("n=");
        push_decimal(&mut text, n);
        assert_eq!(text, format!("n={}", n));
    }
}
