use chrono::{Local, LocalResult, TimeZone};

use wonder_of_u::progress::day::{day_key_for_ms, DayKey};

fn local(year: i32, month: u32, day: u32, hour: u32, minute: u32) -> u64 {
    let moment = match Local.with_ymd_and_hms(year, month, day, hour, minute, 0) {
        LocalResult::Single(moment) => moment,
        LocalResult::Ambiguous(earlier, _) => earlier,
        LocalResult::None => panic!("{year}-{month}-{day} {hour}:{minute} is not a local time"),
    };
    u64::try_from(moment.timestamp_millis()).expect("a positive timestamp")
}

fn key_at(millis: u64) -> String {
    day_key_for_ms(millis)
        .expect("a real date")
        .as_str()
        .to_string()
}

#[test]
fn the_minute_before_the_rollover_belongs_to_the_day_before() {
    assert_eq!(key_at(local(2026, 9, 10, 3, 59)), "2026-09-09");
    assert_eq!(key_at(local(2026, 9, 10, 4, 0)), "2026-09-10");
}

#[test]
fn a_session_either_side_of_midnight_is_one_day() {
    let evening = key_at(local(2026, 9, 9, 23, 30));
    let after_midnight = key_at(local(2026, 9, 10, 0, 30));
    assert_eq!(evening, after_midnight);
    assert_eq!(evening, "2026-09-09");
}

#[test]
fn ordinary_daytime_moments_land_on_their_own_date() {
    assert_eq!(key_at(local(2026, 9, 10, 12, 0)), "2026-09-10");
    assert_eq!(key_at(local(2026, 9, 10, 23, 59)), "2026-09-10");
}

#[test]
fn one_calendar_date_yields_one_key_across_its_whole_span() {
    for (year, month, day) in [(2026, 3, 29), (2026, 10, 25), (2026, 9, 10)] {
        let mut keys = std::collections::BTreeSet::new();
        for hour in 4..24 {
            if let LocalResult::Single(moment) = Local.with_ymd_and_hms(year, month, day, hour, 0, 0)
            {
                let millis = u64::try_from(moment.timestamp_millis()).expect("positive");
                keys.insert(key_at(millis));
            }
        }
        assert_eq!(keys.len(), 1, "{year}-{month}-{day} produced {keys:?}");
    }
}

#[test]
fn a_timestamp_resolves_to_the_same_key_as_the_moment_it_names() {
    let millis = local(2026, 9, 10, 2, 15);
    assert_eq!(
        day_key_for_ms(millis).as_ref().map(DayKey::as_str),
        Some("2026-09-09"),
        "02:15 belongs to the evening before"
    );
}

#[test]
fn a_timestamp_beyond_the_calendar_has_no_day_rather_than_a_wrong_one() {
    assert_eq!(day_key_for_ms(u64::MAX), None);
}

#[test]
fn the_day_before_a_key_is_the_calendar_day_before() {
    assert_eq!(DayKey::new("2026-03-01").previous(), Some(DayKey::new("2026-02-28")));
    assert_eq!(DayKey::new("2028-03-01").previous(), Some(DayKey::new("2028-02-29")));
    assert_eq!(DayKey::new("2026-01-01").previous(), Some(DayKey::new("2025-12-31")));
    assert_eq!(DayKey::new("not a day").previous(), None);
}

#[test]
fn every_timestamp_up_to_the_year_9999_has_a_day() {
    assert!(day_key_for_ms(0).is_some());
    assert!(day_key_for_ms(253_402_300_799_999).is_some());
}

#[test]
fn a_day_key_is_a_date_within_a_day_of_four_hours_earlier() {
    // 2026-09-10T12:00:00Z
    let noon = 1_789_041_600_000_u64;
    let key = day_key_for_ms(noon).expect("a real date");
    let text = key.as_str();
    assert_eq!(text.len(), 10);
    assert!(["2026-09-09", "2026-09-10", "2026-09-11"].contains(&text));
    let epoch = day_key_for_ms(0).expect("a real date");
    assert!(["1969-12-30", "1969-12-31", "1970-01-01"].contains(&epoch.as_str()));
}
