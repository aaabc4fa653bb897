use wonder_of_u::progress::day::{day_key_for_ms, DayKey};
use wonder_of_u::progress::evidence::{
    collect, collect_sightings, usable_day, EvidenceFrom, MaterialCounts, Sighting,
};

fn key(day: &str) -> DayKey {
    DayKey::new(day)
}

fn from(day: &str) -> EvidenceFrom {
    EvidenceFrom {
        library: Some(key(day)),
    }
}

#[test]
fn a_first_sighting_sets_the_horizon() {
    let mut header = EvidenceFrom::new();
    assert!(header.merge_earlier(&from("2026-04-06")));
    assert_eq!(header.library, Some(key("2026-04-06")));
}

#[test]
fn an_earlier_sighting_moves_it_back() {
    let mut header = from("2026-06-01");
    assert!(header.merge_earlier(&from("2026-04-06")));
    assert_eq!(header.library, Some(key("2026-04-06")));
}

#[test]
fn a_later_sighting_never_moves_it_forward() {
    let mut header = from("2026-04-06");
    assert!(!header.merge_earlier(&from("2026-09-10")));
    assert!(!header.merge_earlier(&EvidenceFrom::new()));
    assert_eq!(header.library, Some(key("2026-04-06")));
}

#[test]
fn the_same_sighting_is_not_a_move() {
    let mut header = from("2026-04-06");
    assert!(!header.merge_earlier(&from("2026-04-06")));
}

#[test]
fn a_missing_date_is_dropped_rather_than_drawn_on_today() {
    let today = key("2026-09-15");
    assert_eq!(usable_day(0, &today), None);
}

#[test]
fn a_date_after_today_is_dropped() {
    let today = key("2026-09-15");
    let a_year_on = 1_820_000_000_000;
    assert_eq!(usable_day(a_year_on, &today), None);
}

#[test]
fn a_real_date_becomes_the_day_it_falls_on() {
    let today = key("2026-09-15");
    let stamp = 1_789_000_000_000;
    let day = usable_day(stamp, &today).expect("a usable date");
    assert!(day <= today);
    assert_eq!(Some(day), day_key_for_ms(stamp));
}

#[test]
fn videos_and_recordings_both_reach_the_horizon() {
    let today = key("2026-09-15");
    let evidence = collect(&[], &[1_789_000_000_000, 0], &today);
    assert_eq!(evidence.days.len(), 1);
    assert_eq!(evidence.dropped, 1);
    assert_eq!(evidence.earliest(), evidence.days.first_day());
}

#[test]
fn each_item_is_counted_once_on_its_day_as_what_it_is() {
    let today = key("2026-09-15");
    let noon = 1_789_041_600_000;
    let evidence = collect(
        &[noon, noon + 1, 0],
        &[noon + 2, noon - 86_400_000],
        &today,
    );
    let day = day_key_for_ms(noon).expect("a real date");
    assert_eq!(
        evidence.days.get(&day),
        Some(MaterialCounts {
            recordings: 2,
            videos: 1,
        })
    );
    assert_eq!(evidence.days.len(), 2);
    assert_eq!(evidence.dropped, 1);
}

#[test]
fn nothing_recorded_has_no_horizon() {
    let evidence = collect(&[], &[], &key("2026-09-15"));
    assert_eq!(evidence.earliest(), None);
    assert_eq!(evidence.horizon().library, None);
    assert_eq!(evidence.dropped, 0);
}

#[test]
fn sightings_are_counted_by_day_and_kind_and_the_horizon_is_the_earliest() {
    let sighting = |day: Option<&str>, is_video: bool| Sighting {
        day: day.map(key),
        is_video,
    };
    let evidence = collect_sightings(&[
        sighting(Some("2026-09-12"), true),
        sighting(Some("2026-09-03"), false),
        sighting(None, true),
        sighting(Some("2026-09-12"), false),
        sighting(Some("2026-09-12"), true),
    ]);
    assert_eq!(evidence.dropped, 1);
    assert_eq!(
        evidence.days.get(&key("2026-09-12")),
        Some(MaterialCounts { recordings: 1, videos: 2 })
    );
    assert_eq!(evidence.days.get(&key("2026-09-04")), None);
    assert_eq!(evidence.horizon().library, Some(key("2026-09-03")));
    assert_eq!(MaterialCounts::default(), MaterialCounts { recordings: 0, videos: 0 });
}

#[test]
fn every_stamp_is_counted_once_as_what_it_is_or_dropped() {
    let today = key("2026-09-15");
    let noon = 1_789_041_600_000;
    let evidence = collect(&[noon, 0, u64::MAX], &[noon, 1_820_000_000_000], &today);
    let day = day_key_for_ms(noon).expect("a real date");
    assert_eq!(
        evidence.days.get(&day),
        Some(MaterialCounts { recordings: 1, videos: 1 })
    );
    assert_eq!(evidence.dropped, 3);
}
