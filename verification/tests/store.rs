use wonder_of_u::progress::day::{DayKey, DAY_ROLLOVER_HOUR};
use wonder_of_u::progress::ledger::DayTotals;
use wonder_of_u::progress::store::{
    Header, ProgressStore, RowFate, RowReading, Sample, SampleItem, RECORD_VERSION,
};

fn key(day: &str) -> DayKey {
    DayKey::new(day)
}

fn sample(taken_at_ms: u64) -> Sample {
    Sample::new(
        taken_at_ms,
        key("2026-09-10"),
        "{\"sources\":[],\"matureAfterDays\":21}".to_string(),
        1_700_000_000_000,
        0,
        vec![SampleItem {
            key: "C:/audio.wav|ja".to_string(),
            fingerprint: "abc123".to_string(),
            content_tokens: 100,
            known_tokens: 58,
        }],
    )
}

#[test]
fn totals_pool_across_items_rather_than_averaging_them() {
    let mut pooled = sample(1);
    pooled.items = vec![
        SampleItem {
            key: "short".to_string(),
            fingerprint: "a".to_string(),
            content_tokens: 2,
            known_tokens: 2,
        },
        SampleItem {
            key: "long".to_string(),
            fingerprint: "b".to_string(),
            content_tokens: 998,
            known_tokens: 500,
        },
    ];
    // Averaging the two items would give 75%. Pooling gives 502/1000.
    assert_eq!(pooled.totals(), (1000, 502));
}

#[test]
fn a_first_run_header_stamps_the_day_and_the_rollover() {
    let header = Header::first_run(key("2026-09-10"), None);
    assert_eq!(header.v, RECORD_VERSION);
    assert_eq!(header.first_run_day.as_str(), "2026-09-10");
    assert_eq!(header.rollover_hour, DAY_ROLLOVER_HOUR);
    assert_eq!(header.history_lost_at_ms, None);
    let replaced = Header::first_run(key("2026-09-10"), Some(1000));
    assert_eq!(replaced.history_lost_at_ms, Some(1000));
}

fn parsed(version: Option<u64>, kind: Option<&str>) -> RowReading {
    RowReading::Parsed {
        version,
        kind: kind.map(str::to_string),
        sample: None,
        day: None,
    }
}

fn day_row(day: &str, listening_ms: u64) -> RowReading {
    RowReading::Parsed {
        version: Some(1),
        kind: Some("day".to_string()),
        sample: None,
        day: Some((
            key(day),
            DayTotals {
                listening_ms,
                ..DayTotals::default()
            },
        )),
    }
}

#[test]
fn two_rows_for_one_date_are_totalled_rather_than_letting_the_last_win() {
    let mut store = ProgressStore::new();
    assert_eq!(store.absorb("a".to_string(), day_row("2026-09-02", 60_000)), RowFate::Day);
    assert_eq!(store.absorb("b".to_string(), day_row("2026-09-02", 30_000)), RowFate::Day);
    assert_eq!(store.days.len(), 1);
    assert_eq!(
        store.days.get(&key("2026-09-02")).unwrap().listening_ms,
        90_000
    );
    assert_eq!(store.damaged, 0);
}

#[test]
fn rows_this_build_cannot_read_are_counted_and_kept_in_order() {
    let mut store = ProgressStore::new();
    assert_eq!(store.absorb("   ".to_string(), RowReading::Unparsed), RowFate::Skipped);
    assert_eq!(store.absorb("torn".to_string(), RowReading::Unparsed), RowFate::Damaged);
    assert_eq!(
        store.absorb("future".to_string(), parsed(Some(99), Some("whatever"))),
        RowFate::Newer
    );
    assert_eq!(
        store.absorb("unversioned".to_string(), parsed(None, Some("sample"))),
        RowFate::Newer
    );
    assert_eq!(
        store.absorb("orphan".to_string(), parsed(Some(1), Some("sample"))),
        RowFate::Damaged
    );
    assert_eq!(
        store.absorb("dateless".to_string(), parsed(Some(1), Some("day"))),
        RowFate::Damaged
    );
    assert_eq!(
        store.absorb("other".to_string(), parsed(Some(1), Some("note"))),
        RowFate::Unknown
    );
    assert_eq!(store.damaged, 3);
    assert_eq!(store.newer, 2);
    assert_eq!(
        store.passthrough,
        vec!["torn", "future", "unversioned", "orphan", "dateless", "other"]
    );
    assert!(store.samples.is_empty());
    assert!(store.days.is_empty());
}

#[test]
fn a_reading_of_this_version_is_kept_as_a_sample() {
    let mut store = ProgressStore::new();
    let reading = RowReading::Parsed {
        version: Some(1),
        kind: Some("sample".to_string()),
        sample: Some(sample(10)),
        day: None,
    };
    assert_eq!(store.absorb("row".to_string(), reading), RowFate::Reading);
    assert_eq!(store.samples.len(), 1);
    assert_eq!(store.samples[0].taken_at_ms, 10);
    assert_eq!(store.samples[0].kind, "sample");
    assert_eq!(store.samples[0].items[0].fingerprint, "abc123");
    assert!(store.passthrough.is_empty());
}

#[test]
fn a_day_before_the_first_run_is_refused_when_the_store_is_floored() {
    let mut store = ProgressStore::new();
    store.absorb("a".to_string(), day_row("2026-09-09", 60_000));
    store.absorb("b".to_string(), day_row("2026-09-10", 60_000));
    assert_eq!(store.days.floor_at(&key("2026-09-10")), 1);
    assert_eq!(store.days.len(), 1);
    assert!(store.days.get(&key("2026-09-09")).is_none());
}
