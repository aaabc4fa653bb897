use wonder_of_u::progress::day::DayKey;
use wonder_of_u::progress::level::{
    distinct_readings, level_step, versions, word_lists, word_point, NotCompared,
};
use wonder_of_u::progress::report::{compare, latest_comparison};
use wonder_of_u::progress::store::{Sample, SampleItem};

fn build(note_type: &str) -> String {
    format!("{{\"sources\":[{{\"noteType\":\"{note_type}\",\"field\":\"Word\"}}],\"matureAfterDays\":21}}")
}

fn item(key: &str, fingerprint: &str, known: u32) -> SampleItem {
    SampleItem {
        key: key.to_string(),
        fingerprint: fingerprint.to_string(),
        content_tokens: 100,
        known_tokens: known,
    }
}

/// A reading at `taken_at_ms` with the word list built at `list`.
fn reading(taken_at_ms: u64, list: u64, note_type: &str, items: Vec<SampleItem>) -> Sample {
    Sample::new(taken_at_ms, DayKey::new("2026-09-10"), build(note_type), list, 0, items)
}

#[test]
fn a_reading_that_repeats_the_one_before_is_counted_once() {
    let same = vec![item("a", "f1", 50)];
    let samples = vec![
        reading(1, 100, "Kaishi", same.clone()),
        reading(2, 100, "Kaishi", same.clone()),
        reading(3, 200, "Kaishi", same.clone()),
        reading(4, 300, "Kaishi", vec![item("a", "f1", 51)]),
        reading(5, 400, "Lapis", vec![item("a", "f1", 51)]),
    ];
    assert_eq!(
        distinct_readings(&samples),
        3,
        "a rebuilt list that read the same repeats"
    );
}

#[test]
fn readings_with_one_word_list_are_one_version() {
    let samples = vec![
        reading(1, 100, "Kaishi", vec![item("a", "f1", 50)]),
        reading(2, 100, "Kaishi", vec![item("a", "f1", 50), item("hard", "h", 5)]),
        reading(3, 200, "Kaishi", vec![item("a", "f1", 51), item("hard", "h", 5)]),
    ];
    assert_eq!(versions(&samples), vec![(0, 1), (2, 2)]);
    assert_eq!(word_lists(&samples), vec![(0, 2), (2, 3)]);
}

#[test]
fn a_word_list_rebuilt_with_identical_results_joins_the_version_before() {
    let same = vec![item("a", "f1", 50)];
    let samples = vec![
        reading(1, 100, "Kaishi", same.clone()),
        reading(2, 200, "Kaishi", same),
        reading(3, 300, "Kaishi", vec![item("a", "f1", 52)]),
    ];
    assert_eq!(versions(&samples), vec![(0, 1), (2, 2)]);
    assert_eq!(word_lists(&samples), vec![(0, 1), (1, 2), (2, 3)], "a count belongs to a list");
}

#[test]
fn a_word_count_under_other_settings_is_marked() {
    let first = word_point(1, 1_000, &build("Kaishi"), None);
    let second = word_point(2, 1_000, &build("Lapis"), Some(&build("Kaishi")));
    let third = word_point(3, 1_200, &build("Lapis"), Some(&build("Lapis")));
    assert!(!first.settings_changed);
    assert!(second.settings_changed);
    assert!(!third.settings_changed);
    assert_eq!((second.at_ms, second.words), (2, 1_000));
}

#[test]
fn a_step_says_why_it_was_not_compared() {
    let before = reading(1, 100, "Kaishi", vec![item("a", "f1", 50)]);
    let other_settings = reading(3, 300, "Lapis", vec![item("a", "f1", 90)]);
    let rewritten = reading(2, 200, "Kaishi", vec![item("a", "rewritten", 70)]);
    let next = reading(2, 200, "Kaishi", vec![item("a", "f1", 53)]);
    assert_eq!(level_step(&before, &other_settings), (None, Some(NotCompared::SettingsChanged)));
    assert_eq!(level_step(&before, &rewritten), (None, Some(NotCompared::NothingInCommon)));
    let (step, reason) = level_step(&before, &next);
    assert_eq!(reason, None);
    let step = step.expect("comparable");
    assert_eq!((step.earlier_known, step.later_known, step.items_compared), (50, 53, 1));
}

#[test]
fn samples_from_different_vocabulary_settings_are_not_comparable() {
    let earlier = reading(1, 100, "Kaishi", vec![item("a", "f1", 50)]);
    let later = reading(2, 200, "Lapis", vec![item("a", "f1", 60)]);
    assert_eq!(compare(&earlier, &later), None);
}

#[test]
fn the_comparison_reaches_past_an_incomparable_neighbour() {
    let samples = vec![
        reading(1, 100, "Kaishi", vec![item("a", "f1", 50)]),
        reading(2, 200, "Lapis", vec![item("a", "f1", 10)]),
        reading(3, 300, "Kaishi", vec![item("a", "f1", 70)]),
    ];
    let (taken_at, comparison) = latest_comparison(&samples).expect("comparable with the first");
    assert_eq!(taken_at, 1);
    assert_eq!((comparison.earlier_known, comparison.later_known), (50, 70));
    assert_eq!(latest_comparison(&samples[..1]), None);
    assert_eq!(latest_comparison(&[]), None);
}
