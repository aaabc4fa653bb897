use wonder_of_u::progress::measured::{Measured, MeasuredStatus};
use wonder_of_u::progress::report::{compare_items, coverage_verdict, CoverageVerdict, ItemComparison};
use wonder_of_u::progress::store::SampleItem;

fn item(key: &str, fingerprint: &str, content: u32, known: u32) -> SampleItem {
    SampleItem {
        key: key.to_string(),
        fingerprint: fingerprint.to_string(),
        content_tokens: content,
        known_tokens: known,
    }
}

#[test]
fn a_fixed_corpus_is_compared_item_for_item() {
    let comparison = compare_items(&[item("a", "f1", 100, 50)], &[item("a", "f1", 100, 60)])
        .expect("comparable");
    assert_eq!(
        comparison,
        ItemComparison {
            earlier_content: 100,
            earlier_known: 50,
            later_content: 100,
            later_known: 60,
            items_compared: 1,
            items_added: 0,
            items_changed: 0,
        }
    );
}

#[test]
fn material_added_since_the_earlier_reading_is_held_out() {
    let comparison = compare_items(
        &[item("a", "f1", 100, 50)],
        &[item("a", "f1", 100, 50), item("b", "f9", 100, 100)],
    )
    .expect("comparable");
    assert_eq!(comparison.items_compared, 1);
    assert_eq!(comparison.items_added, 1);
    assert_eq!((comparison.later_content, comparison.later_known), (100, 50));
}

#[test]
fn a_transcript_whose_text_changed_is_not_compared_with_its_past() {
    assert_eq!(
        compare_items(&[item("a", "old", 100, 50)], &[item("a", "new", 100, 90)]),
        None
    );
    let comparison = compare_items(
        &[item("a", "old", 100, 50), item("b", "same", 100, 50)],
        &[item("a", "new", 100, 99), item("b", "same", 100, 60)],
    )
    .expect("comparable");
    assert_eq!(comparison.items_changed, 1);
    assert_eq!(comparison.items_compared, 1);
    assert_eq!((comparison.earlier_known, comparison.later_known), (50, 60));
}

#[test]
fn the_change_is_pooled_across_transcripts() {
    let comparison = compare_items(
        &[item("short", "f1", 2, 0), item("long", "f2", 998, 500)],
        &[item("short", "f1", 2, 2), item("long", "f2", 998, 500)],
    )
    .expect("comparable");
    assert_eq!((comparison.earlier_content, comparison.earlier_known), (1000, 500));
    assert_eq!((comparison.later_content, comparison.later_known), (1000, 502));
}

#[test]
fn a_repeated_key_is_looked_up_as_its_last_entry() {
    let comparison = compare_items(
        &[item("a", "f1", 10, 1), item("a", "f2", 20, 2)],
        &[item("a", "f2", 20, 5)],
    )
    .expect("comparable");
    assert_eq!((comparison.earlier_content, comparison.earlier_known), (20, 2));
}

#[test]
fn nothing_with_content_is_nothing_to_compare() {
    assert_eq!(compare_items(&[], &[]), None);
    assert_eq!(
        compare_items(&[item("a", "f1", 0, 0)], &[item("a", "f1", 0, 0)]),
        None
    );
}

#[test]
fn only_an_unavailable_number_is_empty() {
    let known = Measured::known(42_u32, 1_700_000_000_000);
    assert_eq!(known.value(), &Some(42));
    assert_eq!(known.status(), MeasuredStatus::Known);
    assert_eq!(known.as_of_ms(), Some(1_700_000_000_000));
    assert_eq!(known.reason(), None);

    let missing = Measured::<u32>::unavailable("Anki is not open.".to_string());
    assert_eq!(missing.value(), &None);
    assert_eq!(missing.status(), MeasuredStatus::Unavailable);
    assert_eq!(missing.as_of_ms(), None);
    assert_eq!(missing.reason(), Some("Anki is not open."));

    let stale = Measured::stale(7_u32, 100, "The word list changed.".to_string());
    assert_eq!(stale.value(), &Some(7));
    assert_eq!(stale.status(), MeasuredStatus::Stale);
    let partial = Measured::partial(7_u32, 100, "One file could not be read.".to_string());
    assert_eq!(partial.status(), MeasuredStatus::Partial);
    assert_eq!(partial.as_of_ms(), Some(100));
}

#[test]
fn coverage_says_why_it_cannot_be_trusted() {
    assert_eq!(
        coverage_verdict(None),
        CoverageVerdict::Unavailable(
            "Nothing has been measured yet. Refresh your word list to take a first reading."
                .to_string()
        )
    );
    assert_eq!(
        coverage_verdict(Some((0, true, 0))),
        CoverageVerdict::Unavailable("The last reading found no Japanese text to measure.".to_string())
    );
    assert_eq!(
        coverage_verdict(Some((100, false, 2))),
        CoverageVerdict::Stale(
            "Your vocabulary settings changed after this reading. Refresh your word list for a current one."
                .to_string()
        )
    );
    let CoverageVerdict::Partial(reason) = coverage_verdict(Some((100, true, 2))) else {
        panic!("a reading that missed transcripts is partial");
    };
    assert!(reason.contains("2 transcripts"), "{reason}");
    assert_eq!(
        coverage_verdict(Some((100, true, 1))),
        CoverageVerdict::Partial(
            "1 transcript could not be read, so this covers less than your whole library.".to_string()
        )
    );
    assert_eq!(coverage_verdict(Some((100, true, 0))), CoverageVerdict::Known);
}
