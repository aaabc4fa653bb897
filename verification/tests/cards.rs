use wonder_of_u::progress::cards::{tally, tally_dated, CardCounts, CardKind, DatedNote};
use wonder_of_u::progress::day::{day_key_for_ms, DayKey};

const SEPT_TENTH: i64 = 1_789_041_600_000;
const HOUR: i64 = 3_600_000;
const DAY: i64 = 24 * HOUR;

fn key(day: &str) -> DayKey {
    DayKey::new(day)
}

fn day_of(note_id: i64) -> DayKey {
    day_key_for_ms(u64::try_from(note_id).expect("positive")).expect("a real date")
}

fn read_on() -> DayKey {
    day_of(SEPT_TENTH + 5 * DAY)
}

#[test]
fn a_note_is_counted_on_the_day_it_was_made_under_its_kind() {
    let notes = [
        (SEPT_TENTH, CardKind::Word),
        (SEPT_TENTH + 1, CardKind::Word),
        (SEPT_TENTH + 2, CardKind::Transcript),
        (SEPT_TENTH + 2 * DAY, CardKind::Unsorted),
    ];
    let history = tally(&notes, 1, read_on(), None);
    let first = history.on(&day_of(SEPT_TENTH)).expect("a counted day");
    assert_eq!((first.word, first.line, first.transcript), (2, 0, 1));
    assert_eq!(first.total(), 3);
    let later = history
        .on(&day_of(SEPT_TENTH + 2 * DAY))
        .expect("a counted day");
    assert_eq!(later.unsorted, 1);
}

#[test]
fn every_note_is_counted_once_even_without_a_usable_date() {
    let notes = [
        (SEPT_TENTH, CardKind::Line),
        (0, CardKind::Line),
        (-5, CardKind::Word),
        (SEPT_TENTH + 400 * DAY, CardKind::Word),
    ];
    let history = tally(&notes, 1, read_on(), None);
    assert_eq!(history.undated, 3);
    assert_eq!(history.total(), notes.len());
}

#[test]
fn a_day_anki_did_not_speak_for_has_no_number() {
    let history = tally(&[(SEPT_TENTH + DAY, CardKind::Word)], 1, read_on(), None);
    let first = day_of(SEPT_TENTH + DAY);
    assert_eq!(history.on(&first.previous().expect("a date")), None);
    assert_eq!(
        history.on(&day_of(SEPT_TENTH + 6 * DAY)),
        None,
        "after the answer"
    );
    assert_eq!(
        history.on(&day_of(SEPT_TENTH + 3 * DAY)),
        Some(CardCounts::default()),
        "a day in between is a counted zero"
    );
    assert_eq!(history.on(&read_on()), Some(CardCounts::default()));
}

#[test]
fn a_collection_without_cards_speaks_for_no_day() {
    let history = tally(&[], 1, read_on(), None);
    assert_eq!(history.from, None);
    assert_eq!(history.on(&read_on()), None);
    assert_eq!(history.total(), 0);
}

#[test]
fn the_start_only_ever_moves_earlier() {
    let notes = [(SEPT_TENTH + 2 * DAY, CardKind::Word)];
    let earlier = key("2026-04-06");
    let kept = tally(&notes, 1, read_on(), Some(earlier.clone()));
    assert_eq!(kept.from, Some(earlier.clone()));
    assert_eq!(kept.on(&earlier), Some(CardCounts::default()));

    let later = day_of(SEPT_TENTH + 4 * DAY);
    let moved = tally(&notes, 1, read_on(), Some(later));
    assert_eq!(moved.from, Some(day_of(SEPT_TENTH + 2 * DAY)));

    let emptied = tally(&[], 1, read_on(), Some(earlier.clone()));
    assert_eq!(emptied.from, Some(earlier));
}

fn dated(day: Option<&str>, kind: CardKind) -> DatedNote {
    DatedNote {
        made_on: day.map(key),
        kind,
    }
}

#[test]
fn a_dated_tally_counts_each_kind_on_its_own_day() {
    let notes = [
        dated(Some("2026-09-12"), CardKind::Line),
        dated(Some("2026-09-10"), CardKind::Word),
        dated(Some("2026-09-12"), CardKind::Line),
        dated(None, CardKind::Transcript),
        dated(Some("2026-09-10"), CardKind::Unsorted),
    ];
    let history = tally_dated(&notes, 7, key("2026-09-15"), Some(key("2026-09-11")));
    assert_eq!(history.v, 1);
    assert_eq!(history.read_at_ms, 7);
    assert_eq!(history.undated, 1);
    assert_eq!(history.from, Some(key("2026-09-10")));
    assert_eq!(history.days.len(), 2);
    assert_eq!(
        history.days.get(&key("2026-09-12")),
        Some(CardCounts { word: 0, line: 2, transcript: 0, unsorted: 0 })
    );
    assert_eq!(
        history.on(&key("2026-09-10")),
        Some(CardCounts { word: 1, line: 0, transcript: 0, unsorted: 1 })
    );
    assert_eq!(history.on(&key("2026-09-09")), None);
    assert_eq!(history.on(&key("2026-09-16")), None);
    assert_eq!(history.on(&key("2026-09-14")), Some(CardCounts::default()));
    assert_eq!(history.total(), 5);
}

#[test]
fn a_day_total_stops_at_the_largest_count() {
    let mut counts = CardCounts { word: u32::MAX, line: 0, transcript: 0, unsorted: 0 };
    counts.add(CardKind::Word);
    assert_eq!(counts.word, u32::MAX);
    counts.add(CardKind::Line);
    assert_eq!(counts.line, 1);
    assert_eq!(counts.total(), u32::MAX);
}
