use wonder_of_u::progress::calendar::{build, uncounted, CalendarDay, CalendarSpan, Sources, GRID_DAYS};
use wonder_of_u::progress::cards::{tally, CardCounts, CardKind};
use wonder_of_u::progress::day::DayKey;
use wonder_of_u::progress::evidence::{collect, EvidenceFrom, LibraryEvidence, MaterialCounts};
use wonder_of_u::progress::ledger::{Credit, ImmersionSource, Ledger};

const APRIL_FIRST: u64 = 1_775_000_000_000;
const NOON_SEPT_TENTH: i64 = 1_789_041_600_000;

fn key(day: &str) -> DayKey {
    DayKey::new(day)
}

fn watched(minutes: &[(&str, u64)]) -> Ledger {
    let mut ledger = Ledger::new();
    for (day, ms) in minutes {
        ledger.credit(
            &key(day),
            ImmersionSource::Watching,
            Credit {
                credited_ms: *ms,
                unmeasured_ms: 0,
            },
            false,
        );
    }
    ledger
}

fn evidence_on(stamps: &[u64], today: &DayKey) -> LibraryEvidence {
    collect(&[], stamps, today)
}

fn library(evidence: &LibraryEvidence) -> Sources<'_> {
    Sources {
        library: evidence,
        cards: None,
    }
}

fn day_in<'a>(span: &'a CalendarSpan, day: &str) -> &'a CalendarDay {
    span.days
        .iter()
        .find(|entry| entry.day == key(day))
        .unwrap_or_else(|| panic!("{day} is not in the span"))
}

#[test]
fn the_day_before_the_store_carries_no_number_at_all() {
    let today = key("2026-09-15");
    let counted_from = key("2026-09-13");
    let evidence = evidence_on(&[APRIL_FIRST], &today);
    let span = build(
        &watched(&[("2026-09-14", 600_000)]),
        &library(&evidence),
        &evidence.horizon(),
        Some(&counted_from),
        &today,
    );
    assert_eq!(
        span.counted_from,
        Some(counted_from.clone()),
        "the horizon is carried"
    );
    let before = counted_from.previous().expect("a real date");
    assert_eq!(day_in(&span, before.as_str()).combined_ms, None);
    assert_eq!(day_in(&span, counted_from.as_str()).combined_ms, Some(0));
    assert_eq!(day_in(&span, "2026-09-14").combined_ms, Some(600_000));
}

#[test]
fn a_store_nobody_could_read_counts_no_day_not_even_today() {
    let today = key("2026-09-16");
    let evidence = evidence_on(&[APRIL_FIRST], &today);
    let span = uncounted(&library(&evidence), &evidence.horizon(), &today);
    assert_eq!(span.counted_from, None);
    assert!(!span.days.is_empty(), "the library still speaks");
    assert!(span.days.iter().all(|entry| entry.combined_ms.is_none()));
    assert_eq!(day_in(&span, "2026-09-16").combined_ms, None);
    assert!(day_in(&span, "2026-09-16").material.is_some());
}

#[test]
fn nothing_to_read_and_nothing_counted_draws_nothing() {
    let today = key("2026-09-16");
    let evidence = evidence_on(&[], &today);
    let span = uncounted(&library(&evidence), &EvidenceFrom::new(), &today);
    assert_eq!(span.first_day, None);
    assert!(span.days.is_empty());
}

#[test]
fn a_counted_day_with_nothing_on_it_is_a_measured_zero() {
    let today = key("2026-09-15");
    let evidence = evidence_on(&[], &today);
    let span = build(
        &watched(&[]),
        &library(&evidence),
        &EvidenceFrom::new(),
        Some(&key("2026-09-14")),
        &today,
    );
    assert_eq!(day_in(&span, "2026-09-14").combined_ms, Some(0));
    assert_eq!(
        day_in(&span, "2026-09-14").material,
        None,
        "no library to count"
    );
}

#[test]
fn the_span_starts_at_the_evidence_when_it_predates_the_store() {
    let today = key("2026-09-15");
    let evidence = evidence_on(&[APRIL_FIRST, APRIL_FIRST + 1], &today);
    let earliest = evidence.earliest().cloned().expect("a date");
    let span = build(
        &watched(&[]),
        &library(&evidence),
        &evidence.horizon(),
        Some(&key("2026-09-13")),
        &today,
    );
    assert_eq!(span.first_day, Some(earliest.clone()));
    assert_eq!(span.material_from, Some(earliest.clone()));
    assert!(earliest < key("2026-09-13"));
    let first = day_in(&span, earliest.as_str());
    assert_eq!(first.combined_ms, None);
    assert_eq!(first.material.map(|counts| counts.videos), Some(2));
}

#[test]
fn material_is_counted_from_the_library_floor_and_never_before_it() {
    let today = key("2026-09-15");
    let evidence = evidence_on(&[], &today);
    let floor = EvidenceFrom {
        library: Some(key("2026-09-10")),
    };
    let span = build(
        &watched(&[]),
        &library(&evidence),
        &floor,
        Some(&key("2026-09-08")),
        &today,
    );
    assert_eq!(day_in(&span, "2026-09-09").material, None);
    assert_eq!(
        day_in(&span, "2026-09-10").material,
        Some(MaterialCounts::default())
    );
    assert_eq!(
        day_in(&span, "2026-09-15").material,
        Some(MaterialCounts::default())
    );
}

#[test]
fn deleting_the_old_recordings_does_not_move_the_span_forward() {
    let today = key("2026-09-15");
    let horizon = evidence_on(&[APRIL_FIRST], &today).horizon();
    let emptied = evidence_on(&[], &today);

    let span = build(
        &watched(&[]),
        &library(&emptied),
        &horizon,
        Some(&key("2026-09-13")),
        &today,
    );
    assert_eq!(span.first_day, horizon.library);
    let earliest = horizon.library.clone().expect("a date");
    let first = day_in(&span, earliest.as_str());
    assert_eq!(
        first.material,
        Some(MaterialCounts::default()),
        "counted, now zero"
    );
    assert_eq!(first.combined_ms, None, "still uncounted, not a zero");
}

#[test]
fn a_day_carries_what_anki_counted_and_nothing_outside_its_answer() {
    let today = key("2026-09-15");
    let made = key("2026-09-10");
    let history = tally(
        &[
            (NOON_SEPT_TENTH, CardKind::Word),
            (NOON_SEPT_TENTH + 1, CardKind::Line),
        ],
        1,
        key("2026-09-13"),
        None,
    );
    let evidence = evidence_on(&[], &today);
    let sources = Sources {
        library: &evidence,
        cards: Some(&history),
    };
    let span = build(
        &watched(&[]),
        &sources,
        &EvidenceFrom::new(),
        Some(&today),
        &today,
    );

    assert_eq!(
        span.first_day,
        Some(made.clone()),
        "the first card opens the span"
    );
    assert_eq!(
        day_in(&span, made.as_str())
            .cards
            .map(|counts| counts.total()),
        Some(2)
    );
    assert_eq!(
        day_in(&span, "2026-09-12").cards,
        Some(CardCounts::default())
    );
    assert_eq!(
        day_in(&span, "2026-09-14").cards,
        None,
        "after the last answer"
    );
    let counted = span.cards.expect("Anki has answered");
    assert_eq!(
        (counted.from, counted.on, counted.at_ms),
        (Some(made), key("2026-09-13"), 1)
    );
}

#[test]
fn without_an_answer_from_anki_no_day_has_cards() {
    let today = key("2026-09-15");
    let evidence = evidence_on(&[APRIL_FIRST], &today);
    let span = build(
        &watched(&[]),
        &library(&evidence),
        &evidence.horizon(),
        Some(&key("2026-09-13")),
        &today,
    );
    assert!(span.cards.is_none());
    assert!(span.days.iter().all(|entry| entry.cards.is_none()));
}

#[test]
fn the_span_ends_on_today_and_runs_oldest_first() {
    let today = key("2026-09-15");
    let evidence = evidence_on(&[], &today);
    let span = build(
        &watched(&[]),
        &library(&evidence),
        &EvidenceFrom::new(),
        Some(&key("2026-09-13")),
        &today,
    );
    assert_eq!(
        span.days.first().map(|entry| &entry.day),
        span.first_day.as_ref()
    );
    assert_eq!(span.days.last().map(|entry| entry.day.clone()), Some(today));
    assert_eq!(span.days.len(), 3);
}

#[test]
fn the_span_never_exceeds_the_grid() {
    let today = key("2026-09-15");
    let evidence = evidence_on(&[1_000_000_000_000], &today);
    let span = build(
        &watched(&[]),
        &library(&evidence),
        &evidence.horizon(),
        Some(&key("2026-09-13")),
        &today,
    );
    assert_eq!(span.days.len(), GRID_DAYS);
}

#[test]
fn a_date_nobody_could_read_is_counted_rather_than_drawn() {
    let today = key("2026-09-15");
    let evidence = evidence_on(&[0, 0], &today);
    let span = build(
        &watched(&[]),
        &library(&evidence),
        &EvidenceFrom::new(),
        Some(&key("2026-09-15")),
        &today,
    );
    assert_eq!(span.dropped_evidence, 2);
    assert_eq!(day_in(&span, "2026-09-15").material, None);
}
