use wonder_of_u::progress::day::DayKey;
use wonder_of_u::progress::ledger::{Credit, DayTotals, ImmersionSource, Ledger};

fn key(day: &str) -> DayKey {
    DayKey::new(day)
}

fn credited(ms: u64) -> Credit {
    Credit {
        credited_ms: ms,
        unmeasured_ms: 0,
    }
}

#[test]
fn two_credits_on_one_day_add_rather_than_replace() {
    let mut ledger = Ledger::new();
    let today = key("2026-09-14");
    ledger.credit(&today, ImmersionSource::Listening, credited(60_000), false);
    ledger.credit(&today, ImmersionSource::Listening, credited(30_000), false);
    assert_eq!(ledger.len(), 1);
    assert_eq!(ledger.get(&today).unwrap().listening_ms, 90_000);
}

#[test]
fn each_day_gets_its_own_row() {
    let mut ledger = Ledger::new();
    ledger.credit(&key("2026-09-14"), ImmersionSource::Listening, credited(60_000), false);
    ledger.credit(&key("2026-09-15"), ImmersionSource::Listening, credited(60_000), false);
    assert_eq!(ledger.len(), 2);
}

#[test]
fn the_two_surfaces_are_counted_apart() {
    let mut ledger = Ledger::new();
    let today = key("2026-09-14");
    ledger.credit(&today, ImmersionSource::Listening, credited(60_000), false);
    ledger.credit(&today, ImmersionSource::Watching, credited(90_000), false);
    let totals = ledger.get(&today).unwrap();
    assert_eq!(totals.listening_ms, 60_000);
    assert_eq!(totals.watching_ms, 90_000);
    assert_eq!(totals.combined_ms(), 150_000);
}

#[test]
fn time_both_sources_were_live_is_counted_once() {
    let mut ledger = Ledger::new();
    let today = key("2026-09-14");
    ledger.credit(&today, ImmersionSource::Watching, credited(60_000), false);
    ledger.credit(&today, ImmersionSource::Listening, credited(60_000), true);
    let totals = ledger.get(&today).unwrap();
    assert_eq!(totals.listening_ms + totals.watching_ms, 120_000);
    assert_eq!(totals.overlap_ms, 60_000);
    assert_eq!(totals.combined_ms(), 60_000);
}

#[test]
fn overlap_never_costs_more_than_the_smaller_surface_measured() {
    let mut ledger = Ledger::new();
    let today = key("2026-09-14");
    ledger.credit(&today, ImmersionSource::Listening, credited(1_000), true);
    ledger.credit(&today, ImmersionSource::Listening, credited(1_000), true);
    let totals = ledger.get(&today).unwrap();
    assert_eq!(totals.overlap_ms, 2_000);
    assert_eq!(totals.watching_ms, 0);
    assert_eq!(
        totals.combined_ms(),
        2_000,
        "there was nothing to overlap with"
    );
}

#[test]
fn a_stretch_booked_by_both_sides_is_still_subtracted_once() {
    let mut ledger = Ledger::new();
    let today = key("2026-09-14");
    ledger.credit(&today, ImmersionSource::Watching, credited(60_000), true);
    ledger.credit(&today, ImmersionSource::Listening, credited(60_000), true);
    let totals = ledger.get(&today).unwrap();
    assert_eq!(totals.overlap_ms, 120_000, "both sides booked it");
    assert_eq!(totals.combined_ms(), 60_000);
}

#[test]
fn unmeasured_time_accumulates_without_being_credited() {
    let mut ledger = Ledger::new();
    let today = key("2026-09-14");
    ledger.credit(
        &today,
        ImmersionSource::Listening,
        Credit {
            credited_ms: 0,
            unmeasured_ms: 9 * 60 * 60 * 1_000,
        },
        false,
    );
    let totals = ledger.get(&today).unwrap();
    assert_eq!(totals.combined_ms(), 0);
    assert_eq!(totals.unmeasured_ms, 9 * 60 * 60 * 1_000);
}

#[test]
fn a_day_is_active_at_a_minute_or_on_a_mining_act() {
    let mut ledger = Ledger::new();
    let quiet = key("2026-09-14");
    ledger.credit(&quiet, ImmersionSource::Listening, credited(59_999), false);
    assert!(!ledger.get(&quiet).unwrap().is_active());

    ledger.credit(&quiet, ImmersionSource::Listening, credited(1), false);
    assert!(ledger.get(&quiet).unwrap().is_active());

    let mined = key("2026-09-15");
    ledger.mark_mined(&mined);
    assert_eq!(ledger.get(&mined).unwrap().combined_ms(), 0);
    assert!(ledger.get(&mined).unwrap().is_active(), "a mined day counts");
    assert_eq!(ledger.active_days(), 2);
}

#[test]
fn a_mining_act_cannot_be_undone_by_a_later_merge() {
    let mut ledger = Ledger::new();
    let today = key("2026-09-14");
    ledger.mark_mined(&today);
    let mut later = Ledger::new();
    later.credit(&today, ImmersionSource::Listening, credited(1_000), false);
    ledger.merge(&later);
    assert!(ledger.get(&today).unwrap().mined);
}

#[test]
fn a_mining_act_arriving_in_a_merge_marks_the_day() {
    let mut ledger = Ledger::new();
    let today = key("2026-09-14");
    ledger.credit(&today, ImmersionSource::Listening, credited(1_000), false);
    assert!(!ledger.get(&today).unwrap().mined);

    let mut later = Ledger::new();
    later.mark_mined(&today);
    ledger.merge(&later);
    assert!(ledger.get(&today).unwrap().mined, "the act came in with the merge");
}

#[test]
fn merging_adds_every_field() {
    let mut left = Ledger::new();
    let today = key("2026-09-14");
    left.credit(&today, ImmersionSource::Listening, credited(60_000), false);

    let mut right = Ledger::new();
    right.credit(&today, ImmersionSource::Watching, credited(30_000), true);
    right.credit(
        &today,
        ImmersionSource::Listening,
        Credit {
            credited_ms: 0,
            unmeasured_ms: 5_000,
        },
        false,
    );

    left.merge(&right);
    let totals = left.get(&today).unwrap();
    assert_eq!(totals.listening_ms, 60_000);
    assert_eq!(totals.watching_ms, 30_000);
    assert_eq!(totals.overlap_ms, 30_000);
    assert_eq!(totals.unmeasured_ms, 5_000);
}

#[test]
fn days_before_the_store_existed_are_dropped() {
    let mut ledger = Ledger::new();
    ledger.credit(&key("2026-09-12"), ImmersionSource::Listening, credited(1), false);
    ledger.credit(&key("2026-09-13"), ImmersionSource::Listening, credited(1), false);
    ledger.credit(&key("2026-09-14"), ImmersionSource::Listening, credited(1), false);

    assert_eq!(ledger.floor_at(&key("2026-09-13")), 1);
    assert_eq!(ledger.len(), 2);
    assert!(ledger.get(&key("2026-09-12")).is_none());
    assert!(ledger.get(&key("2026-09-13")).is_some(), "the first day is kept");
}

#[test]
fn rows_come_out_oldest_first_whatever_order_they_went_in() {
    let mut ledger = Ledger::new();
    for day in ["2026-09-15", "2026-09-13", "2026-09-14", "2026-09-13"] {
        ledger.credit(&key(day), ImmersionSource::Watching, credited(10), false);
    }
    let days: Vec<String> = (0..ledger.len())
        .map(|i| ledger.entry(i).0.as_str().to_string())
        .collect();
    assert_eq!(days, ["2026-09-13", "2026-09-14", "2026-09-15"]);
    assert_eq!(ledger.entry(0).1.watching_ms, 20);
}

#[test]
fn a_saturated_day_stays_at_the_ceiling() {
    let mut totals = DayTotals {
        listening_ms: u64::MAX,
        ..DayTotals::default()
    };
    totals.add(&DayTotals {
        listening_ms: 5,
        mined: true,
        ..DayTotals::default()
    });
    assert_eq!(totals.listening_ms, u64::MAX);
    assert!(totals.mined);
}
