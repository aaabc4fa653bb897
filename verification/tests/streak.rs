use wonder_of_u::progress::day::DayKey;
use wonder_of_u::progress::ledger::{Credit, ImmersionSource, Ledger, ACTIVE_MS};
use wonder_of_u::progress::streak::{current_run, longest_run, summarise, RECENT_DAYS};

fn key(day: &str) -> DayKey {
    DayKey::new(day)
}

fn ledger_of(active_days: &[&str], minutes: u64) -> Ledger {
    let mut ledger = Ledger::new();
    for day in active_days {
        ledger.credit(
            &key(day),
            ImmersionSource::Watching,
            Credit {
                credited_ms: minutes,
                unmeasured_ms: 0,
            },
            false,
        );
    }
    ledger
}

#[test]
fn the_day_before_a_key_is_the_day_before_it() {
    assert_eq!(key("2026-03-01").previous(), Some(key("2026-02-28")));
    assert_eq!(key("2026-01-01").previous(), Some(key("2025-12-31")));
}

#[test]
fn an_unbroken_run_ending_today_is_the_current_streak() {
    assert_eq!(current_run(&[true, true, true]), 3);
    assert_eq!(longest_run(&[true, true, true]), 3);
}

#[test]
fn a_streak_does_not_read_zero_before_the_day_has_started() {
    assert_eq!(current_run(&[true, true, false]), 2);
}

#[test]
fn two_days_missed_ends_the_run() {
    assert_eq!(current_run(&[true, true, false, false]), 0);
    assert_eq!(longest_run(&[true, true, false, false]), 2);
}

#[test]
fn the_longest_run_is_not_the_one_at_the_end() {
    assert_eq!(longest_run(&[true, true, true, false, true]), 3);
    assert_eq!(current_run(&[true, true, true, false, true]), 1);
}

#[test]
fn nothing_measured_is_no_streak_rather_than_a_broken_one() {
    assert_eq!(current_run(&[]), 0);
    assert_eq!(longest_run(&[]), 0);
    assert_eq!(current_run(&[false]), 0);
}

#[test]
fn a_run_reaching_the_horizon_is_not_broken_by_it() {
    let ledger = ledger_of(&["2026-09-13", "2026-09-14", "2026-09-15"], ACTIVE_MS);
    let report = summarise(&ledger, &key("2026-09-15"), &key("2026-09-13"));
    assert_eq!(report.streak.current, 3);
    assert_eq!(report.streak.longest, 3);
    assert!(report.streak.today_counted);
}

#[test]
fn a_day_under_the_threshold_does_not_count() {
    let ledger = ledger_of(&["2026-09-15"], ACTIVE_MS - 1);
    let report = summarise(&ledger, &key("2026-09-15"), &key("2026-09-10"));
    assert_eq!(report.streak.current, 0);
    assert!(!report.streak.today_counted);
}

#[test]
fn the_week_covers_seven_days_and_stops_at_the_horizon() {
    let ledger = ledger_of(
        &[
            "2026-09-09",
            "2026-09-10",
            "2026-09-11",
            "2026-09-12",
            "2026-09-13",
            "2026-09-14",
            "2026-09-15",
        ],
        60_000,
    );
    let whole = summarise(&ledger, &key("2026-09-15"), &key("2026-09-01"));
    assert_eq!(whole.week_ms, 7 * 60_000);
    assert_eq!(whole.today_ms, 60_000);

    let floored = summarise(&ledger, &key("2026-09-15"), &key("2026-09-13"));
    assert_eq!(floored.week_ms, 3 * 60_000, "only what the store can speak for");
}

fn consecutive_days_back_from(last: &str, count: usize) -> Vec<DayKey> {
    let mut days = vec![key(last)];
    while days.len() < count {
        days.push(days.last().expect("seeded").previous().expect("a real date"));
    }
    days
}

#[test]
fn the_series_runs_oldest_first() {
    let ledger = ledger_of(&["2026-09-14", "2026-09-15"], ACTIVE_MS);
    let report = summarise(&ledger, &key("2026-09-15"), &key("2026-09-12"));
    assert_eq!(report.streak.current, 2);
    assert_eq!(report.streak.longest, 2);
}

#[test]
fn the_week_is_seven_days_and_not_an_eighth() {
    let days = consecutive_days_back_from("2026-09-15", 8);
    let mut ledger = Ledger::new();
    for day in &days {
        ledger.credit(
            day,
            ImmersionSource::Watching,
            Credit {
                credited_ms: 60_000,
                unmeasured_ms: 0,
            },
            false,
        );
    }
    let report = summarise(&ledger, &key("2026-09-15"), &key("2026-01-01"));
    assert_eq!(report.week_ms, 7 * 60_000, "the eighth day is not this week");
}

#[test]
fn the_recent_count_is_thirty_days_and_not_a_thirty_first() {
    let days = consecutive_days_back_from("2026-09-15", RECENT_DAYS + 1);
    let mut ledger = Ledger::new();
    for day in &days {
        ledger.credit(
            day,
            ImmersionSource::Watching,
            Credit {
                credited_ms: ACTIVE_MS,
                unmeasured_ms: 0,
            },
            false,
        );
    }
    let report = summarise(&ledger, &key("2026-09-15"), &key("2026-01-01"));
    assert_eq!(report.streak.active_days_30, RECENT_DAYS);
    assert_eq!(report.streak.longest, RECENT_DAYS + 1, "the run itself is longer");
}

#[test]
fn an_unreadable_key_ends_the_walk_after_itself() {
    let ledger = ledger_of(&["not-a-date"], ACTIVE_MS);
    let report = summarise(&ledger, &key("not-a-date"), &key("0"));
    assert_eq!(report.streak.current, 1);
    assert_eq!(report.streak.longest, 1);
}

#[test]
fn the_rollover_is_the_documented_four() {
    assert_eq!(wonder_of_u::progress::day::DAY_ROLLOVER_HOUR, 4);
}
