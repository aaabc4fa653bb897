//! Streaks and recent totals, walked back day by day from today.
use vstd::prelude::*;

use super::day::{key_le, key_lt, lemma_key_lt_asymmetric, lemma_key_lt_irreflexive, previous_day, DayKey};
use super::ledger::{DayTotals, Ledger};

verus! {

pub const WEEK_DAYS: usize = 7;

pub const RECENT_DAYS: usize = 30;

/// The most days a walk back from today takes: more than chrono's whole calendar holds, so
/// a walk always ends at the store's first day or the calendar's first day first.
pub const MAX_WALK_DAYS: u64 = 400_000_000;

pub struct StreakReport {
    pub current: usize,
    pub longest: usize,
    pub active_days_30: usize,
    pub today_counted: bool,
}

pub struct ImmersionReport {
    pub today_ms: u64,
    pub week_ms: u64,
    pub today_unmeasured_ms: u64,
    pub counted_from: DayKey,
    pub streak: StreakReport,
}

/// Whether the ledger counts `day` as active.
pub open spec fn day_active(days: Ledger, day: Seq<char>) -> bool {
    match days.lookup(day) {
        Some(t) => t.active(),
        None => false,
    }
}

/// Newest first: the days from `cursor` back, while they are not before `floor`, at most
/// `fuel` of them, each as whether it was active.
pub open spec fn walk(days: Ledger, cursor: Option<Seq<char>>, floor: Seq<char>, fuel: nat) -> Seq<bool>
    decreases fuel,
{
    match cursor {
        None => Seq::empty(),
        Some(day) => if fuel == 0 || key_lt(day, floor) {
            Seq::empty()
        } else {
            seq![day_active(days, day)] + walk(days, previous_day(day), floor, (fuel - 1) as nat)
        },
    }
}

/// The activity series, oldest first. Days before the store existed are absent rather than
/// false: nobody was counting, so they can neither break a streak nor extend one.
pub open spec fn series_spec(days: Ledger, today: Seq<char>, floor: Seq<char>) -> Seq<bool> {
    walk(days, Some(today), floor, MAX_WALK_DAYS as nat).reverse()
}

/// How many days at the end of `s` are on.
pub open spec fn trailing_on(s: Seq<bool>) -> nat
    decreases s.len(),
{
    if s.len() > 0 && s.last() {
        1 + trailing_on(s.drop_last())
    } else {
        0
    }
}

/// The current run: one ending today, or ending yesterday while today is still empty.
pub open spec fn current_run_spec(s: Seq<bool>) -> nat {
    if s.len() == 0 {
        0
    } else if s.last() {
        trailing_on(s)
    } else {
        trailing_on(s.drop_last())
    }
}

/// The longest run of consecutive days on.
pub open spec fn longest_run_spec(s: Seq<bool>) -> nat
    decreases s.len(),
{
    if s.len() == 0 {
        0
    } else {
        let before = longest_run_spec(s.drop_last());
        let here = trailing_on(s);
        if before >= here {
            before
        } else {
            here
        }
    }
}

/// How many of the last `n` days are on.
pub open spec fn recent_on(s: Seq<bool>, n: nat) -> nat
    decreases s.len(),
{
    if s.len() == 0 || n == 0 {
        0
    } else {
        (if s.last() {
            1nat
        } else {
            0nat
        }) + recent_on(s.drop_last(), (n - 1) as nat)
    }
}

/// The combined time of the `span` days from `cursor` back, while they are not before
/// `floor`.
pub open spec fn recent_total(days: Ledger, cursor: Option<Seq<char>>, floor: Seq<char>, span: nat) -> int
    decreases span,
{
    match cursor {
        None => 0,
        Some(day) => if span == 0 || key_lt(day, floor) {
            0
        } else {
            (match days.lookup(day) {
                Some(t) => t.combined() as int,
                None => 0,
            }) + recent_total(days, previous_day(day), floor, (span - 1) as nat)
        },
    }
}

proof fn lemma_recent_total_nonnegative(days: Ledger, cursor: Option<Seq<char>>, floor: Seq<char>, span: nat)
    ensures
        recent_total(days, cursor, floor, span) >= 0,
    decreases span,
{
    match cursor {
        None => {},
        Some(day) => if span > 0 && !key_lt(day, floor) {
            lemma_recent_total_nonnegative(days, previous_day(day), floor, (span - 1) as nat);
        },
    }
}

/// A recent total holds each day it walks over in full, whether that day was active or not:
/// from a day on or after the horizon, it is at least that day's combined time plus what the
/// days before it hold, and so never less than that day's time alone.
pub proof fn law_a_recent_total_counts_each_day_in_full(days: Ledger, day: Seq<char>, floor: Seq<char>, span: nat)
    requires
        span > 0,
        key_le(floor, day),
    ensures
        recent_total(days, Some(day), floor, span) >= (match days.lookup(day) {
            Some(t) => t.combined() as int,
            None => 0,
        }) + recent_total(days, previous_day(day), floor, (span - 1) as nat),
        recent_total(days, Some(day), floor, span) >= (match days.lookup(day) {
            Some(t) => t.combined() as int,
            None => 0,
        }),
{
    if key_lt(floor, day) {
        lemma_key_lt_asymmetric(floor, day);
    } else {
        lemma_key_lt_irreflexive(day);
    }
    lemma_recent_total_nonnegative(days, previous_day(day), floor, (span - 1) as nat);
}

pub open spec fn cap(total: int) -> u64 {
    if total > u64::MAX {
        u64::MAX
    } else {
        total as u64
    }
}

proof fn lemma_trailing_le_len(s: Seq<bool>)
    ensures
        trailing_on(s) <= s.len(),
    decreases s.len(),
{
    if s.len() > 0 && s.last() {
        lemma_trailing_le_len(s.drop_last());
    }
}

proof fn lemma_trailing_le_longest(s: Seq<bool>)
    ensures
        trailing_on(s) <= longest_run_spec(s),
        longest_run_spec(s) <= s.len(),
    decreases s.len(),
{
    lemma_trailing_le_len(s);
    if s.len() > 0 {
        lemma_trailing_le_longest(s.drop_last());
    }
}

/// A current streak is never longer than the longest one, and no run is longer than the
/// days counted.
pub proof fn law_current_run_within_longest(s: Seq<bool>)
    ensures
        current_run_spec(s) <= longest_run_spec(s),
        longest_run_spec(s) <= s.len(),
{
    lemma_trailing_le_longest(s);
    if s.len() > 0 && !s.last() {
        lemma_trailing_le_longest(s.drop_last());
        assert(longest_run_spec(s) >= longest_run_spec(s.drop_last()));
    }
}

/// A run ending today, or ending yesterday when today is still empty.
pub fn current_run(series: &[bool]) -> (n: usize)
    ensures
        n == current_run_spec(series@),
{
    let len = series.len();
    let end = if len > 0 && series[len - 1] {
        len
    } else if len > 0 {
        len - 1
    } else {
        0
    };
    let ghost s = series@.take(end as int);
    proof {
        if len > 0 && !series@[len - 1] {
            assert(s =~= series@.drop_last());
        } else {
            assert(s =~= series@);
        }
    }
    let mut count: usize = 0;
    let mut k = end;
    while k > 0 && series[k - 1]
        invariant
            k <= end <= len == series@.len(),
            s == series@.take(end as int),
            count + k == end,
            trailing_on(s) == count + trailing_on(series@.take(k as int)),
        decreases k,
    {
        proof {
            assert(series@.take(k as int).drop_last() =~= series@.take(k - 1));
        }
        k = k - 1;
        count = count + 1;
    }
    proof {
        if k > 0 {
            assert(!series@.take(k as int).last());
        }
    }
    count
}

/// The longest run of active days.
pub fn longest_run(series: &[bool]) -> (n: usize)
    ensures
        n == longest_run_spec(series@),
{
    let mut longest: usize = 0;
    let mut run: usize = 0;
    let mut i: usize = 0;
    while i < series.len()
        invariant
            i <= series@.len(),
            run == trailing_on(series@.take(i as int)),
            longest == longest_run_spec(series@.take(i as int)),
            run <= i,
        decreases series.len() - i,
    {
        proof {
            assert(series@.take(i + 1).drop_last() =~= series@.take(i as int));
            lemma_trailing_le_len(series@.take(i as int));
        }
        run = if series[i] {
            run + 1
        } else {
            0
        };
        if run > longest {
            longest = run;
        }
        i = i + 1;
    }
    assert(series@.take(series@.len() as int) =~= series@);
    longest
}

/// Whether the ledger counts `day` as active.
fn is_active_on(days: &Ledger, day: &DayKey) -> (b: bool)
    ensures
        b == day_active(*days, day@),
{
    match days.get(day) {
        Some(t) => t.is_active(),
        None => false,
    }
}

/// Oldest first; see `series_spec`.
pub fn active_series(days: &Ledger, today: &DayKey, counted_from: &DayKey) -> (series: Vec<bool>)
    ensures
        series@ == series_spec(*days, today@, counted_from@),
{
    let mut newest_first: Vec<bool> = Vec::new();
    let mut cursor: Option<DayKey> = Some(today.copied());
    let mut fuel: u64 = MAX_WALK_DAYS;
    let mut done = false;
    while !done && fuel > 0
        invariant
            newest_first@ + (if done {
                Seq::<bool>::empty()
            } else {
                walk(*days, cursor_text(cursor), counted_from@, fuel as nat)
            }) == walk(*days, Some(today@), counted_from@, MAX_WALK_DAYS as nat),
        decreases fuel as int + (if done { 0int } else { 1int }),
    {
        match cursor {
            None => {
                done = true;
                assert(newest_first@ + Seq::<bool>::empty() =~= newest_first@);
            },
            Some(day) => {
                if day.is_before(counted_from) {
                    done = true;
                    assert(newest_first@ + Seq::<bool>::empty() =~= newest_first@);
                    cursor = None;
                } else {
                    let on = is_active_on(days, &day);
                    let ghost before = newest_first@;
                    newest_first.push(on);
                    let next = day.previous();
                    proof {
                        assert(before + walk(*days, Some(day@), counted_from@, fuel as nat)
                            =~= newest_first@ + walk(*days, cursor_text(next), counted_from@, (fuel - 1) as nat));
                    }
                    cursor = next;
                    fuel = fuel - 1;
                }
            },
        }
    }
    proof {
        if !done {
            assert(newest_first@ + walk(*days, cursor_text(cursor), counted_from@, 0) =~= newest_first@);
        }
    }
    reversed(&newest_first)
}

pub open spec fn cursor_text(cursor: Option<DayKey>) -> Option<Seq<char>> {
    match cursor {
        Some(d) => Some(d@),
        None => None,
    }
}

/// `v`, last first.
pub fn reversed(v: &Vec<bool>) -> (out: Vec<bool>)
    ensures
        out@ == v@.reverse(),
{
    let mut out: Vec<bool> = Vec::new();
    let mut k = v.len();
    while k > 0
        invariant
            k <= v@.len(),
            out@ == v@.subrange(k as int, v@.len() as int).reverse(),
        decreases k,
    {
        k = k - 1;
        out.push(v[k]);
        proof {
            assert(v@.subrange(k as int, v@.len() as int).reverse() =~= v@.subrange(
                k + 1,
                v@.len() as int,
            ).reverse().push(v@[k as int]));
        }
    }
    assert(v@.subrange(0, v@.len() as int) =~= v@);
    out
}

/// The combined time of the `span` days ending today, from the store's first day on.
pub fn recent_ms(days: &Ledger, today: &DayKey, counted_from: &DayKey, span: usize) -> (total: u64)
    ensures
        total == cap(recent_total(*days, Some(today@), counted_from@, span as nat)),
{
    let mut total: u64 = 0;
    let mut cursor: Option<DayKey> = Some(today.copied());
    let mut left: usize = span;
    let mut done = false;
    let ghost mut exact: int = 0;
    while !done && left > 0
        invariant
            exact >= 0,
            total == cap(exact),
            exact + (if done {
                0
            } else {
                recent_total(*days, cursor_text(cursor), counted_from@, left as nat)
            }) == recent_total(*days, Some(today@), counted_from@, span as nat),
        decreases left as int + (if done { 0int } else { 1int }),
    {
        match cursor {
            None => {
                done = true;
            },
            Some(day) => {
                if day.is_before(counted_from) {
                    done = true;
                    cursor = None;
                } else {
                    let here = match days.get(&day) {
                        Some(t) => t.combined_ms(),
                        None => 0,
                    };
                    total = total.saturating_add(here);
                    proof {
                        exact = exact + here;
                    }
                    cursor = day.previous();
                    left = left - 1;
                }
            },
        }
    }
    total
}

/// Today's time, the week's, today's unmeasured stretch, and the streaks.
pub fn summarise(days: &Ledger, today: &DayKey, counted_from: &DayKey) -> (report: ImmersionReport)
    ensures
        ({
            let s = series_spec(*days, today@, counted_from@);
            &&& report.today_ms == (match days.lookup(today@) {
                Some(t) => t.combined(),
                None => 0,
            })
            &&& report.week_ms == cap(recent_total(*days, Some(today@), counted_from@, WEEK_DAYS as nat))
            &&& key_le(counted_from@, today@) ==> report.week_ms >= report.today_ms
            &&& report.today_unmeasured_ms == (match days.lookup(today@) {
                Some(t) => t.unmeasured_ms,
                None => 0,
            })
            &&& report.counted_from@ == counted_from@
            &&& report.streak.current == current_run_spec(s)
            &&& report.streak.longest == longest_run_spec(s)
            &&& report.streak.active_days_30 == recent_on(s, RECENT_DAYS as nat)
            &&& report.streak.today_counted == (s.len() > 0 && s.last())
        }),
{
    let series = active_series(days, today, counted_from);
    let today_totals = days.get(today);
    let today_ms = match today_totals {
        Some(t) => t.combined_ms(),
        None => 0,
    };
    let today_unmeasured_ms = match today_totals {
        Some(t) => t.unmeasured_ms,
        None => 0,
    };
    let week_ms = recent_ms(days, today, counted_from, WEEK_DAYS);
    proof {
        if key_le(counted_from@, today@) {
            law_a_recent_total_counts_each_day_in_full(*days, today@, counted_from@, WEEK_DAYS as nat);
        }
    }
    let current = current_run(series.as_slice());
    let longest = longest_run(series.as_slice());
    let active_days_30 = count_recent_on(series.as_slice(), RECENT_DAYS);
    let today_counted = series.len() > 0 && series[series.len() - 1];
    ImmersionReport {
        today_ms,
        week_ms,
        today_unmeasured_ms,
        counted_from: counted_from.copied(),
        streak: StreakReport { current, longest, active_days_30, today_counted },
    }
}

/// How many of the last `n` entries of `series` are on.
pub fn count_recent_on(series: &[bool], n: usize) -> (count: usize)
    ensures
        count == recent_on(series@, n as nat),
        count <= n,
{
    let mut count: usize = 0;
    let mut k = series.len();
    let mut left = n;
    assert(series@.take(k as int) =~= series@);
    while k > 0 && left > 0
        invariant
            k <= series@.len(),
            left <= n,
            count <= n - left,
            count + recent_on(series@.take(k as int), left as nat) == recent_on(series@, n as nat),
        decreases k,
    {
        proof {
            assert(series@.take(k as int).drop_last() =~= series@.take(k - 1));
            assert(series@.take(k as int).last() == series@[k - 1]);
        }
        if series[k - 1] {
            count = count + 1;
        }
        k = k - 1;
        left = left - 1;
    }
    proof {
        assert(series@.take(series@.len() as int) =~= series@);
    }
    count
}

} // verus!
