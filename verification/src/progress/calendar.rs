//! The calendar of days the Progress page draws: what was counted on each, what the
//! library and Anki say of it, and where the span begins.
use vstd::prelude::*;

use super::cards::{earlier_of, CardCounts, CardHistory};
use super::day::{key_lt, previous_day, DayKey};
use super::evidence::{key_text, EvidenceFrom, LibraryEvidence, MaterialCounts};
use super::ledger::{or_zero, Ledger};

verus! {

/// How many days the grid can show.
pub const GRID_DAYS: usize = 371;

/// One day of the span.
#[derive(Debug)]
pub struct CalendarDay {
    pub day: DayKey,
    /// `None` before the store existed: no number, so an uncounted day can never be drawn
    /// as a measured zero.
    pub combined_ms: Option<u64>,
    pub cards: Option<CardCounts>,
    pub material: Option<MaterialCounts>,
}

/// When Anki last answered, and what it could not date.
#[derive(Debug)]
pub struct CardsCounted {
    pub from: Option<DayKey>,
    pub on: DayKey,
    pub at_ms: u64,
    pub undated: u32,
}

/// The calendar as the page reads it, oldest day first.
#[derive(Debug)]
pub struct CalendarSpan {
    pub first_day: Option<DayKey>,
    /// `None` when the store could not be read: then no day was counted, today included.
    pub counted_from: Option<DayKey>,
    pub material_from: Option<DayKey>,
    pub cards: Option<CardsCounted>,
    pub days: Vec<CalendarDay>,
    pub dropped_evidence: u32,
}

/// What the calendar is drawn from besides the store.
pub struct Sources<'a> {
    pub library: &'a LibraryEvidence,
    pub cards: Option<&'a CardHistory>,
}

/// The day `n` days before `day`, stepping back one calendar day at a time.
pub open spec fn steps_back(day: Seq<char>, n: nat) -> Option<Seq<char>>
    decreases n,
{
    if n == 0 {
        Some(day)
    } else {
        match steps_back(day, (n - 1) as nat) {
            Some(d) => previous_day(d),
            None => None,
        }
    }
}

/// Whether `day` is on or after `from`, where there is a `from`.
pub open spec fn on_or_after(day: Seq<char>, from: Option<Seq<char>>) -> bool {
    match from {
        Some(f) => !key_lt(day, f),
        None => false,
    }
}

/// The first day of the span: the earliest of the library's floor, the start of counting
/// and the start of Anki's answer, but no earlier than the grid reaches back from `today`.
pub open spec fn span_start(
    horizon: Option<Seq<char>>,
    counted_from: Option<Seq<char>>,
    cards_from: Option<Seq<char>>,
    today: Seq<char>,
) -> Option<Seq<char>> {
    let earliest = earlier_of(earlier_of(horizon, counted_from), cards_from);
    match (earliest, steps_back(today, (GRID_DAYS - 1) as nat)) {
        (Some(d), Some(w)) => if key_lt(d, w) {
            Some(w)
        } else {
            Some(d)
        },
        (d, None) => d,
        (None, _) => None,
    }
}

/// What the span says of `day`.
pub open spec fn day_matches(
    entry: CalendarDay,
    day: Seq<char>,
    ledger: Ledger,
    library: LibraryEvidence,
    cards: Option<CardHistory>,
    horizon: Option<Seq<char>>,
    counted_from: Option<Seq<char>>,
) -> bool {
    &&& entry.day@ == day
    &&& entry.combined_ms == if on_or_after(day, counted_from) {
        Some(or_zero(ledger.lookup(day)).combined())
    } else {
        None
    }
    &&& entry.cards == match cards {
        Some(h) => h.cards_on(day),
        None => None,
    }
    &&& entry.material == if on_or_after(day, horizon) {
        match library.days.lookup(day) {
            Some(c) => Some(c),
            None => Some(MaterialCounts { recordings: 0, videos: 0 }),
        }
    } else {
        None
    }
}

/// `entry` is the span's day `back` days before `today`, on or after `first`.
pub open spec fn entry_back(
    entry: CalendarDay,
    today: Seq<char>,
    back: nat,
    first: Seq<char>,
    ledger: Ledger,
    library: LibraryEvidence,
    cards: Option<CardHistory>,
    horizon: Option<Seq<char>>,
    counted_from: Option<Seq<char>>,
) -> bool {
    match steps_back(today, back) {
        Some(d) => day_matches(entry, d, ledger, library, cards, horizon, counted_from) && !key_lt(
            d,
            first,
        ),
        None => false,
    }
}

/// The day `by` days before `from`.
pub fn step_back(from: &DayKey, by: usize) -> (r: Option<DayKey>)
    ensures
        key_text(r) == steps_back(from@, by as nat),
{
    let mut day = from.copied();
    let mut i: usize = 0;
    while i < by
        invariant
            i <= by,
            steps_back(from@, i as nat) == Some(day@),
        decreases by - i,
    {
        match day.previous() {
            Some(d) => day = d,
            None => {
                proof {
                    lemma_steps_back_stay_gone(from@, (i + 1) as nat, by as nat);
                }
                return None;
            },
        }
        i = i + 1;
    }
    Some(day)
}

proof fn lemma_steps_back_stay_gone(day: Seq<char>, n: nat, m: nat)
    requires
        n <= m,
        steps_back(day, n) is None,
    ensures
        steps_back(day, m) is None,
    decreases m - n,
{
    if n < m {
        lemma_steps_back_stay_gone(day, n + 1, m);
    }
}

fn opt_copy(d: Option<&DayKey>) -> (r: Option<DayKey>)
    ensures
        key_text(r) == match d {
            Some(k) => Some(k@),
            None => None,
        },
{
    match d {
        Some(k) => Some(k.copied()),
        None => None,
    }
}

/// The earlier of two days, either of which may be missing.
fn earlier(a: Option<DayKey>, b: Option<DayKey>) -> (r: Option<DayKey>)
    ensures
        key_text(r) == earlier_of(key_text(a), key_text(b)),
{
    match (a, b) {
        (None, b) => b,
        (a, None) => a,
        (Some(x), Some(y)) => if y.is_before(&x) {
            Some(y)
        } else {
            Some(x)
        },
    }
}

/// The calendar from today back to the first day of the span, oldest first, at most
/// `GRID_DAYS` days long. `horizon` is the kept library floor, not the live library's, so
/// deleting old recordings lowers a day's count without re-labelling the months before it
/// as unknown.
pub fn build(
    ledger: &Ledger,
    sources: &Sources,
    horizon: &EvidenceFrom,
    counted_from: Option<&DayKey>,
    today: &DayKey,
) -> (span: CalendarSpan)
    ensures
        key_text(span.first_day) == span_start(
            key_text(horizon.library),
            match counted_from {
                Some(f) => Some(f@),
                None => None,
            },
            match sources.cards {
                Some(h) => key_text(h.from),
                None => None,
            },
            today@,
        ),
        key_text(span.counted_from) == match counted_from {
            Some(f) => Some(f@),
            None => None,
        },
        key_text(span.material_from) == key_text(horizon.library),
        span.dropped_evidence == sources.library.dropped,
        match (span.cards, sources.cards) {
            (Some(c), Some(h)) => key_text(c.from) == key_text(h.from) && c.on@ == h.read_on@
                && c.at_ms == h.read_at_ms && c.undated == h.undated,
            (None, None) => true,
            _ => false,
        },
        span.days@.len() <= GRID_DAYS,
        span.first_day is None ==> span.days@.len() == 0,
        forall|i: int|
            0 <= i < span.days@.len() ==> entry_back(
                #[trigger] span.days@[i],
                today@,
                (span.days@.len() - 1 - i) as nat,
                key_text(span.first_day)->0,
                *ledger,
                *sources.library,
                match sources.cards {
                    Some(h) => Some(*h),
                    None => None,
                },
                key_text(horizon.library),
                match counted_from {
                    Some(f) => Some(f@),
                    None => None,
                },
            ),
        span.first_day matches Some(first) ==> (span.days@.len() == GRID_DAYS || match steps_back(
            today@,
            span.days@.len() as nat,
        ) {
            Some(d) => key_lt(d, first@),
            None => true,
        }),
{
    let ghost cf = match counted_from {
        Some(f) => Some(f@),
        None => None,
    };
    let ghost hz = key_text(horizon.library);
    let ghost cards_view = match sources.cards {
        Some(h) => Some(*h),
        None => None,
    };
    let window_start = step_back(today, GRID_DAYS - 1);
    let cards_from = match sources.cards {
        Some(h) => opt_copy(
            match &h.from {
                Some(f) => Some(f),
                None => None,
            },
        ),
        None => None,
    };
    let earliest = earlier(earlier(opt_copy(horizon.library.as_ref()), opt_copy(counted_from)), cards_from);
    let first_day = match (earliest, window_start) {
        (Some(d), Some(w)) => if d.is_before(&w) {
            Some(w)
        } else {
            Some(d)
        },
        (d, None) => d,
        (None, _) => None,
    };
    let mut newest_first: Vec<CalendarDay> = Vec::new();
    if let Some(first) = &first_day {
        let mut cursor = Some(today.copied());
        let mut n: usize = 0;
        while n < GRID_DAYS
            invariant
                n <= GRID_DAYS,
                cf == match counted_from {
                    Some(f) => Some(f@),
                    None => None,
                },
                hz == key_text(horizon.library),
                cards_view == match sources.cards {
                    Some(h) => Some(*h),
                    None => None,
                },
                newest_first@.len() == n,
                key_text(cursor) == steps_back(today@, n as nat),
                forall|j: int|
                    0 <= j < n ==> entry_back(
                        #[trigger] newest_first@[j],
                        today@,
                        j as nat,
                        first@,
                        *ledger,
                        *sources.library,
                        cards_view,
                        hz,
                        cf,
                    ),
            ensures
                n <= GRID_DAYS,
                newest_first@.len() == n,
                forall|j: int|
                    0 <= j < n ==> entry_back(
                        #[trigger] newest_first@[j],
                        today@,
                        j as nat,
                        first@,
                        *ledger,
                        *sources.library,
                        cards_view,
                        hz,
                        cf,
                    ),
                n == GRID_DAYS || match steps_back(today@, n as nat) {
                    Some(d) => key_lt(d, first@),
                    None => true,
                },
            decreases GRID_DAYS - n,
        {
            let day = match cursor {
                Some(d) => d,
                None => break,
            };
            if day.is_before(first) {
                break;
            }
            let counted = match counted_from {
                Some(from) => !day.is_before(from),
                None => false,
            };
            let stocked = match &horizon.library {
                Some(from) => !day.is_before(from),
                None => false,
            };
            let combined_ms = if counted {
                match ledger.get(&day) {
                    Some(t) => Some(t.combined_ms()),
                    None => Some(0u64),
                }
            } else {
                None
            };
            let cards = match sources.cards {
                Some(h) => h.on(&day),
                None => None,
            };
            let material = if stocked {
                match sources.library.days.get(&day) {
                    Some(c) => Some(c),
                    None => Some(MaterialCounts { recordings: 0, videos: 0 }),
                }
            } else {
                None
            };
            cursor = day.previous();
            let ghost d = day@;
            let entry = CalendarDay { day, combined_ms, cards, material };
            proof {
                assert(steps_back(today@, n as nat) == Some(d));
                assert(steps_back(today@, (n + 1) as nat) == previous_day(d));
                assert(entry.combined_ms == if on_or_after(d, cf) {
                    Some(or_zero(ledger.lookup(d)).combined())
                } else {
                    None
                });
                assert(entry.material == if on_or_after(d, hz) {
                    match sources.library.days.lookup(d) {
                        Some(c) => Some(c),
                        None => Some(MaterialCounts { recordings: 0, videos: 0 }),
                    }
                } else {
                    None
                });
                assert(day_matches(entry, d, *ledger, *sources.library, cards_view, hz, cf));
                assert(entry_back(entry, today@, n as nat, first@, *ledger, *sources.library, cards_view, hz, cf));
            }
            newest_first.push(entry);
            n = n + 1;
        }
    }
    let count = newest_first.len();
    let ghost nf = newest_first@;
    proof {
        assert(first_day is None ==> count == 0);
        assert(first_day matches Some(f) ==> forall|j: int|
            0 <= j < count ==> entry_back(#[trigger] nf[j], today@, j as nat, f@, *ledger, *sources.library, cards_view, hz, cf));
        assert(first_day matches Some(f) ==> (count == GRID_DAYS || match steps_back(today@, count as nat) {
            Some(d) => key_lt(d, f@),
            None => true,
        }));
    }
    let mut days: Vec<CalendarDay> = Vec::new();
    let mut k: usize = count;
    while k > 0
        invariant
            k <= count,
            count == nf.len(),
            newest_first@ == nf.take(k as int),
            days@.len() == count - k,
            forall|i: int| 0 <= i < count - k ==> #[trigger] days@[i] == nf[count - 1 - i],
        decreases k,
    {
        k = k - 1;
        assert(newest_first@.len() == k + 1);
        let entry = newest_first.pop().unwrap();
        proof {
            assert(entry == nf[k as int]);
            assert(newest_first@ =~= nf.take(k as int));
        }
        days.push(entry);
    }
    proof {
        if first_day is Some {
            let f = first_day->0;
            assert forall|i: int| 0 <= i < days@.len() implies entry_back(
                #[trigger] days@[i], today@, (days@.len() - 1 - i) as nat, f@, *ledger,
                *sources.library, cards_view, hz, cf) by {
                assert(days@[i] == nf[count - 1 - i]);
            }
        }
    }
    let cards = match sources.cards {
        Some(h) => Some(
            CardsCounted {
                from: opt_copy(
                    match &h.from {
                        Some(f) => Some(f),
                        None => None,
                    },
                ),
                on: h.read_on.copied(),
                at_ms: h.read_at_ms,
                undated: h.undated,
            },
        ),
        None => None,
    };
    CalendarSpan {
        first_day,
        counted_from: opt_copy(counted_from),
        material_from: opt_copy(horizon.library.as_ref()),
        cards,
        days,
        dropped_evidence: sources.library.dropped,
    }
}

/// The calendar for a store that could not be read: the library and Anki can speak, and
/// nothing was counted.
pub fn uncounted(sources: &Sources, horizon: &EvidenceFrom, today: &DayKey) -> (span: CalendarSpan)
    ensures
        span.counted_from is None,
        forall|i: int| 0 <= i < span.days@.len() ==> (#[trigger] span.days@[i]).combined_ms is None,
        key_text(span.material_from) == key_text(horizon.library),
        span.dropped_evidence == sources.library.dropped,
{
    let empty = Ledger::new();
    let span = build(&empty, sources, horizon, None, today);
    assert forall|i: int| 0 <= i < span.days@.len() implies (#[trigger] span.days@[i]).combined_ms is None by {
        let d = steps_back(today@, (span.days@.len() - 1 - i) as nat)->0;
    }
    span
}

} // verus!
