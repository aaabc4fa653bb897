//! Local days, as `YYYY-MM-DD` keys, and the ordered tables that are keyed by them.
use vstd::prelude::*;

use chrono::{Local, TimeZone};

use crate::text::chars_of;

verus! {

/// When a new day begins locally: 23:30 and 00:30 are one sitting.
pub const DAY_ROLLOVER_HOUR: i64 = 4;

/// The local day a moment belongs to, as `YYYY-MM-DD`.
#[derive(Debug, Clone, PartialEq, Eq, PartialOrd, Ord, Hash)]
pub struct DayKey {
    text: String,
}

impl View for DayKey {
    type V = Seq<char>;

    closed spec fn view(&self) -> Seq<char> {
        self.text@
    }
}

/// Strict lexicographic order on characters, which is the order `String` compares in.
pub open spec fn key_lt(a: Seq<char>, b: Seq<char>) -> bool
    decreases a.len(),
{
    if a.len() == 0 {
        b.len() > 0
    } else if b.len() == 0 {
        false
    } else if a[0] != b[0] {
        a[0] < b[0]
    } else {
        key_lt(a.drop_first(), b.drop_first())
    }
}

pub open spec fn key_le(a: Seq<char>, b: Seq<char>) -> bool {
    key_lt(a, b) || a == b
}

pub proof fn lemma_key_lt_irreflexive(a: Seq<char>)
    ensures
        !key_lt(a, a),
    decreases a.len(),
{
    if a.len() > 0 {
        lemma_key_lt_irreflexive(a.drop_first());
    }
}

pub proof fn lemma_key_lt_transitive(a: Seq<char>, b: Seq<char>, c: Seq<char>)
    requires
        key_lt(a, b),
        key_lt(b, c),
    ensures
        key_lt(a, c),
    decreases a.len(),
{
    if a.len() > 0 && b.len() > 0 && c.len() > 0 {
        if a[0] == b[0] && b[0] == c[0] {
            lemma_key_lt_transitive(a.drop_first(), b.drop_first(), c.drop_first());
        }
    }
}

pub proof fn lemma_key_lt_total(a: Seq<char>, b: Seq<char>)
    ensures
        key_lt(a, b) || key_lt(b, a) || a == b,
    decreases a.len(),
{
    if a.len() > 0 && b.len() > 0 {
        if a[0] == b[0] {
            lemma_key_lt_total(a.drop_first(), b.drop_first());
            if a.drop_first() == b.drop_first() {
                assert(a =~= seq![a[0]] + a.drop_first());
                assert(b =~= seq![b[0]] + b.drop_first());
            }
        }
    } else if a.len() == 0 && b.len() == 0 {
        assert(a =~= b);
    }
}

pub proof fn lemma_key_lt_asymmetric(a: Seq<char>, b: Seq<char>)
    requires
        key_lt(a, b),
    ensures
        !key_lt(b, a),
        a != b,
{
    lemma_key_lt_irreflexive(a);
    if key_lt(b, a) {
        lemma_key_lt_transitive(a, b, a);
    }
}

proof fn lemma_key_lt_common_prefix(a: Seq<char>, b: Seq<char>, i: int)
    requires
        0 <= i <= a.len(),
        i <= b.len(),
        a.take(i) == b.take(i),
    ensures
        key_lt(a, b) == key_lt(a.skip(i), b.skip(i)),
    decreases i,
{
    if i > 0 {
        assert(a[0] == a.take(i)[0]);
        assert(b[0] == b.take(i)[0]);
        assert(a.drop_first().take(i - 1) =~= a.take(i).drop_first());
        assert(b.drop_first().take(i - 1) =~= b.take(i).drop_first());
        assert(a.drop_first().skip(i - 1) =~= a.skip(i));
        assert(b.drop_first().skip(i - 1) =~= b.skip(i));
        lemma_key_lt_common_prefix(a.drop_first(), b.drop_first(), i - 1);
    } else {
        assert(a.skip(0) =~= a);
        assert(b.skip(0) =~= b);
    }
}

/// The outcome of comparing two keys.
#[derive(Debug, Clone, Copy, PartialEq, Eq, Structural)]
pub enum KeyOrder {
    Less,
    Equal,
    Greater,
}

/// Compares two character sequences in `String` order.
pub fn compare_chars(a: &[char], b: &[char]) -> (r: KeyOrder)
    ensures
        r == KeyOrder::Less <==> key_lt(a@, b@),
        r == KeyOrder::Equal <==> a@ == b@,
        r == KeyOrder::Greater <==> key_lt(b@, a@),
{
    let mut i: usize = 0;
    while i < a.len() && i < b.len() && a[i] == b[i]
        invariant
            i <= a@.len(),
            i <= b@.len(),
            a@.take(i as int) == b@.take(i as int),
        decreases a.len() - i,
    {
        proof {
            assert(a@.take(i + 1) =~= a@.take(i as int).push(a@[i as int]));
            assert(b@.take(i + 1) =~= b@.take(i as int).push(b@[i as int]));
        }
        i = i + 1;
    }
    proof {
        lemma_key_lt_common_prefix(a@, b@, i as int);
        lemma_key_lt_common_prefix(b@, a@, i as int);
        lemma_key_lt_irreflexive(a@);
    }
    if i < a.len() && i < b.len() {
        proof {
            assert(a@.skip(i as int)[0] == a@[i as int]);
            assert(b@.skip(i as int)[0] == b@[i as int]);
            assert(a@[i as int] != b@[i as int]);
            assert(a@ != b@);
        }
        if a[i] < b[i] {
            proof { lemma_key_lt_asymmetric(a@, b@); }
            KeyOrder::Less
        } else {
            proof { lemma_key_lt_asymmetric(b@, a@); }
            KeyOrder::Greater
        }
    } else if i < a.len() {
        proof {
            assert(a@ != b@) by {
                assert(a@.len() != b@.len());
            }
            lemma_key_lt_asymmetric(b@, a@);
        }
        KeyOrder::Greater
    } else if i < b.len() {
        proof {
            assert(a@ != b@) by {
                assert(a@.len() != b@.len());
            }
            lemma_key_lt_asymmetric(a@, b@);
        }
        KeyOrder::Less
    } else {
        assert(a@ =~= a@.take(i as int));
        assert(b@ =~= b@.take(i as int));
        KeyOrder::Equal
    }
}

impl DayKey {
    /// The key whose text is `text`.
    pub fn new(text: &str) -> (key: DayKey)
        ensures
            key@ == text@,
    {
        DayKey { text: text.to_owned() }
    }

    pub fn as_str(&self) -> (s: &str)
        ensures
            s@ == self@,
    {
        self.text.as_str()
    }

    /// The same key, as a separate value.
    pub fn copied(&self) -> (key: DayKey)
        ensures
            key@ == self@,
    {
        DayKey { text: self.text.clone() }
    }

    /// The characters of the key.
    pub fn chars(&self) -> (out: Vec<char>)
        ensures
            out@ == self@,
    {
        chars_of(self.text.as_str())
    }

    /// `self` against `other`, in the order rows and streaks are kept in.
    pub fn compare(&self, other: &DayKey) -> (r: KeyOrder)
        ensures
            r == KeyOrder::Less <==> key_lt(self@, other@),
            r == KeyOrder::Equal <==> self@ == other@,
            r == KeyOrder::Greater <==> key_lt(other@, self@),
    {
        let a = self.chars();
        let b = other.chars();
        compare_chars(a.as_slice(), b.as_slice())
    }

    pub fn is_before(&self, other: &DayKey) -> (b: bool)
        ensures
            b == key_lt(self@, other@),
    {
        self.compare(other) == KeyOrder::Less
    }

    /// The day before this one, as the calendar has it.
    pub fn previous(&self) -> (r: Option<DayKey>)
        ensures
            match r {
                Some(day) => previous_day(self@) == Some(day@),
                None => previous_day(self@) is None,
            },
    {
        match chrono_previous_day(self.text.as_str()) {
            Some(text) => Some(DayKey { text }),
            None => None,
        }
    }
}

/// The date before the one `key` names, formatted as `key` is, or `None` when `key` is no
/// `YYYY-MM-DD` date or the calendar has no earlier day.
pub uninterp spec fn previous_day(key: Seq<char>) -> Option<Seq<char>>;

/// Calls chrono's `NaiveDate::parse_from_str` with `%Y-%m-%d`, then
/// `NaiveDate::checked_sub_days` with one day, then formats the result with `%Y-%m-%d`.
/// The contract only names the result: it is a function of the text alone.
#[verifier::external_body]
fn chrono_previous_day(key: &str) -> (r: Option<String>)
    ensures
        match r {
            Some(text) => previous_day(key@) == Some(text@),
            None => previous_day(key@) is None,
        },
{
    let date = chrono::NaiveDate::parse_from_str(key, "%Y-%m-%d").ok()?;
    let earlier = date.checked_sub_days(chrono::Days::new(1))?;
    Some(earlier.format("%Y-%m-%d").to_string())
}

/// Milliseconds in `DAY_ROLLOVER_HOUR` hours.
pub const ROLLOVER_MS: i64 = 14_400_000;

/// Milliseconds in a day.
pub const DAY_MS: i64 = 86_400_000;

/// The first millisecond of the second day of the year 1, UTC: from here on, every local
/// date has four digits of year.
pub const FIRST_DATED_MS: i64 = -62_135_510_400_000;

/// The last millisecond of the second-to-last day of the year 9999, UTC.
pub const LAST_DATED_MS: i64 = 253_402_214_399_999;

pub open spec fn is_digit(c: char) -> bool {
    '0' <= c && c <= '9'
}

pub open spec fn digit(c: char) -> int {
    c as int - '0' as int
}

/// The year, month and day a `YYYY-MM-DD` key spells.
pub open spec fn key_year(t: Seq<char>) -> int {
    digit(t[0]) * 1000 + digit(t[1]) * 100 + digit(t[2]) * 10 + digit(t[3])
}

pub open spec fn key_month(t: Seq<char>) -> int {
    digit(t[5]) * 10 + digit(t[6])
}

pub open spec fn key_day(t: Seq<char>) -> int {
    digit(t[8]) * 10 + digit(t[9])
}

/// `t` is a `YYYY-MM-DD` text, as chrono's `%Y-%m-%d` writes a date of the years 1 to
/// 9999.
pub open spec fn is_date_key(t: Seq<char>) -> bool {
    &&& t.len() == 10
    &&& t[4] == '-' && t[7] == '-'
    &&& is_digit(t[0]) && is_digit(t[1]) && is_digit(t[2]) && is_digit(t[3])
    &&& is_digit(t[5]) && is_digit(t[6]) && is_digit(t[8]) && is_digit(t[9])
    &&& 1 <= key_year(t)
    &&& 1 <= key_month(t) <= 12
    &&& 1 <= key_day(t) <= 31
}

/// Days from 1970-01-01 to the date `y-m-d` of the proleptic Gregorian calendar: the year
/// taken from March, so that a leap day ends it, in eras of 400 years.
pub open spec fn civil_days(y: int, m: int, d: int) -> int {
    let y2 = if m <= 2 { y - 1 } else { y };
    let era = y2 / 400;
    let yoe = y2 - era * 400;
    let mp = if m > 2 { m - 3 } else { m + 9 };
    let doy = (153 * mp + 2) / 5 + d - 1;
    let doe = yoe * 365 + yoe / 4 - yoe / 100 + doy;
    era * 146097 + doe - 719468
}

/// The days since 1970-01-01 of the date a key names.
pub open spec fn key_days(t: Seq<char>) -> int {
    civil_days(key_year(t), key_month(t), key_day(t))
}

/// The key names the local date of the instant `millis`: its date, that is, within a day
/// of the UTC date of the instant, as any offset from UTC of less than a day leaves it.
pub open spec fn names_local_date_of(t: Seq<char>, millis: int) -> bool {
    &&& is_date_key(t)
    &&& millis / (DAY_MS as int) - 1 <= key_days(t) <= millis / (DAY_MS as int) + 1
}

/// The key of the local day the millisecond timestamp `ms` falls on, counting a day from
/// `DAY_ROLLOVER_HOUR`: the local date of the instant `DAY_ROLLOVER_HOUR` hours earlier.
/// Which of the dates within a day of it that is depends on the machine's time zone.
/// Every timestamp up to the end of the year 9999 has a day; one past the signed range has
/// none.
pub fn day_key_for_ms(ms: u64) -> (r: Option<DayKey>)
    ensures
        ms > i64::MAX ==> r is None,
        ms <= LAST_DATED_MS ==> r is Some && names_local_date_of(r->Some_0@, ms - ROLLOVER_MS),
{
    if ms > 0x7fff_ffff_ffff_ffffu64 {
        return None;
    }
    match local_day_text(ms as i64, ROLLOVER_MS) {
        Some(text) => Some(DayKey { text }),
        None => None,
    }
}

/// Calls chrono's `Local.timestamp_millis_opt` on `millis`; for the moment it names, takes
/// `back_ms` milliseconds off with chrono's `DateTime - TimeDelta`, and formats what comes
/// out with `%Y-%m-%d`. For `Local`, `timestamp_millis_opt` names one moment for every
/// timestamp `DateTime::from_timestamp_millis` accepts, all of the years 1 to 9999 among
/// them, and the subtraction re-reads the local offset for the earlier instant. chrono's
/// `FixedOffset`, which `Local` answers with, is less than a day either way, so the date is
/// within a day of the UTC date of `millis - back_ms`; which of those it is depends on the
/// machine's time zone and is not claimed. The subtraction panics only below chrono's
/// earliest date, which the `requires` keeps far away.
#[verifier::external_body]
fn local_day_text(millis: i64, back_ms: i64) -> (r: Option<String>)
    requires
        0 <= back_ms,
        millis - back_ms >= FIRST_DATED_MS,
    ensures
        millis <= LAST_DATED_MS ==> r is Some && names_local_date_of(r->Some_0@, millis - back_ms),
{
    match Local.timestamp_millis_opt(millis) {
        chrono::LocalResult::Single(moment) => Some(
            (moment - chrono::Duration::milliseconds(back_ms)).format("%Y-%m-%d").to_string(),
        ),
        chrono::LocalResult::Ambiguous(earlier, _) => Some(
            (earlier - chrono::Duration::milliseconds(back_ms)).format("%Y-%m-%d").to_string(),
        ),
        chrono::LocalResult::None => None,
    }
}

} // verus!
