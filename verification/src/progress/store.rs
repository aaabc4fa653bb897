//! The progress file's rows held in memory: readings of the word list, days of immersion,
//! and every row this build does not model, kept so a rewrite leaves them as they were.
use vstd::prelude::*;

use super::day::{DayKey, DAY_ROLLOVER_HOUR};
use super::ledger::{or_zero, DayTotals, Ledger};
use crate::text::{chars_of, seq_eq, trim, trimmed_str};

verus! {

/// The version this build writes and reads.
pub const RECORD_VERSION: u32 = 1;

/// The first line of the file.
#[derive(Debug)]
pub struct Header {
    pub v: u32,
    pub first_run_day: DayKey,
    pub rollover_hour: i64,
    pub history_lost_at_ms: Option<u64>,
}

impl Header {
    /// The header of a store begun on `today`; `lost_at_ms` is when an unreadable file was
    /// moved aside to make room for it, if that is why it was begun.
    pub fn first_run(today: DayKey, lost_at_ms: Option<u64>) -> (h: Header)
        ensures
            h.v == RECORD_VERSION,
            h.first_run_day@ == today@,
            h.rollover_hour == DAY_ROLLOVER_HOUR,
            h.history_lost_at_ms == lost_at_ms,
    {
        Header {
            v: RECORD_VERSION,
            first_run_day: today,
            rollover_hour: DAY_ROLLOVER_HOUR,
            history_lost_at_ms: lost_at_ms,
        }
    }
}

/// One transcript in a reading of the word list.
#[derive(Debug, Clone, PartialEq, Eq)]
pub struct SampleItem {
    pub key: String,
    pub fingerprint: String,
    pub content_tokens: u32,
    pub known_tokens: u32,
}

/// The content tokens of `items`, pooled.
pub open spec fn pooled_content(items: Seq<SampleItem>) -> nat
    decreases items.len(),
{
    if items.len() == 0 {
        0
    } else {
        pooled_content(items.drop_last()) + items.last().content_tokens as nat
    }
}

/// The known tokens of `items`, pooled.
pub open spec fn pooled_known(items: Seq<SampleItem>) -> nat
    decreases items.len(),
{
    if items.len() == 0 {
        0
    } else {
        pooled_known(items.drop_last()) + items.last().known_tokens as nat
    }
}

/// One reading of the word list against the library.
#[derive(Debug)]
pub struct Sample {
    pub v: u32,
    pub kind: String,
    pub taken_at_ms: u64,
    pub day: DayKey,
    /// The settings the word list was built with, as the file stores them.
    pub build: String,
    pub index_built_at_ms: u64,
    pub unread_items: u32,
    pub items: Vec<SampleItem>,
}

impl Sample {
    pub fn new(
        taken_at_ms: u64,
        day: DayKey,
        build: String,
        index_built_at_ms: u64,
        unread_items: u32,
        items: Vec<SampleItem>,
    ) -> (s: Sample)
        ensures
            s.v == RECORD_VERSION,
            s.kind@ == "sample"@,
            s.taken_at_ms == taken_at_ms,
            s.day@ == day@,
            s.build@ == build@,
            s.index_built_at_ms == index_built_at_ms,
            s.unread_items == unread_items,
            s.items@ == items@,
    {
        Sample {
            v: RECORD_VERSION,
            kind: "sample".to_string(),
            taken_at_ms,
            day,
            build,
            index_built_at_ms,
            unread_items,
            items,
        }
    }

    /// Content and known tokens, pooled across the items rather than averaged per item, so
    /// a two-word clip cannot outvote an episode.
    pub fn totals(&self) -> (t: (u32, u32))
        requires
            pooled_content(self.items@) <= u32::MAX,
            pooled_known(self.items@) <= u32::MAX,
        ensures
            t.0 == pooled_content(self.items@),
            t.1 == pooled_known(self.items@),
    {
        let mut content: u32 = 0;
        let mut known: u32 = 0;
        let mut i: usize = 0;
        while i < self.items.len()
            invariant
                i <= self.items@.len(),
                pooled_content(self.items@) <= u32::MAX,
                pooled_known(self.items@) <= u32::MAX,
                content == pooled_content(self.items@.take(i as int)),
                known == pooled_known(self.items@.take(i as int)),
            decreases self.items.len() - i,
        {
            proof {
                let t = self.items@.take(i + 1);
                assert(t.drop_last() =~= self.items@.take(i as int));
                lemma_pooled_grows(self.items@, i + 1);
            }
            content = content + self.items[i].content_tokens;
            known = known + self.items[i].known_tokens;
            i = i + 1;
        }
        assert(self.items@.take(self.items@.len() as int) =~= self.items@);
        (content, known)
    }
}

proof fn lemma_pooled_grows(items: Seq<SampleItem>, n: int)
    requires
        0 <= n <= items.len(),
    ensures
        pooled_content(items.take(n)) <= pooled_content(items),
        pooled_known(items.take(n)) <= pooled_known(items),
    decreases items.len() - n,
{
    if n < items.len() {
        lemma_pooled_grows(items, n + 1);
        assert(items.take(n + 1).drop_last() =~= items.take(n));
    } else {
        assert(items.take(n) =~= items);
    }
}

/// What one line of the file turned out to be, as far as reading it as JSON could tell.
#[derive(Debug)]
pub enum RowReading {
    /// Not JSON at all.
    Unparsed,
    /// JSON, with the version and kind it says it is and, where this build models that
    /// kind, what the row came to.
    Parsed {
        version: Option<u64>,
        kind: Option<String>,
        sample: Option<Sample>,
        day: Option<(DayKey, DayTotals)>,
    },
}

/// Where a line of the file goes.
#[derive(Debug, Clone, Copy, PartialEq, Eq, Structural)]
pub enum RowFate {
    /// Blank, and dropped.
    Skipped,
    /// Kept as it was, and counted as damaged.
    Damaged,
    /// Kept as it was, and counted as written by a newer build.
    Newer,
    /// Read as a reading of the word list.
    Reading,
    /// Read as a day of immersion.
    Day,
    /// Kept as it was: a kind this build does not know.
    Unknown,
}

pub open spec fn kind_is(kind: Option<String>, name: Seq<char>) -> bool {
    match kind {
        Some(k) => k@ == name,
        None => false,
    }
}

/// Where `line`, read as `reading`, goes. Only a row of this version and a known kind is
/// read; every other row is kept, so the next write leaves it in place.
pub open spec fn row_fate(line: Seq<char>, reading: RowReading) -> RowFate {
    if trim(line).len() == 0 {
        RowFate::Skipped
    } else {
        match reading {
            RowReading::Unparsed => RowFate::Damaged,
            RowReading::Parsed { version, kind, sample, day } => if version != Some(
                RECORD_VERSION as u64,
            ) {
                RowFate::Newer
            } else if kind_is(kind, "sample"@) {
                if sample is Some {
                    RowFate::Reading
                } else {
                    RowFate::Damaged
                }
            } else if kind_is(kind, "day"@) {
                if day is Some {
                    RowFate::Day
                } else {
                    RowFate::Damaged
                }
            } else {
                RowFate::Unknown
            },
        }
    }
}

/// The store as read: readings, days, and the rows kept untouched.
#[derive(Debug)]
pub struct ProgressStore {
    pub samples: Vec<Sample>,
    pub days: Ledger,
    pub passthrough: Vec<String>,
    pub newer: usize,
    pub damaged: usize,
}

impl ProgressStore {
    /// A store with nothing in it.
    pub fn new() -> (s: ProgressStore)
        ensures
            s.samples@.len() == 0,
            s.days.days().len() == 0,
            forall|k: Seq<char>| s.days.lookup(k) is None,
            s.passthrough@.len() == 0,
            s.newer == 0,
            s.damaged == 0,
    {
        ProgressStore {
            samples: Vec::new(),
            days: Ledger::new(),
            passthrough: Vec::new(),
            newer: 0,
            damaged: 0,
        }
    }

    /// Takes in one line of the file, as `reading` says it reads. A day is added to what
    /// the store already has for it rather than inserted, so two rows for one date are
    /// totalled instead of the later one silently winning.
    pub fn absorb(&mut self, line: String, reading: RowReading) -> (fate: RowFate)
        requires
            old(self).damaged < usize::MAX,
            old(self).newer < usize::MAX,
        ensures
            fate == row_fate(line@, reading),
            final(self).damaged == old(self).damaged + if fate == RowFate::Damaged {
                1usize
            } else {
                0usize
            },
            final(self).newer == old(self).newer + if fate == RowFate::Newer {
                1usize
            } else {
                0usize
            },
            final(self).passthrough@ == (if fate == RowFate::Damaged || fate == RowFate::Newer
                || fate == RowFate::Unknown {
                old(self).passthrough@.push(line)
            } else {
                old(self).passthrough@
            }),
            fate == RowFate::Reading ==> (reading matches RowReading::Parsed { sample, .. }
                && sample matches Some(s) && final(self).samples@ == old(self).samples@.push(s)),
            fate != RowFate::Reading ==> final(self).samples@ == old(self).samples@,
            fate == RowFate::Day ==> (reading matches RowReading::Parsed { day, .. } && day
                matches Some((d, totals)) && final(self).days.lookup(d@) == Some(
                or_zero(old(self).days.lookup(d@)).plus(totals),
            ) && forall|k: Seq<char>|
                k != d@ ==> #[trigger] final(self).days.lookup(k) == old(self).days.lookup(k)),
            fate != RowFate::Day ==> forall|k: Seq<char>|
                #[trigger] final(self).days.lookup(k) == old(self).days.lookup(k),
    {
        let blank = trimmed_str(line.as_str());
        if blank.len() == 0 {
            return RowFate::Skipped;
        }
        let (version, kind, sample, day) = match reading {
            RowReading::Unparsed => {
                self.damaged = self.damaged + 1;
                self.passthrough.push(line);
                return RowFate::Damaged;
            },
            RowReading::Parsed { version, kind, sample, day } => (version, kind, sample, day),
        };
        if version != Some(1u64) {
            self.newer = self.newer + 1;
            self.passthrough.push(line);
            return RowFate::Newer;
        }
        let name = match &kind {
            Some(k) => chars_of(k.as_str()),
            None => Vec::new(),
        };
        let sample_name = chars_of("sample");
        let day_name = chars_of("day");
        let is_sample = kind.is_some() && seq_eq(name.as_slice(), sample_name.as_slice());
        let is_day = kind.is_some() && seq_eq(name.as_slice(), day_name.as_slice());
        if is_sample {
            match sample {
                Some(s) => {
                    self.samples.push(s);
                    RowFate::Reading
                },
                None => {
                    self.damaged = self.damaged + 1;
                    self.passthrough.push(line);
                    RowFate::Damaged
                },
            }
        } else if is_day {
            match day {
                Some((d, totals)) => {
                    let mut sum = match self.days.get(&d) {
                        Some(t) => t,
                        None => DayTotals::zero(),
                    };
                    sum.add(&totals);
                    self.days.set(d, sum);
                    RowFate::Day
                },
                None => {
                    self.damaged = self.damaged + 1;
                    self.passthrough.push(line);
                    RowFate::Damaged
                },
            }
        } else {
            self.passthrough.push(line);
            RowFate::Unknown
        }
    }
}

} // verus!
