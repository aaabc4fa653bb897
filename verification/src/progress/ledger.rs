//! Immersion time by day: what each surface measured, and how the days add up.
use vstd::prelude::*;

use super::day::{key_lt, DayKey};
use super::table::DayTable;

verus! {

/// What a day needs before it counts as active, unless something was mined on it.
pub const ACTIVE_MS: u64 = 60_000;

/// Which surface a sample came from.
#[derive(Debug, Clone, Copy, PartialEq, Eq, Structural)]
pub enum ImmersionSource {
    Listening,
    Watching,
}

/// What the gap between two samples earned.
#[derive(Debug, Clone, Copy, Default, PartialEq, Eq, Structural)]
pub struct Credit {
    pub credited_ms: u64,
    /// Wall time that passed while playing with nothing to prove it happened.
    pub unmeasured_ms: u64,
}

/// One day's totals.
#[derive(Debug, Clone, Copy, Default, PartialEq, Eq, Structural)]
pub struct DayTotals {
    pub listening_ms: u64,
    pub watching_ms: u64,
    /// Time both sources ran at once, booked by the listening side alone.
    pub overlap_ms: u64,
    pub unmeasured_ms: u64,
    pub mined: bool,
}

/// The day nothing has happened on yet.
pub open spec fn zero_totals() -> DayTotals {
    DayTotals { listening_ms: 0, watching_ms: 0, overlap_ms: 0, unmeasured_ms: 0, mined: false }
}

pub open spec fn min_u64(a: u64, b: u64) -> u64 {
    if a <= b {
        a
    } else {
        b
    }
}

impl DayTotals {
    /// The day's attention: both surfaces, less what they shared, where the shared stretch
    /// can be no longer than the shorter surface ran.
    pub open spec fn combined(self) -> u64 {
        self.listening_ms.saturating_add(self.watching_ms).saturating_sub(
            min_u64(self.overlap_ms, min_u64(self.listening_ms, self.watching_ms)),
        )
    }

    pub open spec fn active(self) -> bool {
        self.combined() >= ACTIVE_MS || self.mined
    }

    /// Two days' totals, field by field.
    pub open spec fn plus(self, other: DayTotals) -> DayTotals {
        DayTotals {
            listening_ms: self.listening_ms.saturating_add(other.listening_ms),
            watching_ms: self.watching_ms.saturating_add(other.watching_ms),
            overlap_ms: self.overlap_ms.saturating_add(other.overlap_ms),
            unmeasured_ms: self.unmeasured_ms.saturating_add(other.unmeasured_ms),
            mined: self.mined || other.mined,
        }
    }

    /// A day can never come out below the surface that measured the most, nor above both
    /// together.
    pub fn combined_ms(&self) -> (ms: u64)
        ensures
            ms == self.combined(),
            self.listening_ms + self.watching_ms <= u64::MAX ==> ms >= self.listening_ms
                && ms >= self.watching_ms,
            ms <= self.listening_ms + self.watching_ms,
    {
        let inner = if self.listening_ms <= self.watching_ms {
            self.listening_ms
        } else {
            self.watching_ms
        };
        let shared = if self.overlap_ms <= inner {
            self.overlap_ms
        } else {
            inner
        };
        self.listening_ms.saturating_add(self.watching_ms).saturating_sub(shared)
    }

    pub fn is_active(&self) -> (b: bool)
        ensures
            b == self.active(),
    {
        self.combined_ms() >= ACTIVE_MS || self.mined
    }

    pub fn add(&mut self, other: &DayTotals)
        ensures
            *final(self) == old(self).plus(*other),
    {
        self.listening_ms = self.listening_ms.saturating_add(other.listening_ms);
        self.watching_ms = self.watching_ms.saturating_add(other.watching_ms);
        self.overlap_ms = self.overlap_ms.saturating_add(other.overlap_ms);
        self.unmeasured_ms = self.unmeasured_ms.saturating_add(other.unmeasured_ms);
        self.mined = self.mined || other.mined;
    }

    /// The day nothing has happened on yet.
    pub fn zero() -> (t: DayTotals)
        ensures
            t == zero_totals(),
    {
        DayTotals { listening_ms: 0, watching_ms: 0, overlap_ms: 0, unmeasured_ms: 0, mined: false }
    }
}

/// Two writers of one day accumulate, and in whatever order their additions land the day
/// comes out the same.
pub proof fn law_day_totals_add_in_any_order(a: DayTotals, b: DayTotals, c: DayTotals)
    ensures
        a.plus(b) == b.plus(a),
        a.plus(b).plus(c) == a.plus(b.plus(c)),
        a.plus(zero_totals()) == a,
{
}

/// What a credit does to a day.
pub open spec fn credited(
    totals: DayTotals,
    source: ImmersionSource,
    credit: Credit,
    other_source_live: bool,
) -> DayTotals {
    DayTotals {
        listening_ms: if source == ImmersionSource::Listening {
            totals.listening_ms.saturating_add(credit.credited_ms)
        } else {
            totals.listening_ms
        },
        watching_ms: if source == ImmersionSource::Watching {
            totals.watching_ms.saturating_add(credit.credited_ms)
        } else {
            totals.watching_ms
        },
        overlap_ms: if other_source_live {
            totals.overlap_ms.saturating_add(credit.credited_ms)
        } else {
            totals.overlap_ms
        },
        unmeasured_ms: totals.unmeasured_ms.saturating_add(credit.unmeasured_ms),
        mined: totals.mined,
    }
}

/// What a table holds for a day, or an untouched day.
pub open spec fn or_zero(t: Option<DayTotals>) -> DayTotals {
    match t {
        Some(v) => v,
        None => zero_totals(),
    }
}

/// Immersion by day.
#[derive(Debug)]
pub struct Ledger {
    days: DayTable<DayTotals>,
}

impl Ledger {
    #[verifier::type_invariant]
    spec fn well_formed(self) -> bool {
        self.days.wf()
    }

    /// The totals the ledger holds for a day.
    pub closed spec fn lookup(&self, day: Seq<char>) -> Option<DayTotals> {
        self.days.lookup(day)
    }

    /// The days it holds, oldest first.
    pub closed spec fn days(&self) -> Seq<Seq<char>> {
        self.days.days()
    }

    /// The days' totals, in the order of `days`.
    pub closed spec fn totals(&self) -> Seq<DayTotals> {
        self.days.values()
    }

    /// The shape every ledger has: each day once, in order, with its totals.
    proof fn lemma_shape(tracked_free: &Self)
        requires
            tracked_free.days.wf(),
        ensures
            tracked_free.days().len() == tracked_free.totals().len(),
            forall|i: int, j: int|
                0 <= i < j < tracked_free.days().len() ==> key_lt(
                    #[trigger] tracked_free.days()[i],
                    #[trigger] tracked_free.days()[j],
                ),
            forall|i: int|
                0 <= i < tracked_free.days().len() ==> #[trigger] tracked_free.lookup(
                    tracked_free.days()[i],
                ) == Some(tracked_free.totals()[i]),
            forall|k: Seq<char>|
                tracked_free.lookup(k) is Some <==> #[trigger] tracked_free.days().contains(k),
    {
        tracked_free.days.lemma_shape();
    }

    pub fn new() -> (l: Ledger)
        ensures
            l.days() == Seq::<Seq<char>>::empty(),
            forall|k: Seq<char>| l.lookup(k) is None,
    {
        Ledger { days: DayTable::new() }
    }

    /// Books `credit` on `day` for `source`. `other_source_live` is the caller's answer to
    /// whether the other surface was playing at the same moment.
    pub fn credit(
        &mut self,
        day: &DayKey,
        source: ImmersionSource,
        credit: Credit,
        other_source_live: bool,
    )
        ensures
            final(self).lookup(day@) == Some(
                credited(or_zero(old(self).lookup(day@)), source, credit, other_source_live),
            ),
            forall|k: Seq<char>| k != day@ ==> #[trigger] final(self).lookup(k) == old(self).lookup(k),
            final(self).days().to_set() == old(self).days().to_set().insert(day@),
    {
        proof {
            use_type_invariant(&*self);
        }
        let mut totals = match self.days.get(day) {
            Some(t) => t,
            None => DayTotals::zero(),
        };
        match source {
            ImmersionSource::Listening => {
                totals.listening_ms = totals.listening_ms.saturating_add(credit.credited_ms);
            },
            ImmersionSource::Watching => {
                totals.watching_ms = totals.watching_ms.saturating_add(credit.credited_ms);
            },
        }
        totals.unmeasured_ms = totals.unmeasured_ms.saturating_add(credit.unmeasured_ms);
        if other_source_live {
            totals.overlap_ms = totals.overlap_ms.saturating_add(credit.credited_ms);
        }
        let mut table = DayTable::new();
        std::mem::swap(&mut table, &mut self.days);
        table.set(day.copied(), totals);
        self.days = table;
    }

    /// Marks a day on which something was mined.
    pub fn mark_mined(&mut self, day: &DayKey)
        ensures
            final(self).lookup(day@) == Some(
                DayTotals { mined: true, ..or_zero(old(self).lookup(day@)) },
            ),
            forall|k: Seq<char>| k != day@ ==> #[trigger] final(self).lookup(k) == old(self).lookup(k),
            final(self).days().to_set() == old(self).days().to_set().insert(day@),
    {
        proof {
            use_type_invariant(&*self);
        }
        let mut totals = match self.days.get(day) {
            Some(t) => t,
            None => DayTotals::zero(),
        };
        totals.mined = true;
        let mut table = DayTable::new();
        std::mem::swap(&mut table, &mut self.days);
        table.set(day.copied(), totals);
        self.days = table;
    }

    /// Adds `other` into this one: a day in either comes out holding both days' totals.
    pub fn merge(&mut self, other: &Ledger)
        ensures
            forall|k: Seq<char>|
                #[trigger] final(self).lookup(k) == (if old(self).lookup(k) is None && other.lookup(
                    k,
                ) is None {
                    None::<DayTotals>
                } else {
                    Some(or_zero(old(self).lookup(k)).plus(or_zero(other.lookup(k))))
                }),
    {
        proof {
            use_type_invariant(&*self);
            use_type_invariant(other);
            other.days.lemma_shape();
        }
        let ghost start = *self;
        let mut table = DayTable::new();
        std::mem::swap(&mut table, &mut self.days);
        let n = other.days.len();
        let mut i: usize = 0;
        while i < n
            invariant
                table.wf(),
                other.days.wf(),
                n == other.days().len(),
                i <= n,
                forall|a: int, b: int|
                    0 <= a < b < other.days().len() ==> key_lt(
                        #[trigger] other.days()[a],
                        #[trigger] other.days()[b],
                    ),
                forall|j: int|
                    0 <= j < other.days().len() ==> #[trigger] other.lookup(other.days()[j])
                        == Some(other.totals()[j]),
                forall|k: Seq<char>|
                    #[trigger] table.lookup(k) == (if other.days().take(i as int).contains(k) {
                        Some(or_zero(start.lookup(k)).plus(or_zero(other.lookup(k))))
                    } else {
                        start.lookup(k)
                    }),
            decreases n - i,
        {
            let day = other.days.day_at(i);
            let theirs = other.days.value_at(i);
            let mut totals = match table.get(day) {
                Some(t) => t,
                None => DayTotals::zero(),
            };
            totals.add(&theirs);
            let ghost d = day@;
            let ghost prefix = other.days().take(i as int);
            proof {
                if prefix.contains(d) {
                    let p = choose|p: int| 0 <= p < prefix.len() && prefix[p] == d;
                    key_irreflexive_at(other.days(), p, i as int);
                }
                assert(or_zero(start.lookup(d)).plus(zero_totals()) == or_zero(start.lookup(d)));
            }
            table.set(day.copied(), totals);
            proof {
                let next = other.days().take(i + 1);
                assert(next =~= prefix.push(d));
                assert forall|k: Seq<char>|
                    #[trigger] table.lookup(k) == (if next.contains(k) {
                        Some(or_zero(start.lookup(k)).plus(or_zero(other.lookup(k))))
                    } else {
                        start.lookup(k)
                    }) by {
                    if k == d {
                        assert(next[i as int] == d);
                    } else {
                        if next.contains(k) {
                            let p = choose|p: int| 0 <= p < next.len() && next[p] == k;
                            assert(prefix[p] == k);
                        }
                        if prefix.contains(k) {
                            let p = choose|p: int| 0 <= p < prefix.len() && prefix[p] == k;
                            assert(next[p] == k);
                        }
                    }
                }
            }
            i = i + 1;
        }
        self.days = table;
        proof {
            assert(other.days().take(n as int) =~= other.days());
            assert forall|k: Seq<char>|
                #[trigger] self.lookup(k) == (if start.lookup(k) is None && other.lookup(k) is None {
                    None::<DayTotals>
                } else {
                    Some(or_zero(start.lookup(k)).plus(or_zero(other.lookup(k))))
                }) by {
                other.days.lemma_shape();
                start.days.lemma_shape();
                if !other.days().contains(k) {
                    if let Some(t) = start.lookup(k) {
                        assert(t.plus(zero_totals()) == t);
                    }
                }
            }
        }
    }

    /// Drops days the store cannot speak for, and reports how many went.
    pub fn floor_at(&mut self, first_run_day: &DayKey) -> (dropped: usize)
        ensures
            forall|k: Seq<char>|
                #[trigger] final(self).lookup(k) == (if key_lt(k, first_run_day@) {
                    None
                } else {
                    old(self).lookup(k)
                }),
            final(self).days() == old(self).days().filter(
                |d: Seq<char>| !key_lt(d, first_run_day@),
            ),
            dropped == old(self).days().len() - final(self).days().len(),
    {
        proof {
            use_type_invariant(&*self);
        }
        let mut table = DayTable::new();
        std::mem::swap(&mut table, &mut self.days);
        let dropped = table.retain_from(first_run_day);
        self.days = table;
        dropped
    }

    /// Replaces a day's totals outright.
    pub fn set(&mut self, day: DayKey, totals: DayTotals)
        ensures
            final(self).lookup(day@) == Some(totals),
            forall|k: Seq<char>| k != day@ ==> #[trigger] final(self).lookup(k) == old(self).lookup(k),
            final(self).days().to_set() == old(self).days().to_set().insert(day@),
    {
        proof {
            use_type_invariant(&*self);
        }
        let mut table = DayTable::new();
        std::mem::swap(&mut table, &mut self.days);
        table.set(day, totals);
        self.days = table;
    }

    pub fn get(&self, day: &DayKey) -> (r: Option<DayTotals>)
        ensures
            r == self.lookup(day@),
    {
        proof {
            use_type_invariant(self);
        }
        self.days.get(day)
    }

    pub fn len(&self) -> (n: usize)
        ensures
            n == self.days().len(),
    {
        proof {
            use_type_invariant(self);
        }
        self.days.len()
    }

    pub fn is_empty(&self) -> (b: bool)
        ensures
            b == (self.days().len() == 0),
    {
        self.len() == 0
    }

    /// The `i`th day and its totals, oldest first: the rows in the order they are written.
    pub fn entry(&self, i: usize) -> (r: (&DayKey, DayTotals))
        requires
            i < self.days().len(),
        ensures
            r.0@ == self.days()[i as int],
            r.1 == self.totals()[i as int],
    {
        proof {
            use_type_invariant(self);
        }
        (self.days.day_at(i), self.days.value_at(i))
    }

    /// How many days count as active.
    pub fn active_days(&self) -> (n: usize)
        ensures
            n == self.totals().filter(|t: DayTotals| t.active()).len(),
    {
        proof {
            use_type_invariant(self);
            self.days.lemma_shape();
        }
        let len = self.days.len();
        let mut count: usize = 0;
        let mut i: usize = 0;
        while i < len
            invariant
                self.days.wf(),
                len == self.totals().len(),
                len == self.days().len(),
                i <= len,
                count == self.totals().take(i as int).filter(|t: DayTotals| t.active()).len(),
                count <= i,
            decreases len - i,
        {
            let t = self.days.value_at(i);
            proof {
                let s = self.totals().take(i + 1);
                assert(s.drop_last() =~= self.totals().take(i as int));
                reveal_with_fuel(Seq::filter, 1);
            }
            if t.is_active() {
                count = count + 1;
            }
            i = i + 1;
        }
        assert(self.totals().take(len as int) =~= self.totals());
        count
    }
}

proof fn key_irreflexive_at(ks: Seq<Seq<char>>, p: int, i: int)
    requires
        0 <= p < i < ks.len(),
        forall|a: int, b: int| 0 <= a < b < ks.len() ==> key_lt(#[trigger] ks[a], #[trigger] ks[b]),
    ensures
        ks[p] != ks[i],
{
    assert(key_lt(ks[p], ks[i]));
    super::day::lemma_key_lt_irreflexive(ks[i]);
}

} // verus!
