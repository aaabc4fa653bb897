//! Anki's last answer about the cards mined, by the day each note was made.
use vstd::prelude::*;

use super::day::{key_le, key_lt, lemma_key_lt_asymmetric, DayKey};
use super::evidence::{fits_stamp, key_text, usable_day};
use super::table::DayMap;

verus! {

/// The version a stored history carries.
pub const HISTORY_VERSION: u32 = 1;

/// What a mined card was made from.
#[derive(Debug, Clone, Copy, PartialEq, Eq, Structural)]
pub enum CardKind {
    Word,
    Line,
    Transcript,
    Unsorted,
}

/// One day's cards, by kind.
#[derive(Debug, Clone, Copy, PartialEq, Eq, Structural)]
pub struct CardCounts {
    pub word: u32,
    pub line: u32,
    pub transcript: u32,
    pub unsorted: u32,
}

impl Default for CardCounts {
    fn default() -> (c: CardCounts)
        ensures
            c == no_cards(),
    {
        CardCounts { word: 0, line: 0, transcript: 0, unsorted: 0 }
    }
}

/// A day with nothing on it.
pub open spec fn no_cards() -> CardCounts {
    CardCounts { word: 0, line: 0, transcript: 0, unsorted: 0 }
}

/// `n` as a count that stops at the largest `u32`.
pub open spec fn capped(n: nat) -> u32 {
    if n > u32::MAX {
        u32::MAX
    } else {
        n as u32
    }
}

impl CardCounts {
    /// One more card of `kind`.
    pub open spec fn with_one(self, kind: CardKind) -> CardCounts {
        match kind {
            CardKind::Word => CardCounts { word: self.word.saturating_add(1), ..self },
            CardKind::Line => CardCounts { line: self.line.saturating_add(1), ..self },
            CardKind::Transcript => CardCounts {
                transcript: self.transcript.saturating_add(1),
                ..self
            },
            CardKind::Unsorted => CardCounts { unsorted: self.unsorted.saturating_add(1), ..self },
        }
    }

    /// All kinds together, stopping at the largest `u32`.
    pub open spec fn sum(self) -> u32 {
        self.word.saturating_add(self.line).saturating_add(self.transcript).saturating_add(
            self.unsorted,
        )
    }

    pub fn add(&mut self, kind: CardKind)
        ensures
            *final(self) == old(self).with_one(kind),
    {
        match kind {
            CardKind::Word => self.word = self.word.saturating_add(1),
            CardKind::Line => self.line = self.line.saturating_add(1),
            CardKind::Transcript => self.transcript = self.transcript.saturating_add(1),
            CardKind::Unsorted => self.unsorted = self.unsorted.saturating_add(1),
        }
    }

    pub fn total(&self) -> (n: u32)
        ensures
            n == self.sum(),
    {
        self.word.saturating_add(self.line).saturating_add(self.transcript).saturating_add(
            self.unsorted,
        )
    }
}

/// A note as the tally reads it: the day it was made on, where that day is usable, and
/// what it was made from.
#[derive(Debug)]
pub struct DatedNote {
    pub made_on: Option<DayKey>,
    pub kind: CardKind,
}

pub open spec fn note_view(n: DatedNote) -> (Option<Seq<char>>, CardKind) {
    (key_text(n.made_on), n.kind)
}

pub open spec fn notes_view(s: Seq<DatedNote>) -> Seq<(Option<Seq<char>>, CardKind)> {
    s.map_values(|n: DatedNote| note_view(n))
}

/// How many of `s` were made on `day` from `kind`.
pub open spec fn noted(s: Seq<(Option<Seq<char>>, CardKind)>, day: Seq<char>, kind: CardKind) -> nat
    decreases s.len(),
{
    if s.len() == 0 {
        0
    } else {
        noted(s.drop_last(), day, kind) + if s.last().0 == Some(day) && s.last().1 == kind {
            1nat
        } else {
            0nat
        }
    }
}

/// How many of `s` have no usable day.
pub open spec fn no_day(s: Seq<(Option<Seq<char>>, CardKind)>) -> nat
    decreases s.len(),
{
    if s.len() == 0 {
        0
    } else {
        no_day(s.drop_last()) + if s.last().0 is None {
            1nat
        } else {
            0nat
        }
    }
}

/// The earlier of two days, either of which may be missing.
pub open spec fn earlier_of(a: Option<Seq<char>>, b: Option<Seq<char>>) -> Option<Seq<char>> {
    match (a, b) {
        (None, _) => b,
        (_, None) => a,
        (Some(x), Some(y)) => if key_lt(y, x) {
            b
        } else {
            a
        },
    }
}

/// The earliest day any of `s` was made on.
pub open spec fn earliest_made(s: Seq<(Option<Seq<char>>, CardKind)>) -> Option<Seq<char>>
    decreases s.len(),
{
    if s.len() == 0 {
        None
    } else {
        earlier_of(earliest_made(s.drop_last()), s.last().0)
    }
}

/// What `s` says of `day`: nothing where no note was made on it.
pub open spec fn cards_made_on(s: Seq<(Option<Seq<char>>, CardKind)>, day: Seq<char>) -> Option<
    CardCounts,
> {
    let w = noted(s, day, CardKind::Word);
    let l = noted(s, day, CardKind::Line);
    let t = noted(s, day, CardKind::Transcript);
    let u = noted(s, day, CardKind::Unsorted);
    if w + l + t + u == 0 {
        None
    } else {
        Some(CardCounts { word: capped(w), line: capped(l), transcript: capped(t), unsorted: capped(u) })
    }
}

/// The cards of one answer, added up over a sequence of days.
pub open spec fn dated_sum(s: Seq<CardCounts>) -> nat
    decreases s.len(),
{
    if s.len() == 0 {
        0
    } else {
        dated_sum(s.drop_last()) + s.last().sum() as nat
    }
}

proof fn lemma_dated_sum_update(s: Seq<CardCounts>, p: int, v: CardCounts)
    requires
        0 <= p < s.len(),
    ensures
        dated_sum(s.update(p, v)) == dated_sum(s) - s[p].sum() + v.sum(),
    decreases s.len(),
{
    if p == s.len() - 1 {
        assert(s.update(p, v).drop_last() =~= s.drop_last());
    } else {
        assert(s.update(p, v).drop_last() =~= s.drop_last().update(p, v));
        lemma_dated_sum_update(s.drop_last(), p, v);
    }
}

proof fn lemma_dated_sum_insert(s: Seq<CardCounts>, p: int, v: CardCounts)
    requires
        0 <= p <= s.len(),
    ensures
        dated_sum(s.insert(p, v)) == dated_sum(s) + v.sum(),
    decreases s.len(),
{
    if p == s.len() {
        assert(s.insert(p, v).drop_last() =~= s);
    } else {
        assert(s.insert(p, v).drop_last() =~= s.drop_last().insert(p, v));
        lemma_dated_sum_insert(s.drop_last(), p, v);
    }
}

proof fn lemma_noted_bounded(s: Seq<(Option<Seq<char>>, CardKind)>, day: Seq<char>)
    ensures
        noted(s, day, CardKind::Word) + noted(s, day, CardKind::Line) + noted(
            s,
            day,
            CardKind::Transcript,
        ) + noted(s, day, CardKind::Unsorted) + no_day(s) <= s.len(),
    decreases s.len(),
{
    if s.len() > 0 {
        lemma_noted_bounded(s.drop_last(), day);
    }
}

proof fn lemma_one_more_card(
    before: Seq<CardCounts>,
    after: Seq<CardCounts>,
    was: Option<CardCounts>,
    c0: CardCounts,
    counts: CardCounts,
    kind: CardKind,
)
    requires
        c0 == match was {
            Some(w) => w,
            None => no_cards(),
        },
        c0.word + c0.line + c0.transcript + c0.unsorted < u32::MAX,
        counts == c0.with_one(kind),
        was matches Some(w) ==> exists|p: int|
            0 <= p < before.len() && before[p] == w && after == before.update(p, counts),
        was is None ==> exists|p: int| 0 <= p <= before.len() && after == before.insert(p, counts),
    ensures
        dated_sum(after) == dated_sum(before) + 1,
{
    assert(c0.sum() == c0.word + c0.line + c0.transcript + c0.unsorted);
    assert(counts.sum() == c0.sum() + 1);
    match was {
        Some(w) => {
            let p = choose|p: int|
                0 <= p < before.len() && before[p] == w && after == before.update(p, counts);
            lemma_dated_sum_update(before, p, counts);
        },
        None => {
            let p = choose|p: int| 0 <= p <= before.len() && after == before.insert(p, counts);
            lemma_dated_sum_insert(before, p, counts);
        },
    }
}

/// Anki's last answer, by day. Replaced whole on every answer, so a deleted note leaves
/// nothing behind; only `from` carries over, and only ever earlier.
#[derive(Debug)]
pub struct CardHistory {
    pub v: u32,
    pub read_at_ms: u64,
    pub read_on: DayKey,
    pub from: Option<DayKey>,
    pub days: DayMap<CardCounts>,
    pub undated: u32,
}

impl CardHistory {
    /// What the answer says of `day`: nothing before it started counting or after it was
    /// read, and a counted zero on a day in between with no card on it.
    pub open spec fn cards_on(&self, day: Seq<char>) -> Option<CardCounts> {
        match key_text(self.from) {
            None => None,
            Some(from) => if key_lt(day, from) || key_lt(self.read_on@, day) {
                None
            } else {
                match self.days.lookup(day) {
                    Some(c) => Some(c),
                    None => Some(no_cards()),
                }
            },
        }
    }

    pub fn on(&self, day: &DayKey) -> (r: Option<CardCounts>)
        ensures
            r == self.cards_on(day@),
    {
        let from = match &self.from {
            Some(f) => f,
            None => return None,
        };
        if day.is_before(from) || self.read_on.is_before(day) {
            return None;
        }
        match self.days.get(day) {
            Some(c) => Some(c),
            None => Some(CardCounts { word: 0, line: 0, transcript: 0, unsorted: 0 }),
        }
    }

    /// Every card the answer holds, dated or not, stopping at the largest `usize`.
    pub fn total(&self) -> (n: usize)
        ensures
            n == (if dated_sum(self.days.values()) + self.undated as nat > usize::MAX {
                usize::MAX as nat
            } else {
                dated_sum(self.days.values()) + self.undated as nat
            }),
    {
        let len = self.days.len();
        let mut acc: u64 = 0;
        let mut i: usize = 0;
        while i < len
            invariant
                i <= len,
                len == self.days.days().len(),
                self.days.days().len() == self.days.values().len(),
                acc == (if dated_sum(self.days.values().take(i as int)) > u64::MAX {
                    u64::MAX as nat
                } else {
                    dated_sum(self.days.values().take(i as int))
                }),
            decreases len - i,
        {
            let (_, counts) = self.days.entry(i);
            proof {
                let t = self.days.values().take(i + 1);
                assert(t.drop_last() =~= self.days.values().take(i as int));
                assert(t.last() == counts);
            }
            acc = acc.saturating_add(counts.total() as u64);
            i = i + 1;
        }
        proof {
            assert(self.days.values().take(len as int) =~= self.days.values());
        }
        let all = acc.saturating_add(self.undated as u64);
        if all > usize::MAX as u64 {
            usize::MAX
        } else {
            all as usize
        }
    }
}

/// Tallies one answer from Anki: each note on the day it was made and under its kind, a
/// note with no usable day among the undated, and the start of counting moved to the
/// earliest day a note was made where that is earlier than `kept_from`. Every note is
/// counted once: the days' cards and the undated add up to the number of notes.
#[verifier::rlimit(60)]
pub fn tally_dated(
    notes: &[DatedNote],
    read_at_ms: u64,
    read_on: DayKey,
    kept_from: Option<DayKey>,
) -> (h: CardHistory)
    ensures
        h.v == HISTORY_VERSION,
        h.read_at_ms == read_at_ms,
        h.read_on@ == read_on@,
        forall|k: Seq<char>| #[trigger] h.days.lookup(k) == cards_made_on(notes_view(notes@), k),
        h.undated == capped(no_day(notes_view(notes@))),
        key_text(h.from) == earlier_of(key_text(kept_from), earliest_made(notes_view(notes@))),
        notes@.len() <= u32::MAX ==> dated_sum(h.days.values()) + h.undated == notes@.len(),
{
    let mut days: DayMap<CardCounts> = DayMap::new();
    let mut undated: u32 = 0;
    let mut first: Option<DayKey> = None;
    let mut i: usize = 0;
    while i < notes.len()
        invariant
            i <= notes@.len(),
            forall|k: Seq<char>|
                #[trigger] days.lookup(k) == cards_made_on(notes_view(notes@.take(i as int)), k),
            undated == capped(no_day(notes_view(notes@.take(i as int)))),
            key_text(first) == earliest_made(notes_view(notes@.take(i as int))),
            notes@.len() <= u32::MAX ==> dated_sum(days.values()) + no_day(
                notes_view(notes@.take(i as int)),
            ) == i,
        decreases notes.len() - i,
    {
        let ghost before = notes_view(notes@.take(i as int));
        let ghost after = notes_view(notes@.take(i + 1));
        proof {
            assert(after.drop_last() =~= before);
            assert(after.last() == note_view(notes@[i as int]));
        }
        let kind = notes[i].kind;
        match &notes[i].made_on {
            Some(day) => {
                proof {
                    lemma_noted_bounded(before, day@);
                    assert(before.len() == i);
                }
                let ghost values_before = days.values();
                let ghost was = days.lookup(day@);
                let mut counts = match days.get(day) {
                    Some(c) => c,
                    None => CardCounts { word: 0, line: 0, transcript: 0, unsorted: 0 },
                };
                let ghost c0 = counts;
                counts.add(kind);
                days.set(day.copied(), counts);
                proof {
                    if notes@.len() <= u32::MAX {
                        assert(c0.word == noted(before, day@, CardKind::Word));
                        assert(c0.line == noted(before, day@, CardKind::Line));
                        assert(c0.transcript == noted(before, day@, CardKind::Transcript));
                        assert(c0.unsorted == noted(before, day@, CardKind::Unsorted));
                        lemma_one_more_card(values_before, days.values(), was, c0, counts, kind);
                    }
                }
                let earlier = match &first {
                    Some(f) => day.is_before(f),
                    None => true,
                };
                if earlier {
                    first = Some(day.copied());
                }
                proof {
                    assert forall|k: Seq<char>| #[trigger] days.lookup(k) == cards_made_on(after, k) by {
                        if k != day@ {
                            assert(noted(after, k, CardKind::Word) == noted(before, k, CardKind::Word));
                            assert(noted(after, k, CardKind::Line) == noted(before, k, CardKind::Line));
                            assert(noted(after, k, CardKind::Transcript) == noted(before, k, CardKind::Transcript));
                            assert(noted(after, k, CardKind::Unsorted) == noted(before, k, CardKind::Unsorted));
                        }
                    }
                    assert(no_day(after) == no_day(before));
                }
            },
            None => {
                proof {
                    lemma_noted_bounded(before, Seq::empty());
                    assert(before.len() == i);
                }
                undated = undated.saturating_add(1);
                proof {
                    assert forall|k: Seq<char>| #[trigger] days.lookup(k) == cards_made_on(after, k) by {
                        assert(noted(after, k, CardKind::Word) == noted(before, k, CardKind::Word));
                        assert(noted(after, k, CardKind::Line) == noted(before, k, CardKind::Line));
                        assert(noted(after, k, CardKind::Transcript) == noted(before, k, CardKind::Transcript));
                        assert(noted(after, k, CardKind::Unsorted) == noted(before, k, CardKind::Unsorted));
                    }
                }
            },
        }
        i = i + 1;
    }
    proof {
        assert(notes@.take(notes@.len() as int) =~= notes@);
    }
    let from = match (kept_from, first) {
        (None, f) => f,
        (Some(k), None) => Some(k),
        (Some(k), Some(f)) => if f.is_before(&k) {
            Some(f)
        } else {
            Some(k)
        },
    };
    CardHistory { v: HISTORY_VERSION, read_at_ms, read_on, from, days, undated }
}

/// `s` is the notes seen one for one: each note's kind, and a day it can be dated as.
pub open spec fn dated_notes(
    s: Seq<(Option<Seq<char>>, CardKind)>,
    notes: Seq<(i64, CardKind)>,
    read_on: Seq<char>,
) -> bool {
    &&& s.len() == notes.len()
    &&& forall|j: int| 0 <= j < s.len() ==> (#[trigger] s[j]).1 == notes[j].1 && fits_note(notes[j].0, s[j].0, read_on)
}

/// What a note with this id can be dated as: a note id is the millisecond the note was
/// made, so a negative or zero id has no day, and any other is seen as its stamp is.
pub open spec fn fits_note(note_id: i64, day: Option<Seq<char>>, read_on: Seq<char>) -> bool {
    if note_id <= 0 {
        day is None
    } else {
        fits_stamp(note_id as u64, day, read_on)
    }
}

/// The day a note with this id was made on, where it is usable.
pub fn made_on(note_id: i64, read_on: &DayKey) -> (r: Option<DayKey>)
    ensures
        fits_note(note_id, key_text(r), read_on@),
{
    if note_id < 0 {
        None
    } else {
        usable_day(note_id as u64, read_on)
    }
}

/// Tallies one answer from Anki from the notes' ids. Whatever day the clock assigns each
/// note, no day after `read_on` is counted and counting never starts after `kept_from`.
pub fn tally(
    notes: &[(i64, CardKind)],
    read_at_ms: u64,
    read_on: DayKey,
    kept_from: Option<DayKey>,
) -> (h: CardHistory)
    ensures
        h.v == HISTORY_VERSION,
        h.read_at_ms == read_at_ms,
        h.read_on@ == read_on@,
        exists|s: Seq<(Option<Seq<char>>, CardKind)>|
            #[trigger] dated_notes(s, notes@, read_on@) && (forall|k: Seq<char>|
                #[trigger] h.days.lookup(k) == cards_made_on(s, k)) && h.undated == capped(no_day(s))
                && key_text(h.from) == earlier_of(key_text(kept_from), earliest_made(s)),
        kept_from matches Some(k) ==> (h.from matches Some(f) && key_le(f@, k@)),
        kept_from is None && notes@.len() == 0 ==> h.from is None,
        notes@.len() <= u32::MAX ==> dated_sum(h.days.values()) + h.undated == notes@.len(),
{
    let mut dated: Vec<DatedNote> = Vec::new();
    let mut i: usize = 0;
    while i < notes.len()
        invariant
            i <= notes@.len(),
            dated@.len() == i,
            forall|j: int|
                0 <= j < i ==> (#[trigger] dated@[j]).kind == notes@[j].1 && fits_note(
                    notes@[j].0,
                    key_text(dated@[j].made_on),
                    read_on@,
                ),
        decreases notes.len() - i,
    {
        let (id, kind) = notes[i];
        dated.push(DatedNote { made_on: made_on(id, &read_on), kind });
        i = i + 1;
    }
    let ghost read = read_on@;
    let h = tally_dated(dated.as_slice(), read_at_ms, read_on, kept_from);
    proof {
        let s = notes_view(dated@);
        assert forall|j: int| 0 <= j < s.len() implies (#[trigger] s[j]).1 == notes@[j].1 && fits_note(
            notes@[j].0,
            s[j].0,
            read,
        ) by {
            assert(s[j] == note_view(dated@[j]));
        }
        assert(dated_notes(s, notes@, read));
        if dated@.len() == 0 {
            assert(notes_view(dated@).len() == 0);
        }
        match (key_text(kept_from), earliest_made(notes_view(dated@))) {
            (Some(k), Some(e)) => {
                if key_lt(e, k) {
                    lemma_key_lt_asymmetric(e, k);
                }
            },
            _ => {},
        }
    }
    h
}

} // verus!
