//! How the readings of the word list group into the lists they were taken with, which
//! readings only repeat the one before them, and what each step from one list to the next
//! can be compared over.
use vstd::prelude::*;

use super::report::{compare, reading_comparison, tally_fits, ItemComparison};
use super::store::{Sample, SampleItem};
use crate::text::{chars_of, seq_eq};

verus! {

/// Why a step from one word list to the next is not compared.
#[derive(Debug, Clone, Copy, PartialEq, Eq, Structural)]
pub enum NotCompared {
    SettingsChanged,
    NothingInCommon,
}

/// A count of known words, when it was taken, and whether the settings changed since the
/// count before it.
#[derive(Debug, Clone, Copy, PartialEq, Eq, Structural)]
pub struct WordsPoint {
    pub at_ms: u64,
    pub words: u32,
    pub settings_changed: bool,
}

/// Two readings were taken with one word list: the list built at the same moment.
pub open spec fn same_word_list(a: Sample, b: Sample) -> bool {
    a.index_built_at_ms == b.index_built_at_ms
}

pub fn is_same_word_list(a: &Sample, b: &Sample) -> (r: bool)
    ensures
        r == same_word_list(*a, *b),
{
    a.index_built_at_ms == b.index_built_at_ms
}

/// An item as its key, fingerprint and counts.
pub open spec fn item_view(i: SampleItem) -> (Seq<char>, Seq<char>, u32, u32) {
    (i.key@, i.fingerprint@, i.content_tokens, i.known_tokens)
}

pub open spec fn item_views(items: Seq<SampleItem>) -> Seq<(Seq<char>, Seq<char>, u32, u32)> {
    items.map_values(|i: SampleItem| item_view(i))
}

/// A reading that measured exactly what the one before it did, under the same settings,
/// whatever rebuilt the word list in between: it adds a repeat and nothing else.
pub open spec fn repeats(earlier: Sample, later: Sample) -> bool {
    earlier.build@ == later.build@ && item_views(earlier.items@) == item_views(later.items@)
}

fn same_items(a: &[SampleItem], b: &[SampleItem]) -> (r: bool)
    ensures
        r == (item_views(a@) == item_views(b@)),
{
    if a.len() != b.len() {
        proof {
            assert(item_views(a@).len() != item_views(b@).len());
        }
        return false;
    }
    let mut i: usize = 0;
    while i < a.len()
        invariant
            i <= a@.len(),
            a@.len() == b@.len(),
            forall|k: int| 0 <= k < i ==> item_view(#[trigger] a@[k]) == item_view(b@[k]),
        decreases a.len() - i,
    {
        let same = seq_eq(chars_of(a[i].key.as_str()).as_slice(), chars_of(b[i].key.as_str()).as_slice())
            && seq_eq(
            chars_of(a[i].fingerprint.as_str()).as_slice(),
            chars_of(b[i].fingerprint.as_str()).as_slice(),
        ) && a[i].content_tokens == b[i].content_tokens && a[i].known_tokens == b[i].known_tokens;
        if !same {
            proof {
                assert(item_views(a@)[i as int] != item_views(b@)[i as int]);
            }
            return false;
        }
        i = i + 1;
    }
    proof {
        assert(item_views(a@) =~= item_views(b@));
    }
    true
}

pub fn is_repeat(earlier: &Sample, later: &Sample) -> (r: bool)
    ensures
        r == repeats(*earlier, *later),
{
    seq_eq(chars_of(earlier.build.as_str()).as_slice(), chars_of(later.build.as_str()).as_slice())
        && same_items(earlier.items.as_slice(), later.items.as_slice())
}

/// The readings grouped by the word list they were taken with, oldest first, each group as
/// the places of its first and last reading; a repeat joins the group before it.
pub open spec fn versions_of(s: Seq<Sample>) -> Seq<(int, int)>
    decreases s.len(),
{
    if s.len() == 0 {
        Seq::empty()
    } else {
        let v = versions_of(s.drop_last());
        let k = s.len() - 1;
        if v.len() > 0 && (same_word_list(s[v.last().1], s[k]) || repeats(s[v.last().1], s[k])) {
            v.update(v.len() - 1, (v.last().0, k))
        } else {
            v.push((k, k))
        }
    }
}

proof fn lemma_versions_bounds(s: Seq<Sample>)
    ensures
        forall|j: int|
            0 <= j < versions_of(s).len() ==> 0 <= (#[trigger] versions_of(s)[j]).0 <= versions_of(s)[j].1
                < s.len(),
    decreases s.len(),
{
    if s.len() > 0 {
        lemma_versions_bounds(s.drop_last());
        let v = versions_of(s.drop_last());
        if v.len() > 0 {
            assert(0 <= v[v.len() - 1].0 <= v[v.len() - 1].1 < s.len() - 1);
        }
        assert forall|j: int| 0 <= j < versions_of(s).len() implies 0 <= (#[trigger] versions_of(s)[j]).0
            <= versions_of(s)[j].1 < s.len() by {
            if j < v.len() {
                assert(0 <= v[j].0 <= v[j].1 < s.len() - 1);
            }
        }
    }
}

pub fn versions(samples: &[Sample]) -> (out: Vec<(usize, usize)>)
    ensures
        out@.len() == versions_of(samples@).len(),
        forall|j: int|
            0 <= j < out@.len() ==> (#[trigger] out@[j]).0 as int == versions_of(samples@)[j].0 && out@[j].1 as int
                == versions_of(samples@)[j].1,
{
    let mut out: Vec<(usize, usize)> = Vec::new();
    let mut i: usize = 0;
    while i < samples.len()
        invariant
            i <= samples@.len(),
            out@.len() == versions_of(samples@.take(i as int)).len(),
            forall|j: int|
                0 <= j < out@.len() ==> (#[trigger] out@[j]).0 as int == versions_of(samples@.take(i as int))[j].0
                    && out@[j].1 as int == versions_of(samples@.take(i as int))[j].1,
        decreases samples.len() - i,
    {
        let ghost t = samples@.take(i + 1);
        proof {
            assert(t.drop_last() =~= samples@.take(i as int));
            lemma_versions_bounds(samples@.take(i as int));
        }
        let n = out.len();
        let joins = if n > 0 {
            let last = out[n - 1];
            proof {
                assert(t[last.1 as int] == samples@[last.1 as int]);
            }
            is_same_word_list(&samples[last.1], &samples[i]) || is_repeat(&samples[last.1], &samples[i])
        } else {
            false
        };
        if joins {
            let first = out[n - 1].0;
            out.set(n - 1, (first, i));
        } else {
            out.push((i, i));
        }
        i = i + 1;
    }
    assert(samples@.take(samples@.len() as int) =~= samples@);
    out
}

/// How many readings are not a repeat of the one before them.
pub open spec fn distinct_count(s: Seq<Sample>) -> nat
    decreases s.len(),
{
    if s.len() == 0 {
        0
    } else {
        distinct_count(s.drop_last()) + if s.len() == 1 || !repeats(s[s.len() - 2], s[s.len() - 1]) {
            1nat
        } else {
            0nat
        }
    }
}

proof fn lemma_distinct_bound(s: Seq<Sample>)
    ensures
        distinct_count(s) <= s.len(),
    decreases s.len(),
{
    if s.len() > 0 {
        lemma_distinct_bound(s.drop_last());
    }
}

pub fn distinct_readings(samples: &[Sample]) -> (n: usize)
    ensures
        n == distinct_count(samples@),
{
    let mut n: usize = 0;
    let mut i: usize = 0;
    while i < samples.len()
        invariant
            i <= samples@.len(),
            n == distinct_count(samples@.take(i as int)),
        decreases samples.len() - i,
    {
        let ghost t = samples@.take(i + 1);
        proof {
            assert(t.drop_last() =~= samples@.take(i as int));
            lemma_distinct_bound(samples@.take(i as int));
        }
        if i == 0 || !is_repeat(&samples[i - 1], &samples[i]) {
            n = n + 1;
        }
        i = i + 1;
    }
    assert(samples@.take(samples@.len() as int) =~= samples@);
    n
}

/// The readings in runs taken with one word list, each run as `[start, end)`; no repeat
/// is merged, since a count belongs to a list.
pub open spec fn word_lists_of(s: Seq<Sample>) -> Seq<(int, int)>
    decreases s.len(),
{
    if s.len() == 0 {
        Seq::empty()
    } else {
        let g = word_lists_of(s.drop_last());
        let k = s.len() - 1;
        if k > 0 && same_word_list(s[k - 1], s[k]) {
            g.update(g.len() - 1, (g.last().0, k + 1))
        } else {
            g.push((k, k + 1))
        }
    }
}

proof fn lemma_word_lists_nonempty(s: Seq<Sample>)
    ensures
        s.len() > 0 ==> word_lists_of(s).len() > 0,
    decreases s.len(),
{
    if s.len() > 0 {
        lemma_word_lists_nonempty(s.drop_last());
    }
}

pub fn word_lists(samples: &[Sample]) -> (out: Vec<(usize, usize)>)
    ensures
        out@.len() == word_lists_of(samples@).len(),
        forall|j: int|
            0 <= j < out@.len() ==> (#[trigger] out@[j]).0 as int == word_lists_of(samples@)[j].0 && out@[j].1 as int
                == word_lists_of(samples@)[j].1,
{
    let mut out: Vec<(usize, usize)> = Vec::new();
    let mut i: usize = 0;
    while i < samples.len()
        invariant
            i <= samples@.len(),
            out@.len() == word_lists_of(samples@.take(i as int)).len(),
            forall|j: int|
                0 <= j < out@.len() ==> (#[trigger] out@[j]).0 as int == word_lists_of(samples@.take(i as int))[j].0
                    && out@[j].1 as int == word_lists_of(samples@.take(i as int))[j].1,
        decreases samples.len() - i,
    {
        let ghost t = samples@.take(i + 1);
        proof {
            assert(t.drop_last() =~= samples@.take(i as int));
            lemma_word_lists_nonempty(samples@.take(i as int));
        }
        if i > 0 && is_same_word_list(&samples[i - 1], &samples[i]) {
            let n = out.len();
            let start = out[n - 1].0;
            out.set(n - 1, (start, i + 1));
        } else {
            out.push((i, i + 1));
        }
        i = i + 1;
    }
    assert(samples@.take(samples@.len() as int) =~= samples@);
    out
}

/// A count of `words` at `at_ms` under the settings `build`, marked where the settings of
/// the count before it, if any, differ.
pub fn word_point(at_ms: u64, words: u32, build: &str, previous: Option<&str>) -> (p: WordsPoint)
    ensures
        p.at_ms == at_ms,
        p.words == words,
        p.settings_changed == (previous is Some && previous->Some_0@ != build@),
{
    let settings_changed = match previous {
        Some(earlier) => !seq_eq(chars_of(earlier).as_slice(), chars_of(build).as_slice()),
        None => false,
    };
    WordsPoint { at_ms, words, settings_changed }
}

/// Why the step from the last reading of one list to the first of the next is not compared,
/// when it is not: the settings changed, or nothing was left in common.
pub open spec fn not_compared_reason(before: Sample, first: Sample) -> Option<NotCompared> {
    if reading_comparison(before, first) is Some {
        None
    } else if before.build@ != first.build@ {
        Some(NotCompared::SettingsChanged)
    } else {
        Some(NotCompared::NothingInCommon)
    }
}

/// The step from the last reading of one word list to the first of the next: compared over
/// the transcripts both had unchanged, or the reason it is not.
pub fn level_step(before: &Sample, first: &Sample) -> (r: (Option<ItemComparison>, Option<NotCompared>))
    requires
        tally_fits(before.items@, first.items@),
    ensures
        r.0 == reading_comparison(*before, *first),
        r.1 == not_compared_reason(*before, *first),
{
    let step = compare(before, first);
    let reason = match step {
        Some(_) => None,
        None => if !seq_eq(chars_of(before.build.as_str()).as_slice(), chars_of(first.build.as_str()).as_slice()) {
            Some(NotCompared::SettingsChanged)
        } else {
            Some(NotCompared::NothingInCommon)
        },
    };
    (step, reason)
}

} // verus!
