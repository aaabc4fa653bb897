//! How two readings of the word list compare: over the transcripts both had unchanged, so
//! material added in between, or a transcript whose text changed, cannot move the line.
use vstd::prelude::*;

use super::store::{Sample, SampleItem};
use crate::text::{chars_of, decimal, decimal_exec, push_str, seq_eq, string_of};

verus! {

/// The item of `items` with `key` that a lookup by key finds: the last one.
pub open spec fn last_with_key(items: Seq<SampleItem>, key: Seq<char>) -> Option<SampleItem>
    decreases items.len(),
{
    if items.len() == 0 {
        None
    } else if items.last().key@ == key {
        Some(items.last())
    } else {
        last_with_key(items.drop_last(), key)
    }
}

/// Content and known tokens of both readings over the items compared, and how many items
/// were compared, added since the earlier reading, or changed in text.
pub struct ItemTally {
    pub earlier_content: nat,
    pub earlier_known: nat,
    pub later_content: nat,
    pub later_known: nat,
    pub compared: nat,
    pub added: nat,
    pub changed: nat,
}

pub open spec fn empty_tally() -> ItemTally {
    ItemTally {
        earlier_content: 0,
        earlier_known: 0,
        later_content: 0,
        later_known: 0,
        compared: 0,
        added: 0,
        changed: 0,
    }
}

/// Each later item against the earlier reading's item with its key: added where there is
/// none, changed where the text's fingerprint differs, compared otherwise.
pub open spec fn item_tally(earlier: Seq<SampleItem>, later: Seq<SampleItem>) -> ItemTally
    decreases later.len(),
{
    if later.len() == 0 {
        empty_tally()
    } else {
        let t = item_tally(earlier, later.drop_last());
        let item = later.last();
        match last_with_key(earlier, item.key@) {
            None => ItemTally { added: t.added + 1, ..t },
            Some(before) => if before.fingerprint@ != item.fingerprint@ {
                ItemTally { changed: t.changed + 1, ..t }
            } else {
                ItemTally {
                    earlier_content: t.earlier_content + before.content_tokens as nat,
                    earlier_known: t.earlier_known + before.known_tokens as nat,
                    later_content: t.later_content + item.content_tokens as nat,
                    later_known: t.later_known + item.known_tokens as nat,
                    compared: t.compared + 1,
                    ..t
                }
            },
        }
    }
}

/// Two readings over the items they share unchanged.
#[derive(Debug, Clone, Copy, PartialEq, Eq, Structural)]
pub struct ItemComparison {
    pub earlier_content: u32,
    pub earlier_known: u32,
    pub later_content: u32,
    pub later_known: u32,
    pub items_compared: usize,
    pub items_added: usize,
    pub items_changed: usize,
}

/// Whether the pooled counts of `item_tally` fit the counters they are kept in.
pub open spec fn tally_fits(earlier: Seq<SampleItem>, later: Seq<SampleItem>) -> bool {
    let t = item_tally(earlier, later);
    &&& t.earlier_content <= u32::MAX
    &&& t.earlier_known <= u32::MAX
    &&& t.later_content <= u32::MAX
    &&& t.later_known <= u32::MAX
}

/// The comparison of two readings' items, or `None` where nothing is left to compare: no
/// item in common unchanged, or no content on either side of it.
pub open spec fn compared_items(earlier: Seq<SampleItem>, later: Seq<SampleItem>) -> Option<
    ItemComparison,
> {
    let t = item_tally(earlier, later);
    if t.compared == 0 || t.earlier_content == 0 || t.later_content == 0 {
        None
    } else {
        Some(
            ItemComparison {
                earlier_content: t.earlier_content as u32,
                earlier_known: t.earlier_known as u32,
                later_content: t.later_content as u32,
                later_known: t.later_known as u32,
                items_compared: t.compared as usize,
                items_added: t.added as usize,
                items_changed: t.changed as usize,
            },
        )
    }
}

proof fn lemma_tally_grows(earlier: Seq<SampleItem>, later: Seq<SampleItem>, n: int)
    requires
        0 <= n <= later.len(),
    ensures
        ({
            let a = item_tally(earlier, later.take(n));
            let b = item_tally(earlier, later);
            &&& a.earlier_content <= b.earlier_content
            &&& a.earlier_known <= b.earlier_known
            &&& a.later_content <= b.later_content
            &&& a.later_known <= b.later_known
            &&& a.compared + a.added + a.changed == n
        }),
    decreases later.len() - n,
{
    if n < later.len() {
        lemma_tally_grows(earlier, later, n + 1);
        assert(later.take(n + 1).drop_last() =~= later.take(n));
    } else {
        assert(later.take(n) =~= later);
    }
    lemma_tally_count(earlier, later.take(n));
}

proof fn lemma_tally_count(earlier: Seq<SampleItem>, later: Seq<SampleItem>)
    ensures
        item_tally(earlier, later).compared + item_tally(earlier, later).added + item_tally(
            earlier,
            later,
        ).changed == later.len(),
    decreases later.len(),
{
    if later.len() > 0 {
        lemma_tally_count(earlier, later.drop_last());
    }
}

fn same_text(a: &str, b: &str) -> (r: bool)
    ensures
        r == (a@ == b@),
{
    let x = chars_of(a);
    let y = chars_of(b);
    seq_eq(x.as_slice(), y.as_slice())
}

/// Where in `items` a lookup by `key` lands: its last item with that key.
fn find_by_key(items: &[SampleItem], key: &str) -> (r: Option<usize>)
    ensures
        match r {
            Some(j) => j < items@.len() && last_with_key(items@, key@) == Some(items@[j as int]),
            None => last_with_key(items@, key@) is None,
        },
{
    let mut j: usize = items.len();
    assert(items@.take(j as int) =~= items@);
    while j > 0
        invariant
            j <= items@.len(),
            last_with_key(items@, key@) == last_with_key(items@.take(j as int), key@),
        decreases j,
    {
        let ghost t = items@.take(j as int);
        assert(t.drop_last() =~= items@.take(j - 1));
        assert(t.last() == items@[j - 1]);
        if same_text(items[j - 1].key.as_str(), key) {
            return Some(j - 1);
        }
        j = j - 1;
    }
    None
}

/// Compares a later reading's items with an earlier one's, pooling the tokens of the items
/// both have unchanged.
pub fn compare_items(earlier: &[SampleItem], later: &[SampleItem]) -> (r: Option<ItemComparison>)
    requires
        tally_fits(earlier@, later@),
    ensures
        r == compared_items(earlier@, later@),
{
    let mut earlier_content: u32 = 0;
    let mut earlier_known: u32 = 0;
    let mut later_content: u32 = 0;
    let mut later_known: u32 = 0;
    let mut compared: usize = 0;
    let mut added: usize = 0;
    let mut changed: usize = 0;
    let mut i: usize = 0;
    while i < later.len()
        invariant
            i <= later@.len(),
            tally_fits(earlier@, later@),
            ({
                let t = item_tally(earlier@, later@.take(i as int));
                &&& earlier_content == t.earlier_content
                &&& earlier_known == t.earlier_known
                &&& later_content == t.later_content
                &&& later_known == t.later_known
                &&& compared == t.compared
                &&& added == t.added
                &&& changed == t.changed
            }),
        decreases later.len() - i,
    {
        proof {
            assert(later@.take(i + 1).drop_last() =~= later@.take(i as int));
            assert(later@.take(i + 1).last() == later@[i as int]);
            lemma_tally_grows(earlier@, later@, i + 1);
            lemma_tally_count(earlier@, later@.take(i as int));
        }
        let item = &later[i];
        match find_by_key(earlier, item.key.as_str()) {
            None => added = added + 1,
            Some(j) => {
                let before = &earlier[j];
                if !same_text(before.fingerprint.as_str(), item.fingerprint.as_str()) {
                    changed = changed + 1;
                } else {
                    earlier_content = earlier_content + before.content_tokens;
                    earlier_known = earlier_known + before.known_tokens;
                    later_content = later_content + item.content_tokens;
                    later_known = later_known + item.known_tokens;
                    compared = compared + 1;
                }
            },
        }
        i = i + 1;
    }
    assert(later@.take(later@.len() as int) =~= later@);
    if compared == 0 || earlier_content == 0 || later_content == 0 {
        return None;
    }
    Some(
        ItemComparison {
            earlier_content,
            earlier_known,
            later_content,
            later_known,
            items_compared: compared,
            items_added: added,
            items_changed: changed,
        },
    )
}

/// Every later item is compared, added or changed, once: the three counts add up to the
/// number of items in the later reading.
pub proof fn law_each_later_item_is_counted_once(earlier: Seq<SampleItem>, later: Seq<SampleItem>)
    ensures
        item_tally(earlier, later).compared + item_tally(earlier, later).added + item_tally(
            earlier,
            later,
        ).changed == later.len(),
{
    lemma_tally_count(earlier, later);
}

/// How far the latest reading's coverage can be trusted.
#[derive(Debug, Clone, PartialEq, Eq)]
pub enum CoverageVerdict {
    /// No number to show, and why.
    Unavailable(String),
    /// A number taken under settings that have since changed, and what to do about it.
    Stale(String),
    /// A number that covers less than the whole library, and why.
    Partial(String),
    /// A number to show as it is.
    Known,
}

pub open spec fn nothing_measured_message() -> Seq<char> {
    "Nothing has been measured yet. Refresh your word list to take a first reading."@
}

pub open spec fn no_text_message() -> Seq<char> {
    "The last reading found no Japanese text to measure."@
}

pub open spec fn settings_changed_message() -> Seq<char> {
    "Your vocabulary settings changed after this reading. Refresh your word list for a current one."@
}

/// Two readings compare only when their word lists were built under the same vocabulary
/// settings, as the readings store them; then the items they share unchanged decide.
pub open spec fn reading_comparison(earlier: Sample, later: Sample) -> Option<ItemComparison> {
    if earlier.build@ == later.build@ {
        compared_items(earlier.items@, later.items@)
    } else {
        None
    }
}

pub fn compare(earlier: &Sample, later: &Sample) -> (r: Option<ItemComparison>)
    requires
        tally_fits(earlier.items@, later.items@),
    ensures
        r == reading_comparison(*earlier, *later),
{
    if !seq_eq(chars_of(earlier.build.as_str()).as_slice(), chars_of(later.build.as_str()).as_slice()) {
        return None;
    }
    compare_items(earlier.items.as_slice(), later.items.as_slice())
}

/// A comparison of two readings accounts for every item of the later one: compared,
/// added since the earlier one, or changed in text.
pub proof fn law_a_comparison_counts_every_later_item(earlier: Sample, later: Sample)
    requires
        later.items@.len() <= usize::MAX,
    ensures
        reading_comparison(earlier, later) matches Some(c) ==> c.items_compared + c.items_added
            + c.items_changed == later.items@.len(),
{
    lemma_tally_count(earlier.items@, later.items@);
}

/// The latest reading against the nearest of the first `n` readings it compares with,
/// with when that one was taken.
pub open spec fn comparison_within(samples: Seq<Sample>, latest: Sample, n: int) -> Option<(u64, ItemComparison)>
    decreases n,
{
    if n <= 0 {
        None
    } else {
        match reading_comparison(samples[n - 1], latest) {
            Some(c) => Some((samples[n - 1].taken_at_ms, c)),
            None => comparison_within(samples, latest, n - 1),
        }
    }
}

/// The latest reading against the nearest earlier one it compares with, reaching past
/// readings taken under other settings or with nothing in common.
pub open spec fn latest_comparison_of(samples: Seq<Sample>) -> Option<(u64, ItemComparison)> {
    if samples.len() == 0 {
        None
    } else {
        comparison_within(samples, samples.last(), samples.len() - 1)
    }
}

proof fn lemma_comparison_within_nearest(samples: Seq<Sample>, latest: Sample, n: int)
    requires
        n <= samples.len(),
    ensures
        comparison_within(samples, latest, n) is Some ==> exists|i: int|
            #![trigger samples[i]]
            0 <= i < n && reading_comparison(samples[i], latest) is Some && comparison_within(
                samples,
                latest,
                n,
            ) == Some((samples[i].taken_at_ms, reading_comparison(samples[i], latest)->Some_0))
                && forall|j: int| i < j < n ==> reading_comparison(#[trigger] samples[j], latest) is None,
        comparison_within(samples, latest, n) is None ==> forall|j: int|
            0 <= j < n ==> reading_comparison(#[trigger] samples[j], latest) is None,
    decreases n,
{
    if n > 0 {
        lemma_comparison_within_nearest(samples, latest, n - 1);
        if reading_comparison(samples[n - 1], latest) is Some {
            let i = n - 1;
            assert(0 <= i < n && reading_comparison(samples[i], latest) is Some);
        } else if comparison_within(samples, latest, n - 1) is Some {
            let i = choose|i: int|
                #![trigger samples[i]]
                0 <= i < n - 1 && reading_comparison(samples[i], latest) is Some && comparison_within(
                    samples,
                    latest,
                    n - 1,
                ) == Some((samples[i].taken_at_ms, reading_comparison(samples[i], latest)->Some_0))
                    && forall|j: int| i < j < n - 1 ==> reading_comparison(#[trigger] samples[j], latest) is None;
            assert forall|j: int| i < j < n implies reading_comparison(#[trigger] samples[j], latest) is None by {
                if j == n - 1 {
                }
            }
        }
    }
}

/// The latest reading is compared with the nearest earlier reading that compares with it:
/// the one used compares, no reading between it and the latest does, and where none is
/// used no earlier reading compares at all.
pub proof fn law_the_nearest_comparable_reading_is_used(samples: Seq<Sample>)
    ensures
        latest_comparison_of(samples) is Some ==> exists|i: int|
            #![trigger samples[i]]
            0 <= i < samples.len() - 1 && reading_comparison(samples[i], samples.last()) is Some
                && latest_comparison_of(samples) == Some(
                (samples[i].taken_at_ms, reading_comparison(samples[i], samples.last())->Some_0),
            ) && forall|j: int|
                i < j < samples.len() - 1 ==> reading_comparison(#[trigger] samples[j], samples.last()) is None,
        latest_comparison_of(samples) is None ==> forall|j: int|
            0 <= j < samples.len() - 1 ==> reading_comparison(#[trigger] samples[j], samples.last()) is None,
{
    if samples.len() > 0 {
        lemma_comparison_within_nearest(samples, samples.last(), samples.len() - 1);
    }
}

pub fn latest_comparison(samples: &[Sample]) -> (r: Option<(u64, ItemComparison)>)
    requires
        forall|i: int|
            0 <= i < samples@.len() - 1 ==> tally_fits(#[trigger] samples@[i].items@, samples@.last().items@),
    ensures
        r == latest_comparison_of(samples@),
{
    if samples.len() == 0 {
        return None;
    }
    let last = samples.len() - 1;
    let mut n = last;
    while n > 0
        invariant
            n <= last,
            last == samples@.len() - 1,
            forall|i: int|
                0 <= i < samples@.len() - 1 ==> tally_fits(#[trigger] samples@[i].items@, samples@.last().items@),
            latest_comparison_of(samples@) == comparison_within(samples@, samples@[last as int], n as int),
        decreases n,
    {
        match compare(&samples[n - 1], &samples[last]) {
            Some(c) => {
                return Some((samples[n - 1].taken_at_ms, c));
            },
            None => {},
        }
        n = n - 1;
    }
    None
}

/// The reason a reading that missed `unread` transcripts gives.
pub open spec fn partial_message(unread: nat) -> Seq<char> {
    decimal(unread) + " transcript"@ + (if unread == 1 {
        ""@
    } else {
        "s"@
    }) + " could not be read, so this covers less than your whole library."@
}

/// What the latest reading says of coverage, from its pooled content tokens, whether the
/// word list it was taken with was built under the current settings, and how many
/// transcripts it could not read: nothing without a reading or without content in it;
/// stale where the settings changed; partial where transcripts were missed; known otherwise.
pub fn coverage_verdict(latest: Option<(u32, bool, u32)>) -> (v: CoverageVerdict)
    ensures
        match latest {
            None => (v matches CoverageVerdict::Unavailable(m) && m@ == nothing_measured_message()),
            Some((content, settings_match, unread)) => if content == 0 {
                (v matches CoverageVerdict::Unavailable(m) && m@ == no_text_message())
            } else if !settings_match {
                (v matches CoverageVerdict::Stale(m) && m@ == settings_changed_message())
            } else if unread > 0 {
                (v matches CoverageVerdict::Partial(m) && m@ == partial_message(unread as nat))
            } else {
                v is Known
            },
        },
{
    let (content, settings_match, unread) = match latest {
        None => {
            return CoverageVerdict::Unavailable(
                "Nothing has been measured yet. Refresh your word list to take a first reading.".to_string(),
            );
        },
        Some(l) => l,
    };
    if content == 0 {
        return CoverageVerdict::Unavailable(
            "The last reading found no Japanese text to measure.".to_string(),
        );
    }
    if !settings_match {
        return CoverageVerdict::Stale(
            "Your vocabulary settings changed after this reading. Refresh your word list for a current one.".to_string(),
        );
    }
    if unread > 0 {
        let mut m = decimal_exec(unread as u64);
        push_str(&mut m, " transcript");
        if unread != 1 {
            push_str(&mut m, "s");
        } else {
            proof {
                reveal_strlit("");
            }
            assert(m@ =~= m@ + ""@);
        }
        push_str(&mut m, " could not be read, so this covers less than your whole library.");
        return CoverageVerdict::Partial(string_of(m.as_slice()));
    }
    CoverageVerdict::Known
}

} // verus!
