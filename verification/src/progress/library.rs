//! What the library holds, counted: how much audio, where each item came from, and how many
//! are transcribed, Japanese and translated.
use vstd::prelude::*;

use crate::library::transcripts::RecordingTranscript;
use crate::text::{chars_of, lower_seq, lowercase, seq_eq, trim, trimmed};

verus! {

/// What the report reads of one library item.
#[derive(Debug)]
pub struct LibraryItem {
    pub duration_ms: u64,
    pub source: Option<String>,
    pub transcripts: Vec<RecordingTranscript>,
    pub translation_path: Option<String>,
}

/// The library, counted.
#[derive(Debug, Clone, Copy, PartialEq, Eq, Structural)]
pub struct LibraryReport {
    pub items: usize,
    pub total_ms: u64,
    pub items_without_length: usize,
    pub recorded: usize,
    pub imported_from_a_link: usize,
    pub imported_from_a_file: usize,
    pub unknown_origin: usize,
    pub transcribed: usize,
    pub japanese: usize,
    pub translated: usize,
}

/// A transcript is Japanese when its language is `ja`, or `auto` with `ja` detected; each
/// read trimmed and in any ASCII case.
pub open spec fn is_japanese(t: RecordingTranscript) -> bool {
    let language = lower_seq(trim(t.language@));
    let detected = match t.detected_language {
        Some(d) => lower_seq(trim(d@)),
        None => Seq::empty(),
    };
    language == "ja"@ || (language == "auto"@ && detected == "ja"@)
}

pub open spec fn any_japanese(ts: Seq<RecordingTranscript>) -> bool {
    exists|i: int| 0 <= i < ts.len() && is_japanese(#[trigger] ts[i])
}

/// The total length of the items that have one.
pub open spec fn total_length(items: Seq<LibraryItem>) -> int
    decreases items.len(),
{
    if items.len() == 0 {
        0
    } else {
        total_length(items.drop_last()) + items.last().duration_ms
    }
}

/// How many items satisfy `p`.
pub open spec fn count_where(items: Seq<LibraryItem>, p: spec_fn(LibraryItem) -> bool) -> nat
    decreases items.len(),
{
    if items.len() == 0 {
        0
    } else {
        count_where(items.drop_last(), p) + if p(items.last()) {
            1nat
        } else {
            0nat
        }
    }
}

/// The report for a library: every item counted once in each tally, and in exactly one of
/// the four origins (recorded, a file, a link, or unknown for a missing or unrecognised
/// source).
pub open spec fn report_of(items: Seq<LibraryItem>) -> LibraryReport
    decreases items.len(),
{
    if items.len() == 0 {
        LibraryReport {
            items: 0,
            total_ms: 0,
            items_without_length: 0,
            recorded: 0,
            imported_from_a_link: 0,
            imported_from_a_file: 0,
            unknown_origin: 0,
            transcribed: 0,
            japanese: 0,
            translated: 0,
        }
    } else {
        let r = report_of(items.drop_last());
        let it = items.last();
        let src = match it.source {
            Some(s) => s@,
            None => Seq::empty(),
        };
        let known = it.source is Some;
        LibraryReport {
            items: (r.items + 1) as usize,
            total_ms: (r.total_ms + it.duration_ms) as u64,
            items_without_length: (r.items_without_length + if it.duration_ms == 0 { 1int } else { 0int }) as usize,
            recorded: (r.recorded + if known && src == "recording"@ { 1int } else { 0int }) as usize,
            imported_from_a_file: (r.imported_from_a_file + if known && src == "import"@ { 1int } else { 0int }) as usize,
            imported_from_a_link: (r.imported_from_a_link + if known && src == "youtube"@ { 1int } else { 0int }) as usize,
            unknown_origin: (r.unknown_origin + if known && (src == "recording"@ || src == "import"@ || src == "youtube"@) {
                0int
            } else {
                1int
            }) as usize,
            transcribed: (r.transcribed + if it.transcripts@.len() > 0 { 1int } else { 0int }) as usize,
            japanese: (r.japanese + if any_japanese(it.transcripts@) { 1int } else { 0int }) as usize,
            translated: (r.translated + if it.translation_path is Some { 1int } else { 0int }) as usize,
        }
    }
}

proof fn lemma_report_bounds(items: Seq<LibraryItem>)
    requires
        items.len() <= usize::MAX,
        total_length(items) <= u64::MAX,
    ensures
        report_of(items).items == items.len(),
        report_of(items).total_ms == total_length(items),
        report_of(items).items_without_length <= items.len(),
        report_of(items).recorded <= items.len(),
        report_of(items).imported_from_a_file <= items.len(),
        report_of(items).imported_from_a_link <= items.len(),
        report_of(items).unknown_origin <= items.len(),
        report_of(items).transcribed <= items.len(),
        report_of(items).japanese <= items.len(),
        report_of(items).translated <= items.len(),
        report_of(items).recorded + report_of(items).imported_from_a_file + report_of(items).imported_from_a_link
            + report_of(items).unknown_origin == items.len(),
    decreases items.len(),
{
    reveal_strlit("recording");
    reveal_strlit("import");
    reveal_strlit("youtube");
    if items.len() > 0 {
        lemma_total_prefix(items, items.len() - 1);
        assert(items.take(items.len() - 1) =~= items.drop_last());
        lemma_report_bounds(items.drop_last());
        let r = report_of(items.drop_last());
        let it = items.last();
        let src = match it.source {
            Some(s) => s@,
            None => Seq::empty(),
        };
        let known = it.source is Some;
        let a: int = if known && src == "recording"@ { 1 } else { 0 };
        let b: int = if known && src == "import"@ { 1 } else { 0 };
        let c: int = if known && src == "youtube"@ { 1 } else { 0 };
        let d: int = if known && (src == "recording"@ || src == "import"@ || src == "youtube"@) { 0 } else { 1 };
        assert("recording"@.len() == 9 && "import"@.len() == 6 && "youtube"@.len() == 7);
        assert(a + b + c + d == 1);
        assert(report_of(items).recorded == r.recorded + a);
        assert(report_of(items).imported_from_a_file == r.imported_from_a_file + b);
        assert(report_of(items).imported_from_a_link == r.imported_from_a_link + c);
        assert(report_of(items).unknown_origin == r.unknown_origin + d);
    }
}

fn is_japanese_exec(t: &RecordingTranscript) -> (b: bool)
    ensures
        b == is_japanese(*t),
{
    let language = lowercase(trimmed(chars_of(t.language.as_str()).as_slice()).as_slice());
    let detected = match &t.detected_language {
        Some(d) => lowercase(trimmed(chars_of(d.as_str()).as_slice()).as_slice()),
        None => Vec::new(),
    };
    proof {
        if t.detected_language is None {
            assert(detected@ =~= Seq::<char>::empty());
        }
    }
    seq_eq(language.as_slice(), chars_of("ja").as_slice()) || (seq_eq(language.as_slice(), chars_of("auto").as_slice())
        && seq_eq(detected.as_slice(), chars_of("ja").as_slice()))
}

/// Counts the library. Every item lands in exactly one origin.
pub fn summarise(recordings: &[LibraryItem]) -> (r: LibraryReport)
    requires
        total_length(recordings@) <= u64::MAX,
    ensures
        r == report_of(recordings@),
        r.items == recordings@.len(),
        r.total_ms == total_length(recordings@),
        r.recorded + r.imported_from_a_file + r.imported_from_a_link + r.unknown_origin == r.items,
{
    let mut report = LibraryReport {
        items: 0,
        total_ms: 0,
        items_without_length: 0,
        recorded: 0,
        imported_from_a_link: 0,
        imported_from_a_file: 0,
        unknown_origin: 0,
        transcribed: 0,
        japanese: 0,
        translated: 0,
    };
    let mut i: usize = 0;
    while i < recordings.len()
        invariant
            i <= recordings@.len(),
            total_length(recordings@) <= u64::MAX,
            report == report_of(recordings@.take(i as int)),
        decreases recordings.len() - i,
    {
        let ghost prefix = recordings@.take(i + 1);
        assert(prefix.drop_last() =~= recordings@.take(i as int));
        proof {
            lemma_total_prefix(recordings@, i + 1);
            lemma_total_prefix(recordings@, i as int);
            lemma_report_bounds(prefix);
            lemma_report_bounds(recordings@.take(i as int));
        }
        let it = &recordings[i];
        report.items = report.items + 1;
        if it.duration_ms == 0 {
            report.items_without_length = report.items_without_length + 1;
        }
        report.total_ms = report.total_ms + it.duration_ms;
        match &it.source {
            Some(s) => {
                let c = chars_of(s.as_str());
                if seq_eq(c.as_slice(), chars_of("recording").as_slice()) {
                    report.recorded = report.recorded + 1;
                } else if seq_eq(c.as_slice(), chars_of("import").as_slice()) {
                    report.imported_from_a_file = report.imported_from_a_file + 1;
                } else if seq_eq(c.as_slice(), chars_of("youtube").as_slice()) {
                    report.imported_from_a_link = report.imported_from_a_link + 1;
                } else {
                    report.unknown_origin = report.unknown_origin + 1;
                }
            },
            None => {
                report.unknown_origin = report.unknown_origin + 1;
            },
        }
        if it.transcripts.len() > 0 {
            report.transcribed = report.transcribed + 1;
        }
        let mut k: usize = 0;
        let mut japanese = false;
        while k < it.transcripts.len()
            invariant
                k <= it.transcripts@.len(),
                japanese == exists|m: int| 0 <= m < k && is_japanese(#[trigger] it.transcripts@[m]),
            decreases it.transcripts.len() - k,
        {
            if is_japanese_exec(&it.transcripts[k]) {
                japanese = true;
            }
            k = k + 1;
        }
        if japanese {
            report.japanese = report.japanese + 1;
        }
        if it.translation_path.is_some() {
            report.translated = report.translated + 1;
        }
        i = i + 1;
    }
    assert(recordings@.take(recordings@.len() as int) =~= recordings@);
    proof {
        lemma_report_bounds(recordings@);
    }
    report
}

proof fn lemma_total_prefix(items: Seq<LibraryItem>, n: int)
    requires
        0 <= n <= items.len(),
    ensures
        total_length(items.take(n)) <= total_length(items),
    decreases items.len() - n,
{
    if n < items.len() {
        lemma_total_prefix(items, n + 1);
        assert(items.take(n + 1).drop_last() =~= items.take(n));
    } else {
        assert(items.take(n) =~= items);
    }
}

} // verus!
