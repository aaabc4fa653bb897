//! The sentences whisper timed, cleaned before anything is saved: stock phrases whisper
//! invents over silence are dropped, nothing runs past the end of the audio, each cue's
//! bounds follow the speech inside it, and a runaway loop of one line collapses to one cue.
use vstd::prelude::*;

use crate::media::envelope::{envelope_trim, SpeechEnvelope};
use crate::media::whisper::SpeechRegion;
use crate::text::{chars_of, eq_ignore_ascii_case, lower_seq, trim, trimmed};

verus! {

/// One timed sentence of a transcript.
#[derive(Debug, PartialEq, Eq)]
pub struct RecordingSegment {
    pub text: String,
    pub start_ms: u64,
    pub end_ms: u64,
}

impl Clone for RecordingSegment {
    fn clone(&self) -> (c: Self)
        ensures
            c == *self,
    {
        RecordingSegment { text: self.text.clone(), start_ms: self.start_ms, end_ms: self.end_ms }
    }
}

/// A segment as its text and its bounds.
pub open spec fn seg_view(s: RecordingSegment) -> (Seq<char>, u64, u64) {
    (s.text@, s.start_ms, s.end_ms)
}

pub open spec fn segs_view(s: Seq<RecordingSegment>) -> Seq<(Seq<char>, u64, u64)> {
    s.map_values(|x: RecordingSegment| seg_view(x))
}

/// How much room a trimmed cue keeps either side of its speech.
pub const CUE_EDGE_PAD_MS: u64 = 150;

/// How far past the last speech region a clamped cue may run.
pub const CUE_TAIL_PAD_MS: u64 = 120;

/// A run of this many identical lines or more is whisper looping, not speech.
pub const REPEAT_LIMIT: usize = 4;

/// Characters a stock phrase may trail off with.
pub open spec fn is_trailing_mark(c: char) -> bool {
    c == '\u{3002}' || c == '.' || c == '!' || c == '\u{ff01}' || c == '\u{3000}' || c == ' '
}

/// `s` without trailing marks.
pub open spec fn trim_marks(s: Seq<char>) -> Seq<char>
    decreases s.len(),
{
    if s.len() > 0 && is_trailing_mark(s.last()) {
        trim_marks(s.drop_last())
    } else {
        s
    }
}

/// The phrases whisper writes over silence: thanks for watching or listening, a plea to
/// subscribe, in Japanese and in English.
pub open spec fn stock_phrases() -> Seq<Seq<char>> {
    seq![
        "\u{3054}\u{8996}\u{8074}\u{3042}\u{308a}\u{304c}\u{3068}\u{3046}\u{3054}\u{3056}\u{3044}\u{307e}\u{3057}\u{305f}"@,
        "\u{3054}\u{8996}\u{8074}\u{3042}\u{308a}\u{304c}\u{3068}\u{3046}\u{3054}\u{3056}\u{3044}\u{307e}\u{3059}"@,
        "\u{3054}\u{6e05}\u{8074}\u{3042}\u{308a}\u{304c}\u{3068}\u{3046}\u{3054}\u{3056}\u{3044}\u{307e}\u{3057}\u{305f}"@,
        "\u{30c1}\u{30e3}\u{30f3}\u{30cd}\u{30eb}\u{767b}\u{9332}\u{304a}\u{9858}\u{3044}\u{3057}\u{307e}\u{3059}"@,
        "Thank you for watching"@,
        "Thanks for watching"@,
    ]
}

/// Whether a line is one of whisper's stock phrases, after surrounding whitespace and any
/// trailing marks, in any ASCII case.
pub open spec fn is_hallucination(text: Seq<char>) -> bool {
    let n = lower_seq(trim_marks(trim(text)));
    exists|i: int| 0 <= i < stock_phrases().len() && n == lower_seq(#[trigger] stock_phrases()[i])
}

fn trim_marks_exec(s: &[char]) -> (out: Vec<char>)
    ensures
        out@ == trim_marks(s@),
{
    let mut end = s.len();
    assert(s@.take(end as int) =~= s@);
    while end > 0 && (s[end - 1] == '\u{3002}' || s[end - 1] == '.' || s[end - 1] == '!'
        || s[end - 1] == '\u{ff01}' || s[end - 1] == '\u{3000}' || s[end - 1] == ' ')
        invariant
            end <= s@.len(),
            trim_marks(s@) == trim_marks(s@.take(end as int)),
        decreases end,
    {
        assert(s@.take(end as int).drop_last() =~= s@.take(end - 1));
        end = end - 1;
    }
    assert(s@.take(s@.len() as int) =~= s@);
    crate::text::slice_to_vec(s, 0, end)
}

pub fn is_whisper_hallucination(text: &str) -> (b: bool)
    ensures
        b == is_hallucination(text@),
{
    proof {
        reveal_strlit("\u{3054}\u{8996}\u{8074}\u{3042}\u{308a}\u{304c}\u{3068}\u{3046}\u{3054}\u{3056}\u{3044}\u{307e}\u{3057}\u{305f}");
        reveal_strlit("\u{3054}\u{8996}\u{8074}\u{3042}\u{308a}\u{304c}\u{3068}\u{3046}\u{3054}\u{3056}\u{3044}\u{307e}\u{3059}");
        reveal_strlit("\u{3054}\u{6e05}\u{8074}\u{3042}\u{308a}\u{304c}\u{3068}\u{3046}\u{3054}\u{3056}\u{3044}\u{307e}\u{3057}\u{305f}");
        reveal_strlit("\u{30c1}\u{30e3}\u{30f3}\u{30cd}\u{30eb}\u{767b}\u{9332}\u{304a}\u{9858}\u{3044}\u{3057}\u{307e}\u{3059}");
        reveal_strlit("Thank you for watching");
        reveal_strlit("Thanks for watching");
    }
    let t = trimmed(chars_of(text).as_slice());
    let n = trim_marks_exec(t.as_slice());
    let n = n.as_slice();
    let ghost ps = stock_phrases();
    let b0 = eq_ignore_ascii_case(n, chars_of("\u{3054}\u{8996}\u{8074}\u{3042}\u{308a}\u{304c}\u{3068}\u{3046}\u{3054}\u{3056}\u{3044}\u{307e}\u{3057}\u{305f}").as_slice());
    let b1 = eq_ignore_ascii_case(n, chars_of("\u{3054}\u{8996}\u{8074}\u{3042}\u{308a}\u{304c}\u{3068}\u{3046}\u{3054}\u{3056}\u{3044}\u{307e}\u{3059}").as_slice());
    let b2 = eq_ignore_ascii_case(n, chars_of("\u{3054}\u{6e05}\u{8074}\u{3042}\u{308a}\u{304c}\u{3068}\u{3046}\u{3054}\u{3056}\u{3044}\u{307e}\u{3057}\u{305f}").as_slice());
    let b3 = eq_ignore_ascii_case(n, chars_of("\u{30c1}\u{30e3}\u{30f3}\u{30cd}\u{30eb}\u{767b}\u{9332}\u{304a}\u{9858}\u{3044}\u{3057}\u{307e}\u{3059}").as_slice());
    let b4 = eq_ignore_ascii_case(n, chars_of("Thank you for watching").as_slice());
    let b5 = eq_ignore_ascii_case(n, chars_of("Thanks for watching").as_slice());
    proof {
        let nv = lower_seq(trim_marks(trim(text@)));
        assert(b0 == (nv == lower_seq(ps[0])));
        assert(b1 == (nv == lower_seq(ps[1])));
        assert(b2 == (nv == lower_seq(ps[2])));
        assert(b3 == (nv == lower_seq(ps[3])));
        assert(b4 == (nv == lower_seq(ps[4])));
        assert(b5 == (nv == lower_seq(ps[5])));
        if is_hallucination(text@) {
            let i = choose|i: int| 0 <= i < ps.len() && nv == lower_seq(#[trigger] ps[i]);
            assert(i == 0 || i == 1 || i == 2 || i == 3 || i == 4 || i == 5);
        }
    }
    b0 || b1 || b2 || b3 || b4 || b5
}

/// The end of the last speech region that overlaps `[start, end)`.
pub open spec fn last_overlap_end(regions: Seq<SpeechRegion>, start: u64, end: u64) -> Option<u64>
    decreases regions.len(),
{
    if regions.len() == 0 {
        None
    } else {
        let rest = last_overlap_end(regions.drop_last(), start, end);
        let r = regions.last();
        if r.start_ms < end && r.end_ms > start {
            match rest {
                Some(m) => Some(if r.end_ms > m {
                    r.end_ms
                } else {
                    m
                }),
                None => Some(r.end_ms),
            }
        } else {
            rest
        }
    }
}

/// A cue's end pulled back to the last speech region inside it, plus the tail pad; a cue no
/// region touches keeps its end.
pub open spec fn clamped_end(start: u64, end: u64, regions: Seq<SpeechRegion>) -> u64 {
    match last_overlap_end(regions, start, end) {
        Some(e) => {
            let padded = if e + CUE_TAIL_PAD_MS > u64::MAX {
                u64::MAX
            } else {
                (e + CUE_TAIL_PAD_MS) as u64
            };
            if end <= padded {
                end
            } else {
                padded
            }
        },
        None => end,
    }
}

/// Every speech region overlapping the cue is reached: the latest overlapping end is found,
/// and none of them ends after it.
proof fn lemma_last_overlap_reaches(regions: Seq<SpeechRegion>, start: u64, end: u64, k: int)
    requires
        0 <= k < regions.len(),
        regions[k].start_ms < end && regions[k].end_ms > start,
    ensures
        last_overlap_end(regions, start, end) is Some,
        regions[k].end_ms <= last_overlap_end(regions, start, end)->Some_0,
    decreases regions.len(),
{
    let d = regions.drop_last();
    if k < regions.len() - 1 {
        assert(d[k] == regions[k]);
        lemma_last_overlap_reaches(d, start, end, k);
    }
}

/// The latest overlapping end found is the end of an overlapping region.
proof fn lemma_last_overlap_is_a_region(regions: Seq<SpeechRegion>, start: u64, end: u64)
    ensures
        last_overlap_end(regions, start, end) is Some ==> exists|k: int|
            0 <= k < regions.len() && (#[trigger] regions[k]).start_ms < end && regions[k].end_ms > start
                && regions[k].end_ms == last_overlap_end(regions, start, end)->Some_0,
        last_overlap_end(regions, start, end) is None ==> forall|k: int|
            0 <= k < regions.len() ==> !((#[trigger] regions[k]).start_ms < end && regions[k].end_ms > start),
    decreases regions.len(),
{
    if regions.len() > 0 {
        let d = regions.drop_last();
        lemma_last_overlap_is_a_region(d, start, end);
        assert forall|k: int| 0 <= k < d.len() implies #[trigger] d[k] == regions[k] by {}
        if last_overlap_end(d, start, end) is Some {
            let k = choose|k: int|
                0 <= k < d.len() && (#[trigger] d[k]).start_ms < end && d[k].end_ms > start && d[k].end_ms
                    == last_overlap_end(d, start, end)->Some_0;
            assert(regions[k] == d[k]);
        }
        assert(regions.last() == regions[regions.len() - 1]);
        if last_overlap_end(regions, start, end) is None {
            assert forall|k: int| 0 <= k < regions.len() implies !((#[trigger] regions[k]).start_ms < end
                && regions[k].end_ms > start) by {
                if k < d.len() {
                    assert(d[k] == regions[k]);
                }
            }
        }
    }
}

/// The clamp pulls a cue's end back only as far as the latest speech region overlapping it,
/// plus the tail pad; a cue no region overlaps keeps its end.
pub proof fn law_the_clamp_pulls_back_to_the_latest_speech(start: u64, end: u64, regions: Seq<SpeechRegion>)
    ensures
        (forall|k: int|
            0 <= k < regions.len() ==> !((#[trigger] regions[k]).start_ms < end && regions[k].end_ms > start))
            ==> clamped_end(start, end, regions) == end,
        (exists|k: int|
            0 <= k < regions.len() && (#[trigger] regions[k]).start_ms < end && regions[k].end_ms > start) ==> exists|
            k: int|
            0 <= k < regions.len() && (#[trigger] regions[k]).start_ms < end && regions[k].end_ms > start
                && clamped_end(start, end, regions) <= regions[k].end_ms + CUE_TAIL_PAD_MS,
{
    lemma_last_overlap_is_a_region(regions, start, end);
    if exists|k: int| 0 <= k < regions.len() && (#[trigger] regions[k]).start_ms < end && regions[k].end_ms > start {
        let k = choose|k: int| 0 <= k < regions.len() && (#[trigger] regions[k]).start_ms < end && regions[k].end_ms > start;
        lemma_last_overlap_reaches(regions, start, end, k);
    }
}

/// The clamp cuts off no speech region that overlaps the cue: the end it gives reaches
/// every overlapping region's end plus the tail pad, or the cue's own end where that comes
/// first.
pub proof fn law_the_clamp_cuts_off_no_overlapping_speech(
    start: u64,
    end: u64,
    regions: Seq<SpeechRegion>,
    k: int,
)
    requires
        0 <= k < regions.len(),
        regions[k].start_ms < end && regions[k].end_ms > start,
    ensures
        clamped_end(start, end, regions) >= if regions[k].end_ms + CUE_TAIL_PAD_MS < end {
            regions[k].end_ms + CUE_TAIL_PAD_MS
        } else {
            end as int
        },
        clamped_end(start, end, regions) <= end,
{
    lemma_last_overlap_reaches(regions, start, end, k);
}

pub fn clamp_end_to_vad_regions(start_ms: u64, end_ms: u64, speech_regions: &[SpeechRegion]) -> (e: u64)
    ensures
        e == clamped_end(start_ms, end_ms, speech_regions@),
        e <= end_ms,
{
    let mut last: Option<u64> = None;
    let mut i: usize = 0;
    while i < speech_regions.len()
        invariant
            i <= speech_regions@.len(),
            last == last_overlap_end(speech_regions@.take(i as int), start_ms, end_ms),
        decreases speech_regions.len() - i,
    {
        assert(speech_regions@.take(i + 1).drop_last() =~= speech_regions@.take(i as int));
        let r = speech_regions[i];
        if r.start_ms < end_ms && r.end_ms > start_ms {
            last = match last {
                Some(m) => Some(if r.end_ms > m {
                    r.end_ms
                } else {
                    m
                }),
                None => Some(r.end_ms),
            };
        }
        i = i + 1;
    }
    assert(speech_regions@.take(speech_regions@.len() as int) =~= speech_regions@);
    match last {
        Some(e) => {
            let padded = e.saturating_add(CUE_TAIL_PAD_MS);
            if end_ms <= padded {
                end_ms
            } else {
                padded
            }
        },
        None => end_ms,
    }
}

/// A cue's bounds pulled in to the speech the envelope found inside them; with no envelope,
/// the bounds as given.
pub open spec fn trimmed_cue(start: u64, end: u64, envelope: Option<&SpeechEnvelope>, pad: u64) -> (u64, u64) {
    match envelope {
        Some(e) => envelope_trim(e.frames(), start, end, pad),
        None => (start, end),
    }
}

pub fn trim_cue_to_speech(start_ms: u64, end_ms: u64, envelope: Option<&SpeechEnvelope>, pad_ms: u64) -> (r: (u64, u64))
    ensures
        r == trimmed_cue(start_ms, end_ms, envelope, pad_ms),
        start_ms < end_ms ==> start_ms <= r.0 && r.1 <= end_ms,
{
    match envelope {
        Some(e) => e.trim(start_ms, end_ms, pad_ms),
        None => (start_ms, end_ms),
    }
}

/// Which rule decides a cue's bounds: the speech envelope (the library's rule), or the voice
/// detector's regions, which only ever move an end (the watch path's rule).
pub enum CueTiming<'a> {
    TrimToSpeech(Option<&'a SpeechEnvelope>),
    ClampToVadRegions(&'a [SpeechRegion]),
}

/// A segment's bounds under a timing rule.
pub open spec fn timed(start: u64, end: u64, timing: CueTiming) -> (u64, u64) {
    match timing {
        CueTiming::TrimToSpeech(envelope) => trimmed_cue(start, end, envelope, CUE_EDGE_PAD_MS),
        CueTiming::ClampToVadRegions(regions) => (start, clamped_end(start, end, regions@)),
    }
}

/// Stock phrases dropped; with a known duration, segments that start at or past it dropped
/// and ends past it clamped to it; then each segment's bounds set by the timing rule.
pub open spec fn bounded_segments(
    s: Seq<(Seq<char>, u64, u64)>,
    duration: u64,
    timing: CueTiming,
) -> Seq<(Seq<char>, u64, u64)>
    decreases s.len(),
{
    if s.len() == 0 {
        Seq::empty()
    } else {
        let rest = bounded_segments(s.drop_last(), duration, timing);
        let (text, start, end) = s.last();
        if is_hallucination(text) || (duration > 0 && start >= duration) {
            rest
        } else {
            let end = if duration > 0 && end > duration {
                duration
            } else {
                end
            };
            let (a, b) = timed(start, end, timing);
            rest.push((text, a, b))
        }
    }
}

/// Where the run of lines with the text of `s[i]` ends, scanning from `j`.
pub open spec fn run_end_from(s: Seq<(Seq<char>, u64, u64)>, i: int, j: int) -> int
    decreases s.len() - j,
{
    if j >= s.len() || s[j].0 != s[i].0 {
        j
    } else {
        run_end_from(s, i, j + 1)
    }
}

pub proof fn lemma_run_end_bounds(s: Seq<(Seq<char>, u64, u64)>, i: int, j: int)
    requires
        0 <= i < j <= s.len(),
    ensures
        j <= run_end_from(s, i, j) <= s.len(),
        forall|k: int| j <= k < run_end_from(s, i, j) ==> s[k].0 == s[i].0,
    decreases s.len() - j,
{
    if j < s.len() && s[j].0 == s[i].0 {
        lemma_run_end_bounds(s, i, j + 1);
    }
}

/// Runs of equal text from `i` on: a run of `REPEAT_LIMIT` or more becomes one segment from
/// the run's first start to its last end; a shorter run stays as it is.
pub open spec fn collapse_from(s: Seq<(Seq<char>, u64, u64)>, i: int) -> Seq<(Seq<char>, u64, u64)>
    decreases s.len() - i,
{
    if i < 0 || i >= s.len() {
        Seq::empty()
    } else {
        let r = run_end_from(s, i, i + 1);
        let head = if r - i >= REPEAT_LIMIT {
            seq![(s[i].0, s[i].1, s[r - 1].2)]
        } else {
            s.subrange(i, r)
        };
        if r > i {
            proof {
                lemma_run_end_bounds(s, i, i + 1);
            }
            head + collapse_from(s, r)
        } else {
            head
        }
    }
}

/// What cleaning leaves of a transcript's segments.
pub open spec fn cleaned_segments(
    s: Seq<(Seq<char>, u64, u64)>,
    duration: u64,
    timing: CueTiming,
) -> Seq<(Seq<char>, u64, u64)> {
    collapse_from(bounded_segments(s, duration, timing), 0)
}

proof fn lemma_timed_end(start: u64, end: u64, timing: CueTiming)
    ensures
        timed(start, end, timing).1 <= end,
{
    match timing {
        CueTiming::TrimToSpeech(envelope) => {
            match envelope {
                Some(e) => {
                    crate::media::envelope::lemma_trim_ends_within(e.frames(), start, end, CUE_EDGE_PAD_MS);
                },
                None => {},
            }
        },
        CueTiming::ClampToVadRegions(regions) => {},
    }
}

proof fn lemma_bounded_segments(s: Seq<(Seq<char>, u64, u64)>, duration: u64, timing: CueTiming)
    ensures
        bounded_segments(s, duration, timing).len() <= s.len(),
        duration > 0 ==> forall|i: int|
            0 <= i < bounded_segments(s, duration, timing).len() ==> #[trigger] bounded_segments(
                s,
                duration,
                timing,
            )[i].2 <= duration,
    decreases s.len(),
{
    if s.len() > 0 {
        lemma_bounded_segments(s.drop_last(), duration, timing);
        let (text, start, end) = s.last();
        let end2 = if duration > 0 && end > duration {
            duration
        } else {
            end
        };
        lemma_timed_end(start, end2, timing);
    }
}

proof fn lemma_collapse_from(s: Seq<(Seq<char>, u64, u64)>, i: int, duration: u64)
    requires
        0 <= i <= s.len(),
    ensures
        collapse_from(s, i).len() <= s.len() - i,
        (forall|k: int| 0 <= k < s.len() ==> #[trigger] s[k].2 <= duration) ==> forall|j: int|
            0 <= j < collapse_from(s, i).len() ==> #[trigger] collapse_from(s, i)[j].2 <= duration,
    decreases s.len() - i,
{
    if i < s.len() {
        let r = run_end_from(s, i, i + 1);
        lemma_run_end_bounds(s, i, i + 1);
        lemma_collapse_from(s, r, duration);
        let head = if r - i >= REPEAT_LIMIT {
            seq![(s[i].0, s[i].1, s[r - 1].2)]
        } else {
            s.subrange(i, r)
        };
        assert(collapse_from(s, i) == head + collapse_from(s, r));
        if forall|k: int| 0 <= k < s.len() ==> #[trigger] s[k].2 <= duration {
            assert forall|j: int| 0 <= j < collapse_from(s, i).len() implies #[trigger] collapse_from(
                s,
                i,
            )[j].2 <= duration by {
                if j < head.len() {
                    if r - i >= REPEAT_LIMIT {
                        assert(s[r - 1].2 <= duration);
                    } else {
                        assert(head[j] == s[i + j]);
                    }
                } else {
                    assert(collapse_from(s, i)[j] == collapse_from(s, r)[j - head.len()]);
                }
            }
        }
    }
}

/// Cleaning never adds a segment, and with a known duration no cleaned segment ends past
/// the end of the recording.
pub proof fn law_cleaning_stays_within_the_transcript_and_the_recording(
    s: Seq<(Seq<char>, u64, u64)>,
    duration: u64,
    timing: CueTiming,
)
    ensures
        cleaned_segments(s, duration, timing).len() <= s.len(),
        duration > 0 ==> forall|i: int|
            0 <= i < cleaned_segments(s, duration, timing).len() ==> #[trigger] cleaned_segments(
                s,
                duration,
                timing,
            )[i].2 <= duration,
{
    let b = bounded_segments(s, duration, timing);
    lemma_bounded_segments(s, duration, timing);
    lemma_collapse_from(b, 0, duration);
}

/// The texts of segments, in order.
pub open spec fn texts(s: Seq<(Seq<char>, u64, u64)>) -> Seq<Seq<char>> {
    s.map_values(|x: (Seq<char>, u64, u64)| x.0)
}

/// `f` picks, in increasing order, a place in `b` for each item of `a` that holds it.
pub open spec fn picks<T>(f: Seq<int>, a: Seq<T>, b: Seq<T>) -> bool {
    &&& f.len() == a.len()
    &&& forall|i: int, j: int| 0 <= i < j < f.len() ==> f[i] < f[j]
    &&& forall|i: int| 0 <= i < f.len() ==> 0 <= #[trigger] f[i] < b.len() && a[i] == b[f[i]]
}

/// `a` is `b` with some items left out.
pub open spec fn is_subsequence<T>(a: Seq<T>, b: Seq<T>) -> bool {
    exists|f: Seq<int>| picks(f, a, b)
}

/// The four lines from `k` on share one text.
pub open spec fn four_alike(s: Seq<(Seq<char>, u64, u64)>, k: int) -> bool {
    &&& s[k].0 == s[k + 1].0
    &&& s[k + 1].0 == s[k + 2].0
    &&& s[k + 2].0 == s[k + 3].0
}

/// No four consecutive lines share one text.
pub open spec fn no_run_of_four(s: Seq<(Seq<char>, u64, u64)>) -> bool {
    forall|k: int| 0 <= k && k + 3 < s.len() ==> !#[trigger] four_alike(s, k)
}

/// `f` picks, in increasing order and from `lo` on, a place in `b` for each line of `a`
/// with the same text; with `starts`, the same start too.
pub open spec fn lines_from(
    f: Seq<int>,
    a: Seq<(Seq<char>, u64, u64)>,
    b: Seq<(Seq<char>, u64, u64)>,
    lo: int,
    starts: bool,
) -> bool {
    &&& f.len() == a.len()
    &&& forall|i: int, j: int| 0 <= i < j < f.len() ==> f[i] < f[j]
    &&& forall|i: int|
        0 <= i < f.len() ==> lo <= #[trigger] f[i] < b.len() && a[i].0 == b[f[i]].0 && (starts ==> a[i].1
            == b[f[i]].1)
}

proof fn lemma_timed_start(start: u64, end: u64, timing: CueTiming)
    ensures
        start < end ==> timed(start, end, timing).0 < end,
        end <= start ==> timed(start, end, timing).0 == start,
{
    match timing {
        CueTiming::TrimToSpeech(envelope) => {
            match envelope {
                Some(e) => {
                    if start < end {
                        crate::media::envelope::law_a_trim_keeps_its_bounds_in_order(
                            e.frames(),
                            start,
                            end,
                            CUE_EDGE_PAD_MS,
                        );
                    }
                },
                None => {},
            }
        },
        CueTiming::ClampToVadRegions(regions) => {},
    }
}

/// No kept line is a stock phrase, and with a known duration none starts at or after it.
pub open spec fn kept_lines_fit(b: Seq<(Seq<char>, u64, u64)>, duration: u64) -> bool {
    forall|i: int|
        0 <= i < b.len() ==> !is_hallucination((#[trigger] b[i]).0) && (duration > 0 ==> b[i].1 < duration)
}

proof fn lemma_push_keeps_fit(rest: Seq<(Seq<char>, u64, u64)>, x: (Seq<char>, u64, u64), duration: u64)
    requires
        kept_lines_fit(rest, duration),
        !is_hallucination(x.0),
        duration > 0 ==> x.1 < duration,
    ensures
        kept_lines_fit(rest.push(x), duration),
{
    let out = rest.push(x);
    assert forall|i: int| 0 <= i < out.len() implies !is_hallucination((#[trigger] out[i]).0) && (duration > 0
        ==> out[i].1 < duration) by {
        if i < rest.len() {
            assert(out[i] == rest[i]);
            assert(!is_hallucination(rest[i].0) && (duration > 0 ==> rest[i].1 < duration));
        } else {
            assert(out[i] == x);
        }
    }
}

proof fn lemma_bounded_lines(s: Seq<(Seq<char>, u64, u64)>, duration: u64, timing: CueTiming) -> (f: Seq<int>)
    ensures
        lines_from(f, bounded_segments(s, duration, timing), s, 0, false),
        kept_lines_fit(bounded_segments(s, duration, timing), duration),
    decreases s.len(),
{
    if s.len() == 0 {
        Seq::empty()
    } else {
        let g = lemma_bounded_lines(s.drop_last(), duration, timing);
        let rest = bounded_segments(s.drop_last(), duration, timing);
        let (text, start, end) = s.last();
        assert forall|i: int| 0 <= i < g.len() implies rest[i].0 == s[#[trigger] g[i]].0 by {
            assert(s[g[i]] == s.drop_last()[g[i]]);
        }
        if is_hallucination(text) || (duration > 0 && start >= duration) {
            assert(bounded_segments(s, duration, timing) == rest);
            g
        } else {
            let end2 = if duration > 0 && end > duration {
                duration
            } else {
                end
            };
            lemma_timed_start(start, end2, timing);
            let out = bounded_segments(s, duration, timing);
            assert(out == rest.push((text, timed(start, end2, timing).0, timed(start, end2, timing).1)));
            let f = g.push(s.len() - 1);
            assert forall|i: int| 0 <= i < f.len() implies s.len() - 1 >= 0 && 0 <= #[trigger] f[i] < s.len()
                && out[i].0 == s[f[i]].0 by {
                if i < g.len() {
                    assert(f[i] == g[i]);
                    assert(out[i] == rest[i]);
                }
            }
            assert(!is_hallucination(text));
            if duration > 0 {
                assert(start < duration);
                assert(end2 <= duration);
                assert(timed(start, end2, timing).0 < duration);
            }
            lemma_push_keeps_fit(rest, (text, timed(start, end2, timing).0, timed(start, end2, timing).1), duration);
            f
        }
    }
}

proof fn lemma_head_of_run(b: Seq<(Seq<char>, u64, u64)>, i: int) -> (head: Seq<(Seq<char>, u64, u64)>)
    requires
        0 <= i < b.len(),
    ensures
        head.len() > 0,
        collapse_from(b, i) == head + collapse_from(b, run_end_from(b, i, i + 1)),
        i < run_end_from(b, i, i + 1) <= b.len(),
        run_end_from(b, i, i + 1) - i >= REPEAT_LIMIT ==> head == seq![
            (b[i].0, b[i].1, b[run_end_from(b, i, i + 1) - 1].2),
        ],
        run_end_from(b, i, i + 1) - i < REPEAT_LIMIT ==> head == b.subrange(i, run_end_from(b, i, i + 1)),
        forall|k: int| 0 <= k < head.len() ==> #[trigger] head[k].0 == b[i].0,
        head.len() < REPEAT_LIMIT,
        run_end_from(b, i, i + 1) < b.len() ==> b[run_end_from(b, i, i + 1)].0 != b[i].0,
{
    let r = run_end_from(b, i, i + 1);
    lemma_run_end_bounds(b, i, i + 1);
    lemma_run_end_stops(b, i, i + 1);
    let head = if r - i >= REPEAT_LIMIT {
        seq![(b[i].0, b[i].1, b[r - 1].2)]
    } else {
        b.subrange(i, r)
    };
    assert forall|k: int| 0 <= k < head.len() implies #[trigger] head[k].0 == b[i].0 by {
        if r - i < REPEAT_LIMIT && k > 0 {
            assert(head[k] == b[i + k]);
        }
    }
    head
}

proof fn lemma_run_end_stops(s: Seq<(Seq<char>, u64, u64)>, i: int, j: int)
    requires
        0 <= i < j <= s.len(),
    ensures
        run_end_from(s, i, j) < s.len() ==> s[run_end_from(s, i, j)].0 != s[i].0,
    decreases s.len() - j,
{
    if j < s.len() && s[j].0 == s[i].0 {
        lemma_run_end_stops(s, i, j + 1);
    }
}

proof fn lemma_collapse_lines(b: Seq<(Seq<char>, u64, u64)>, i: int) -> (f: Seq<int>)
    requires
        0 <= i <= b.len(),
    ensures
        lines_from(f, collapse_from(b, i), b, i, true),
        no_run_of_four(collapse_from(b, i)),
        i < b.len() ==> collapse_from(b, i).len() > 0 && collapse_from(b, i)[0].0 == b[i].0,
    decreases b.len() - i,
{
    if i == b.len() {
        Seq::empty()
    } else {
        let r = run_end_from(b, i, i + 1);
        let head = lemma_head_of_run(b, i);
        let g = lemma_collapse_lines(b, r);
        let rest = collapse_from(b, r);
        let out = collapse_from(b, i);
        let hf = if r - i >= REPEAT_LIMIT {
            seq![i]
        } else {
            Seq::new((r - i) as nat, |k: int| i + k)
        };
        let f = hf + g;
        assert forall|k: int| 0 <= k < f.len() implies i <= #[trigger] f[k] < b.len() && out[k].0 == b[f[k]].0
            && out[k].1 == b[f[k]].1 by {
            if k < hf.len() {
                assert(out[k] == head[k]);
                if r - i < REPEAT_LIMIT {
                    assert(head[k] == b[i + k]);
                }
            } else {
                assert(out[k] == rest[k - hf.len()]);
                assert(f[k] == g[k - hf.len()]);
            }
        }
        assert forall|x: int, y: int| 0 <= x < y < f.len() implies f[x] < f[y] by {
            if y < hf.len() {
            } else if x < hf.len() {
                assert(f[y] == g[y - hf.len()]);
                assert(r <= g[y - hf.len()]);
            } else {
                assert(f[x] == g[x - hf.len()]);
                assert(f[y] == g[y - hf.len()]);
            }
        }
        assert forall|k: int| 0 <= k && k + 3 < out.len() implies !#[trigger] four_alike(out, k) by {
            let h = head.len() as int;
            if k >= h {
                assert(out[k] == rest[k - h]);
                assert(out[k + 1] == rest[k - h + 1]);
                assert(out[k + 2] == rest[k - h + 2]);
                assert(out[k + 3] == rest[k - h + 3]);
                assert(!four_alike(rest, k - h));
            } else {
                assert(out[k] == head[k]);
                assert(rest.len() > 0);
                assert(r < b.len()) by {
                    if r == b.len() {
                        assert(rest.len() == 0);
                    }
                }
                assert(out[h] == rest[0]);
                assert(out[h].0 != out[k].0);
                if h == k + 1 {
                } else if h == k + 2 {
                    assert(out[k + 1] == head[k + 1]);
                } else {
                    assert(h == k + 3);
                    assert(out[k + 1] == head[k + 1]);
                    assert(out[k + 2] == head[k + 2]);
                }
            }
        }
        assert(out[0] == head[0]);
        f
    }
}

/// Cleaning keeps a subsequence of the transcript's lines: none of whisper's stock
/// phrases, none starting at or past a known end of the recording, and never four lines in
/// a row with one text.
pub proof fn law_cleaning_keeps_real_lines_in_order(
    s: Seq<(Seq<char>, u64, u64)>,
    duration: u64,
    timing: CueTiming,
)
    ensures
        is_subsequence(texts(cleaned_segments(s, duration, timing)), texts(s)),
        forall|i: int|
            0 <= i < cleaned_segments(s, duration, timing).len() ==> !is_hallucination(
                #[trigger] cleaned_segments(s, duration, timing)[i].0,
            ),
        duration > 0 ==> forall|i: int|
            0 <= i < cleaned_segments(s, duration, timing).len() ==> #[trigger] cleaned_segments(
                s,
                duration,
                timing,
            )[i].1 < duration,
        no_run_of_four(cleaned_segments(s, duration, timing)),
{
    let b = bounded_segments(s, duration, timing);
    let out = cleaned_segments(s, duration, timing);
    let g = lemma_bounded_lines(s, duration, timing);
    let f = lemma_collapse_lines(b, 0);
    let h = Seq::new(f.len(), |k: int| g[f[k]]);
    assert forall|x: int, y: int| 0 <= x < y < h.len() implies h[x] < h[y] by {
        assert(f[x] < f[y]);
    }
    assert forall|k: int| 0 <= k < out.len() implies !is_hallucination(#[trigger] out[k].0) by {
        assert(out[k].0 == b[f[k]].0);
    }
    if duration > 0 {
        assert forall|k: int| 0 <= k < out.len() implies #[trigger] out[k].1 < duration by {
            assert(out[k].0 == b[f[k]].0);
            assert(out[k].1 == b[f[k]].1);
            assert(b[f[k]].1 < duration);
        }
    }
    assert(picks(h, texts(out), texts(s))) by {
        assert forall|k: int| 0 <= k < h.len() implies 0 <= #[trigger] h[k] < texts(s).len() && texts(out)[k]
            == texts(s)[h[k]] by {
            assert(out[k].0 == b[f[k]].0);
            assert(b[f[k]].0 == s[g[f[k]]].0);
        }
    }
}

proof fn lemma_plain_lines_pass_bounding(s: Seq<(Seq<char>, u64, u64)>)
    requires
        forall|i: int| 0 <= i < s.len() ==> !is_hallucination(#[trigger] s[i].0),
    ensures
        bounded_segments(s, 0, CueTiming::TrimToSpeech(None)) == s,
    decreases s.len(),
{
    if s.len() > 0 {
        assert forall|i: int| 0 <= i < s.drop_last().len() implies !is_hallucination(
            #[trigger] s.drop_last()[i].0,
        ) by {
            assert(s.drop_last()[i] == s[i]);
        }
        lemma_plain_lines_pass_bounding(s.drop_last());
        assert(!is_hallucination(s[s.len() - 1].0));
        assert(s.drop_last().push(s.last()) =~= s);
    }
}

proof fn lemma_short_runs_pass_collapse(s: Seq<(Seq<char>, u64, u64)>, i: int)
    requires
        0 <= i <= s.len(),
        no_run_of_four(s),
    ensures
        collapse_from(s, i) == s.skip(i),
    decreases s.len() - i,
{
    if i == s.len() {
        assert(s.skip(i) =~= Seq::<(Seq<char>, u64, u64)>::empty());
    } else {
        let r = run_end_from(s, i, i + 1);
        let head = lemma_head_of_run(s, i);
        lemma_run_end_bounds(s, i, i + 1);
        if r - i >= REPEAT_LIMIT {
            assert(s[i + 1].0 == s[i].0);
            assert(s[i + 2].0 == s[i].0);
            assert(s[i + 3].0 == s[i].0);
            assert(four_alike(s, i));
        }
        lemma_short_runs_pass_collapse(s, r);
        assert(s.subrange(i, r) + s.skip(r) =~= s.skip(i));
    }
}

/// A transcript with no stock phrase and no four lines in a row sharing a text comes
/// through cleaning unchanged when the duration is unknown and there is no envelope.
pub proof fn law_clean_lines_pass_unchanged(s: Seq<(Seq<char>, u64, u64)>)
    requires
        forall|i: int| 0 <= i < s.len() ==> !is_hallucination(#[trigger] s[i].0),
        no_run_of_four(s),
    ensures
        cleaned_segments(s, 0, CueTiming::TrimToSpeech(None)) == s,
{
    lemma_plain_lines_pass_bounding(s);
    lemma_short_runs_pass_collapse(s, 0);
    assert(s.skip(0) =~= s);
}

fn bound_segments(segments: Vec<RecordingSegment>, duration_ms: u64, timing: &CueTiming) -> (out: Vec<RecordingSegment>)
    ensures
        segs_view(out@) == bounded_segments(segs_view(segments@), duration_ms, *timing),
{
    let ghost sv = segs_view(segments@);
    let mut out: Vec<RecordingSegment> = Vec::new();
    let mut i: usize = 0;
    while i < segments.len()
        invariant
            i <= segments@.len(),
            sv == segs_view(segments@),
            segs_view(out@) == bounded_segments(sv.take(i as int), duration_ms, *timing),
        decreases segments.len() - i,
    {
        assert(sv.take(i + 1).drop_last() =~= sv.take(i as int));
        assert(sv.take(i + 1).last() == seg_view(segments@[i as int]));
        let seg = &segments[i];
        let ghost before = out@;
        if !is_whisper_hallucination(seg.text.as_str()) && !(duration_ms > 0 && seg.start_ms >= duration_ms) {
            let end = if duration_ms > 0 && seg.end_ms > duration_ms {
                duration_ms
            } else {
                seg.end_ms
            };
            let (a, b) = match timing {
                CueTiming::TrimToSpeech(envelope) => trim_cue_to_speech(seg.start_ms, end, *envelope, CUE_EDGE_PAD_MS),
                CueTiming::ClampToVadRegions(regions) => (seg.start_ms, clamp_end_to_vad_regions(seg.start_ms, end, regions)),
            };
            out.push(RecordingSegment { text: seg.text.clone(), start_ms: a, end_ms: b });
            assert(segs_view(out@) =~= segs_view(before).push(seg_view(out@.last())));
        }
        i = i + 1;
    }
    assert(sv.take(segments@.len() as int) =~= sv);
    out
}

/// Cleans whisper's segments before they are saved.
pub fn clean_segments(segments: Vec<RecordingSegment>, duration_ms: u64, timing: CueTiming) -> (out: Vec<RecordingSegment>)
    ensures
        segs_view(out@) == cleaned_segments(segs_view(segments@), duration_ms, timing),
{
    let bounded = bound_segments(segments, duration_ms, &timing);
    let ghost b = segs_view(bounded@);
    let mut cleaned: Vec<RecordingSegment> = Vec::new();
    let mut index: usize = 0;
    while index < bounded.len()
        invariant
            index <= bounded@.len(),
            b == segs_view(bounded@),
            segs_view(cleaned@) + collapse_from(b, index as int) == collapse_from(b, 0),
        decreases bounded.len() - index,
    {
        let mut run_end = index + 1;
        proof {
            lemma_run_end_bounds(b, index as int, index + 1);
        }
        while run_end < bounded.len() && bounded[run_end].text == bounded[index].text
            invariant
                index < run_end <= bounded@.len(),
                b == segs_view(bounded@),
                run_end_from(b, index as int, index + 1) == run_end_from(b, index as int, run_end as int),
            decreases bounded.len() - run_end,
        {
            run_end = run_end + 1;
        }
        proof {
            lemma_run_end_bounds(b, index as int, index + 1);
        }
        let ghost head = if run_end - index >= REPEAT_LIMIT {
            seq![(b[index as int].0, b[index as int].1, b[run_end - 1].2)]
        } else {
            b.subrange(index as int, run_end as int)
        };
        assert(collapse_from(b, index as int) == head + collapse_from(b, run_end as int));
        let ghost before = segs_view(cleaned@);
        if run_end - index >= REPEAT_LIMIT {
            let mut merged = bounded[index].clone();
            merged.end_ms = bounded[run_end - 1].end_ms;
            cleaned.push(merged);
            assert(segs_view(cleaned@) =~= before + head);
        } else {
            let mut k = index;
            while k < run_end
                invariant
                    index <= k <= run_end <= bounded@.len(),
                    b == segs_view(bounded@),
                    segs_view(cleaned@) == before + b.subrange(index as int, k as int),
                decreases run_end - k,
            {
                let ghost prev = cleaned@;
                cleaned.push(bounded[k].clone());
                assert(segs_view(cleaned@) =~= segs_view(prev).push(b[k as int]));
                assert(b.subrange(index as int, k + 1) =~= b.subrange(index as int, k as int).push(b[k as int]));
                k = k + 1;
            }
        }
        assert(segs_view(cleaned@) + collapse_from(b, run_end as int) =~= before + (head + collapse_from(b, run_end as int)));
        index = run_end;
    }
    assert(collapse_from(b, index as int) =~= Seq::<(Seq<char>, u64, u64)>::empty());
    assert(segs_view(cleaned@) =~= collapse_from(b, 0));
    cleaned
}

/// A language tag fit for a file name: ASCII letters, digits and `-` kept, everything else
/// `_`; an empty tag is `lang`.
pub open spec fn language_tag(language: Seq<char>) -> Seq<char> {
    if language.len() == 0 {
        "lang"@
    } else {
        language.map_values(|c: char| if is_tag_char(c) { c } else { '_' })
    }
}

pub open spec fn is_tag_char(c: char) -> bool {
    ('a' <= c && c <= 'z') || ('A' <= c && c <= 'Z') || ('0' <= c && c <= '9') || c == '-'
}

pub fn sanitize_language_tag(language: &str) -> (out: String)
    ensures
        out@ == language_tag(language@),
{
    proof {
        reveal_strlit("lang");
    }
    let chars = chars_of(language);
    if chars.len() == 0 {
        return "lang".to_string();
    }
    let mut out: Vec<char> = Vec::new();
    let mut i: usize = 0;
    while i < chars.len()
        invariant
            i <= chars@.len(),
            chars@ == language@,
            out@ == language@.take(i as int).map_values(|c: char| if is_tag_char(c) { c } else { '_' }),
        decreases chars.len() - i,
    {
        let c = chars[i];
        let keep = ('a' <= c && c <= 'z') || ('A' <= c && c <= 'Z') || ('0' <= c && c <= '9') || c == '-';
        out.push(if keep {
            c
        } else {
            '_'
        });
        assert(language@.take(i + 1).map_values(|c: char| if is_tag_char(c) { c } else { '_' })
            =~= language@.take(i as int).map_values(|c: char| if is_tag_char(c) { c } else { '_' }).push(
            if keep {
                c
            } else {
                '_'
            },
        ));
        i = i + 1;
    }
    assert(language@.take(language@.len() as int) =~= language@);
    crate::text::string_of(out.as_slice())
}

} // verus!
