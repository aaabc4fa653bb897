//! A subtitle (SRT) file written from a transcript's cleaned segments, in the form strict
//! readers accept: every cue has a length, no blank line splits a cue, and the numbering has
//! no gaps.
use vstd::prelude::*;

use crate::library::segments::RecordingSegment;
use crate::text::{
    chars_of, decimal, joined, lines, lines_exec, padded_exec, push_chars, push_str, string_of,
    trim, trimmed, zero_pad,
};

verus! {

/// The shortest cue written, for a segment whose end is not after its start.
pub const MIN_CUE_MS: u64 = 400;

/// `HH:MM:SS,mmm`; hours are not capped, so a long recording never wraps.
pub open spec fn srt_timestamp(total_ms: u64) -> Seq<char> {
    let hours = total_ms / 3_600_000;
    let minutes = (total_ms % 3_600_000) / 60_000;
    let seconds = (total_ms % 60_000) / 1_000;
    let millis = total_ms % 1_000;
    zero_pad(decimal(hours as nat), 2) + seq![':'] + zero_pad(decimal(minutes as nat), 2) + seq![':']
        + zero_pad(decimal(seconds as nat), 2) + seq![','] + zero_pad(decimal(millis as nat), 3)
}

pub fn format_srt_timestamp(total_ms: u64) -> (out: String)
    ensures
        out@ == srt_timestamp(total_ms),
{
    let mut out = padded_exec(total_ms / 3_600_000, 2);
    out.push(':');
    push_chars(&mut out, padded_exec((total_ms % 3_600_000) / 60_000, 2).as_slice());
    out.push(':');
    push_chars(&mut out, padded_exec((total_ms % 60_000) / 1_000, 2).as_slice());
    out.push(',');
    push_chars(&mut out, padded_exec(total_ms % 1_000, 3).as_slice());
    string_of(out.as_slice())
}

/// A cue's text: each line trimmed, blank lines dropped, the rest joined by newlines.
pub open spec fn nonblank_lines(ls: Seq<Seq<char>>) -> Seq<Seq<char>>
    decreases ls.len(),
{
    if ls.len() == 0 {
        Seq::empty()
    } else {
        let rest = nonblank_lines(ls.drop_last());
        let t = trim(ls.last());
        if t.len() == 0 {
            rest
        } else {
            rest.push(t)
        }
    }
}

pub open spec fn cue_text(text: Seq<char>) -> Seq<char> {
    joined(nonblank_lines(lines(text)), seq!['\n'])
}

fn cue_text_exec(text: &str) -> (out: Vec<char>)
    ensures
        out@ == cue_text(text@),
{
    let ls = lines_exec(chars_of(text).as_slice());
    let ghost lv = lines(text@);
    let mut kept: Vec<Vec<char>> = Vec::new();
    let mut i: usize = 0;
    while i < ls.len()
        invariant
            i <= ls@.len(),
            ls@.len() == lv.len(),
            forall|k: int| 0 <= k < ls@.len() ==> #[trigger] ls@[k]@ == lv[k],
            kept@.map_values(|p: Vec<char>| p@) == nonblank_lines(lv.take(i as int)),
        decreases ls.len() - i,
    {
        assert(lv.take(i + 1).drop_last() =~= lv.take(i as int));
        let t = trimmed(ls[i].as_slice());
        if t.len() > 0 {
            let ghost before = kept@;
            kept.push(t);
            assert(kept@.map_values(|p: Vec<char>| p@) =~= before.map_values(|p: Vec<char>| p@).push(
                trim(lv[i as int]),
            ));
        }
        i = i + 1;
    }
    assert(lv.take(ls@.len() as int) =~= lv);
    let nl: [char; 1] = ['\n'];
    assert(nl@ =~= seq!['\n']);
    crate::text::join_exec(&kept, &nl)
}

/// One cue: its index, its bounds (an end not after the start becomes start plus the
/// minimum length), its text, and the blank line that ends it.
pub open spec fn cue(index: nat, start: u64, end: u64, text: Seq<char>) -> Seq<char> {
    let end = if end >= start + MIN_CUE_MS {
        end
    } else {
        (start + MIN_CUE_MS) as u64
    };
    decimal(index) + seq!['\n'] + srt_timestamp(start) + " --> "@ + srt_timestamp(end) + seq!['\n']
        + text + seq!['\n', '\n']
}

fn cue_exec(index: u64, start: u64, end: u64, text: &[char]) -> (out: Vec<char>)
    requires
        start <= u64::MAX - MIN_CUE_MS,
    ensures
        out@ == cue(index as nat, start, end, text@),
{
    proof {
        reveal_strlit(" --> ");
    }
    let end_ms = if end >= start + MIN_CUE_MS {
        end
    } else {
        start + MIN_CUE_MS
    };
    let mut out = crate::text::decimal_exec(index);
    out.push('\n');
    push_str(&mut out, format_srt_timestamp(start).as_str());
    push_str(&mut out, " --> ");
    push_str(&mut out, format_srt_timestamp(end_ms).as_str());
    out.push('\n');
    push_chars(&mut out, text);
    out.push('\n');
    out.push('\n');
    assert(out@ =~= cue(index as nat, start, end, text@));
    out
}

/// The file so far and how many cues it holds: segments whose text is blank are skipped,
/// and cues are numbered from 1 without gaps.
pub open spec fn srt_of(segs: Seq<RecordingSegment>) -> (Seq<char>, nat)
    decreases segs.len(),
{
    if segs.len() == 0 {
        (Seq::empty(), 0)
    } else {
        let (prev, count) = srt_of(segs.drop_last());
        let s = segs.last();
        let text = cue_text(s.text@);
        if text.len() == 0 {
            (prev, count)
        } else {
            (prev + cue(count + 1, s.start_ms, s.end_ms, text), count + 1)
        }
    }
}

proof fn lemma_count_bound(segs: Seq<RecordingSegment>)
    ensures
        srt_of(segs).1 <= segs.len(),
    decreases segs.len(),
{
    if segs.len() > 0 {
        lemma_count_bound(segs.drop_last());
    }
}

/// The SRT text for a transcript's segments.
pub fn segments_to_srt(segments: &[RecordingSegment]) -> (out: String)
    requires
        forall|i: int| 0 <= i < segments@.len() ==> #[trigger] segments@[i].start_ms <= u64::MAX - MIN_CUE_MS,
    ensures
        out@ == srt_of(segments@).0,
{
    proof {
        reveal_strlit(" --> ");
    }
    let mut srt: Vec<char> = Vec::new();
    let mut index: u64 = 0;
    let mut i: usize = 0;
    while i < segments.len()
        invariant
            i <= segments@.len(),
            forall|k: int| 0 <= k < segments@.len() ==> #[trigger] segments@[k].start_ms <= u64::MAX - MIN_CUE_MS,
            srt@ == srt_of(segments@.take(i as int)).0,
            index as nat == srt_of(segments@.take(i as int)).1,
            index <= i,
        decreases segments.len() - i,
    {
        assert(segments@.take(i + 1).drop_last() =~= segments@.take(i as int));
        proof {
            lemma_count_bound(segments@.take(i as int));
        }
        let seg = &segments[i];
        let text = cue_text_exec(seg.text.as_str());
        if text.len() > 0 {
            index = index + 1;
            let ghost before = srt@;
            let c = cue_exec(index, seg.start_ms, seg.end_ms, text.as_slice());
            push_chars(&mut srt, c.as_slice());
            assert(srt@ =~= before + cue(index as nat, seg.start_ms, seg.end_ms, text@));
        }
        i = i + 1;
    }
    assert(segments@.take(segments@.len() as int) =~= segments@);
    string_of(srt.as_slice())
}

} // verus!
