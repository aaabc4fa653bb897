//! What a failed tool run says to the user: the lines that explain the failure first, a
//! bounded length, and the sentence for media that has no sound.
use vstd::prelude::*;

use crate::text::{
    chars_of, contains, contains_exec, join_exec, joined, lines, lines_exec, lower_seq,
    lowercase, push_str, slice_to_vec, starts_with, starts_with_exec, string_of, trim, trimmed,
};

verus! {

/// The most characters a capped diagnostic keeps before its ellipsis.
pub const MAX_DETAIL_CHARS: usize = 400;

/// The most lines a capped diagnostic keeps.
pub const MAX_DETAIL_LINES: usize = 3;

/// A line that explains a failure: it starts with `error`, or holds `error:` or `failed`,
/// in any ASCII case.
pub open spec fn is_error_line(l: Seq<char>) -> bool {
    let lo = lower_seq(l);
    starts_with(lo, "error"@) || contains(lo, "error:"@) || contains(lo, "failed"@)
}

/// The lines of `ls` that are error lines (`want`) or that are not (`!want`), in order.
pub open spec fn lines_where(ls: Seq<Seq<char>>, want: bool) -> Seq<Seq<char>>
    decreases ls.len(),
{
    if ls.len() == 0 {
        Seq::empty()
    } else {
        let rest = lines_where(ls.drop_last(), want);
        if is_error_line(ls.last()) == want {
            rest.push(ls.last())
        } else {
            rest
        }
    }
}

/// A tool's dump cut to what a person reads: the error lines first, then the others, each
/// group in its own order; the first three of those joined by newlines; and past 400
/// characters, the first 400 and an ellipsis.
pub open spec fn capped_details(details: Seq<char>) -> Seq<char> {
    let ls = lines(details);
    let ordered = lines_where(ls, true) + lines_where(ls, false);
    let top = if ordered.len() > 3 {
        ordered.take(3)
    } else {
        ordered
    };
    let j = joined(top, seq!['\n']);
    if j.len() > 400 {
        j.take(400).push('\u{2026}')
    } else {
        j
    }
}

pub fn is_error_line_exec(l: &[char]) -> (b: bool)
    ensures
        b == is_error_line(l@),
{
    proof {
        reveal_strlit("error");
        reveal_strlit("error:");
        reveal_strlit("failed");
    }
    let lo = lowercase(l);
    starts_with_exec(lo.as_slice(), chars_of("error").as_slice())
        || contains_exec(lo.as_slice(), chars_of("error:").as_slice())
        || contains_exec(lo.as_slice(), chars_of("failed").as_slice())
}

/// Caps a stderr or stdout dump, so that a tool's usage splurge never reaches the user as a
/// giant error.
pub fn cap_details(details: &str) -> (out: String)
    ensures
        out@ == capped_details(details@),
{
    let ls = lines_exec(chars_of(details).as_slice());
    let ghost lv = lines(details@);
    let mut errors: Vec<Vec<char>> = Vec::new();
    let mut others: Vec<Vec<char>> = Vec::new();
    let mut i: usize = 0;
    while i < ls.len()
        invariant
            i <= ls@.len(),
            ls@.len() == lv.len(),
            forall|k: int| 0 <= k < ls@.len() ==> #[trigger] ls@[k]@ == lv[k],
            errors@.map_values(|p: Vec<char>| p@) == lines_where(lv.take(i as int), true),
            others@.map_values(|p: Vec<char>| p@) == lines_where(lv.take(i as int), false),
        decreases ls.len() - i,
    {
        let line = slice_to_vec(ls[i].as_slice(), 0, ls[i].len());
        assert(line@ =~= lv[i as int]);
        assert(lv.take(i + 1).drop_last() =~= lv.take(i as int));
        assert(lv.take(i + 1).last() == lv[i as int]);
        let ghost before_e = errors@;
        let ghost before_o = others@;
        if is_error_line_exec(line.as_slice()) {
            errors.push(line);
            assert(errors@.map_values(|p: Vec<char>| p@) =~= before_e.map_values(
                |p: Vec<char>| p@,
            ).push(lv[i as int]));
        } else {
            others.push(line);
            assert(others@.map_values(|p: Vec<char>| p@) =~= before_o.map_values(
                |p: Vec<char>| p@,
            ).push(lv[i as int]));
        }
        i = i + 1;
    }
    assert(lv.take(ls@.len() as int) =~= lv);
    let ghost ordered = lines_where(lv, true) + lines_where(lv, false);
    let ghost ev = lines_where(lv, true);
    let ghost ov = lines_where(lv, false);
    let mut all = errors;
    let mut m: usize = 0;
    while m < others.len()
        invariant
            m <= others@.len(),
            others@.map_values(|p: Vec<char>| p@) == ov,
            all@.map_values(|p: Vec<char>| p@) == ev + ov.take(m as int),
        decreases others.len() - m,
    {
        let ghost before = all@;
        assert(others@.map_values(|p: Vec<char>| p@)[m as int] == others@[m as int]@);
        let line = slice_to_vec(others[m].as_slice(), 0, others[m].len());
        assert(line@ =~= others@[m as int]@);
        all.push(line);
        assert(all@.map_values(|p: Vec<char>| p@) =~= before.map_values(|p: Vec<char>| p@).push(
            ov[m as int],
        ));
        assert(ev + ov.take(m + 1) =~= (ev + ov.take(m as int)).push(ov[m as int]));
        m = m + 1;
    }
    assert(ov.take(others@.len() as int) =~= ov);
    assert(all@.len() == all@.map_values(|p: Vec<char>| p@).len());
    let mut top: Vec<Vec<char>> = Vec::new();
    let mut t: usize = 0;
    while t < all.len() && t < MAX_DETAIL_LINES
        invariant
            t <= all@.len(),
            t <= MAX_DETAIL_LINES,
            all@.len() == ordered.len(),
            all@.map_values(|p: Vec<char>| p@) == ordered,
            top@.map_values(|p: Vec<char>| p@) == ordered.take(t as int),
        decreases all.len() - t,
    {
        let ghost before = top@;
        assert(all@.map_values(|p: Vec<char>| p@)[t as int] == all@[t as int]@);
        let line = slice_to_vec(all[t].as_slice(), 0, all[t].len());
        assert(line@ =~= all@[t as int]@);
        top.push(line);
        assert(top@.map_values(|p: Vec<char>| p@) =~= before.map_values(|p: Vec<char>| p@).push(
            ordered[t as int],
        ));
        assert(ordered.take(t + 1) =~= ordered.take(t as int).push(ordered[t as int]));
        t = t + 1;
    }
    let ghost want = if ordered.len() > 3 {
        ordered.take(3)
    } else {
        ordered
    };
    assert(ordered.take(ordered.len() as int) =~= ordered);
    assert(top@.map_values(|p: Vec<char>| p@) =~= want);
    let nl: [char; 1] = ['\n'];
    assert(nl@ =~= seq!['\n']);
    let j = join_exec(&top, &nl);
    if j.len() > MAX_DETAIL_CHARS {
        let mut cut = slice_to_vec(j.as_slice(), 0, MAX_DETAIL_CHARS);
        cut.push('\u{2026}');
        assert(cut@ =~= j@.take(400).push('\u{2026}'));
        string_of(cut.as_slice())
    } else {
        string_of(j.as_slice())
    }
}

/// Whether a tool's stderr says the media has no audio stream: ffmpeg's `matches no
/// streams` for a stream map that found nothing, or yt-dlp's `unable to obtain file audio
/// codec`, in any ASCII case.
pub open spec fn indicates_no_audio(stderr: Seq<char>) -> bool {
    let lo = lower_seq(stderr);
    contains(lo, "matches no streams"@) || contains(lo, "unable to obtain file audio codec"@)
}

pub fn stderr_indicates_no_audio(stderr: &str) -> (b: bool)
    ensures
        b == indicates_no_audio(stderr@),
{
    proof {
        reveal_strlit("matches no streams");
        reveal_strlit("unable to obtain file audio codec");
    }
    let lo = lowercase(chars_of(stderr).as_slice());
    contains_exec(lo.as_slice(), chars_of("matches no streams").as_slice())
        || contains_exec(lo.as_slice(), chars_of("unable to obtain file audio codec").as_slice())
}

/// Shown when the media handed to transcription carries no audio track.
pub const NO_AUDIO_MESSAGE: &'static str = "This video has no sound, so there is nothing to transcribe.";

/// What a failed decode reports: the no-audio sentence, or what ffmpeg said, trimmed.
pub open spec fn decode_failure(stderr: Seq<char>) -> Seq<char> {
    if indicates_no_audio(stderr) {
        NO_AUDIO_MESSAGE@
    } else {
        "ffmpeg failed to decode the recording: "@ + trim(stderr)
    }
}

pub fn decode_failure_message(stderr: &str) -> (out: String)
    ensures
        out@ == decode_failure(stderr@),
{
    if stderr_indicates_no_audio(stderr) {
        NO_AUDIO_MESSAGE.to_string()
    } else {
        let mut out: Vec<char> = chars_of("ffmpeg failed to decode the recording: ");
        let t = trimmed(chars_of(stderr).as_slice());
        crate::text::push_chars(&mut out, t.as_slice());
        string_of(out.as_slice())
    }
}

} // verus!
