//! Reading what whisper-cli prints: sentences with their timings, speech regions found by
//! its voice detector, and progress.
use vstd::prelude::*;

use crate::text::{
    all_digits, contains as contains_seq, contains_exec, chars_of, find_first, first_at, is_digit, lower_seq, parse_uint, parse_uint_exec,
    split_on, split_exec, split_once, split_once_exec, starts_with, string_of, trim, trim_start,
    trim_start_exec, trimmed,
};

verus! {

/// `HH:MM:SS.mmm` as milliseconds, with every step of the arithmetic inside `u64`.
pub open spec fn whisper_timestamp(v: Seq<char>) -> Option<u64> {
    match split_once(v, seq!['.']) {
        None => None,
        Some((clock, millis)) => {
            let parts = split_on(clock, ':');
            if parts.len() != 3 {
                None
            } else {
                match (
                    parse_uint(parts[0], u64::MAX as nat),
                    parse_uint(parts[1], u64::MAX as nat),
                    parse_uint(parts[2], u64::MAX as nat),
                ) {
                    (Some(h), Some(m), Some(s)) => if m > 59 || s > 59 {
                        None
                    } else {
                        match parse_uint(millis, u64::MAX as nat) {
                            Some(ms) => {
                                let total = ((h * 60 + m) * 60 + s) * 1000 + ms;
                                if total <= u64::MAX {
                                    Some(total as u64)
                                } else {
                                    None
                                }
                            },
                            None => None,
                        }
                    },
                    _ => None,
                }
            }
        },
    }
}

/// `HH:MM:SS.mmm` to milliseconds.
pub fn parse_whisper_timestamp(value: &[char]) -> (r: Option<u64>)
    ensures
        r == whisper_timestamp(value@),
{
    let dot: [char; 1] = ['.'];
    assert(dot@ =~= seq!['.']);
    let (clock, millis) = match split_once_exec(value, &dot) {
        Some(parts) => parts,
        None => return None,
    };
    let parts = split_exec(clock.as_slice(), ':');
    if parts.len() != 3 {
        return None;
    }
    let hours = match parse_uint_exec(parts[0].as_slice(), u64::MAX) {
        Some(v) => v,
        None => return None,
    };
    let minutes = match parse_uint_exec(parts[1].as_slice(), u64::MAX) {
        Some(v) => v,
        None => return None,
    };
    let seconds = match parse_uint_exec(parts[2].as_slice(), u64::MAX) {
        Some(v) => v,
        None => return None,
    };
    if minutes > 59 || seconds > 59 {
        return None;
    }
    let ms = match parse_uint_exec(millis.as_slice(), u64::MAX) {
        Some(v) => v,
        None => return None,
    };
    let a = match hours.checked_mul(60) {
        Some(v) => v,
        None => {
            proof {
                assert(((hours * 60 + minutes) * 60 + seconds) * 1000 + ms > u64::MAX) by (nonlinear_arith)
                    requires hours * 60 > u64::MAX, minutes >= 0, seconds >= 0, ms >= 0;
            }
            return None;
        },
    };
    let b = match a.checked_add(minutes) {
        Some(v) => v,
        None => {
            proof {
                assert(((a + minutes) * 60 + seconds) * 1000 + ms > u64::MAX) by (nonlinear_arith)
                    requires a + minutes > u64::MAX, seconds >= 0, ms >= 0;
            }
            return None;
        },
    };
    let c = match b.checked_mul(60) {
        Some(v) => v,
        None => {
            proof {
                assert((b * 60 + seconds) * 1000 + ms > u64::MAX) by (nonlinear_arith)
                    requires b * 60 > u64::MAX, seconds >= 0, ms >= 0;
            }
            return None;
        },
    };
    let d = match c.checked_add(seconds) {
        Some(v) => v,
        None => {
            proof {
                assert((c + seconds) * 1000 + ms > u64::MAX) by (nonlinear_arith)
                    requires c + seconds > u64::MAX, ms >= 0;
            }
            return None;
        },
    };
    let e = match d.checked_mul(1000) {
        Some(v) => v,
        None => return None,
    };
    e.checked_add(ms)
}

/// A whisper-cli sentence line, `[00:00:06.830 --> 00:00:13.490]  text`.
pub open spec fn segment_line(line: Seq<char>) -> Option<(u64, u64, Seq<char>)> {
    let t = trim(line);
    if t.len() == 0 || t[0] != '[' {
        None
    } else {
        match split_once(t.drop_first(), seq![']']) {
            None => None,
            Some((span, text)) => match split_once(span, "-->"@) {
                None => None,
                Some((start, end)) => if trim(text).len() == 0 {
                    None
                } else {
                    match (whisper_timestamp(trim(start)), whisper_timestamp(trim(end))) {
                        (Some(a), Some(b)) => Some((a, b, trim(text))),
                        _ => None,
                    }
                },
            },
        }
    }
}

/// A sentence line's bounds in milliseconds and its text; `None` for any other line.
pub fn parse_whisper_segment_line(line: &str) -> (r: Option<(u64, u64, String)>)
    ensures
        match r {
            Some((a, b, text)) => segment_line(line@) == Some((a, b, text@)),
            None => segment_line(line@) is None,
        },
{
    proof {
        reveal_strlit("-->");
    }
    let t = trimmed(chars_of(line).as_slice());
    if t.len() == 0 || t[0] != '[' {
        return None;
    }
    let inner = crate::text::slice_to_vec(t.as_slice(), 1, t.len());
    assert(inner@ =~= t@.drop_first());
    let close: [char; 1] = [']'];
    assert(close@ =~= seq![']']);
    let (span, text) = match split_once_exec(inner.as_slice(), &close) {
        Some(parts) => parts,
        None => return None,
    };
    let arrow = chars_of("-->");
    let (start, end) = match split_once_exec(span.as_slice(), arrow.as_slice()) {
        Some(parts) => parts,
        None => return None,
    };
    let text = trimmed(text.as_slice());
    if text.len() == 0 {
        return None;
    }
    let a = match parse_whisper_timestamp(trimmed(start.as_slice()).as_slice()) {
        Some(v) => v,
        None => return None,
    };
    let b = match parse_whisper_timestamp(trimmed(end.as_slice()).as_slice()) {
        Some(v) => v,
        None => return None,
    };
    Some((a, b, string_of(text.as_slice())))
}

/// One region the voice detector judged to be speech, in absolute milliseconds.
#[derive(Debug, Clone, Copy, PartialEq, Eq, Structural)]
pub struct SpeechRegion {
    pub start_ms: u64,
    pub end_ms: u64,
}

/// Which of whisper's two region lines a region came from.
#[derive(Debug, Clone, Copy, PartialEq, Eq, Structural)]
pub enum SpeechRegionSource {
    Mapped,
    Probe,
}

/// The regions as printed, kept apart by the line they came from.
#[derive(Debug, Default)]
pub struct VadRegionLog {
    pub mapped: Vec<SpeechRegion>,
    pub probe: Vec<SpeechRegion>,
}

impl VadRegionLog {
    pub fn new() -> (log: VadRegionLog)
        ensures
            log.mapped@.len() == 0,
            log.probe@.len() == 0,
    {
        VadRegionLog { mapped: Vec::new(), probe: Vec::new() }
    }

    pub fn push(&mut self, source: SpeechRegionSource, region: SpeechRegion)
        ensures
            source == SpeechRegionSource::Mapped ==> final(self).mapped@ == old(self).mapped@.push(region)
                && final(self).probe@ == old(self).probe@,
            source == SpeechRegionSource::Probe ==> final(self).probe@ == old(self).probe@.push(region)
                && final(self).mapped@ == old(self).mapped@,
    {
        match source {
            SpeechRegionSource::Mapped => self.mapped.push(region),
            SpeechRegionSource::Probe => self.probe.push(region),
        }
    }

    /// The mapped regions when there are any, else the probe's.
    pub fn into_regions(self) -> (regions: Vec<SpeechRegion>)
        ensures
            regions@ == (if self.mapped@.len() == 0 {
                self.probe@
            } else {
                self.mapped@
            }),
    {
        if self.mapped.len() == 0 {
            self.probe
        } else {
            self.mapped
        }
    }
}

/// Which way to round a dropped fraction of a millisecond.
#[derive(Debug, Clone, Copy, PartialEq, Eq, Structural)]
pub enum Rounding {
    Down,
    Up,
    /// To the nearer millisecond, a half rounding up.
    Nearest,
}

pub open spec fn pow10(n: nat) -> nat
    decreases n,
{
    if n == 0 {
        1
    } else {
        10 * pow10((n - 1) as nat)
    }
}

/// The whole and the fraction part of a decimal number: split at the first `.`, with an
/// empty fraction where there is none.
pub open spec fn decimal_parts(v: Seq<char>) -> (Seq<char>, Seq<char>) {
    match split_once(v, seq!['.']) {
        Some(parts) => parts,
        None => (v, Seq::empty()),
    }
}

/// The first three digits of a fraction as milliseconds (`"5"` is 500, `"25"` is 250).
pub open spec fn fraction_millis(fraction: Seq<char>) -> nat {
    let digits = if fraction.len() > 3 {
        fraction.take(3)
    } else {
        fraction
    };
    crate::text::digits_value(digits) * pow10((3 - digits.len()) as nat)
}

/// Whether a digit past the third of a fraction is not zero.
pub open spec fn drops_nonzero(fraction: Seq<char>) -> bool {
    fraction.len() > 3 && exists|k: int| 3 <= k < fraction.len() && fraction[k] != '0'
}

/// Whether the digits past the third of a fraction are at least half a millisecond.
pub open spec fn drops_half(fraction: Seq<char>) -> bool {
    fraction.len() > 3 && fraction[3] >= '5'
}

/// Whether rounding `fraction` to milliseconds the way `round` asks adds one.
pub open spec fn rounds_up(fraction: Seq<char>, round: Rounding) -> bool {
    match round {
        Rounding::Down => false,
        Rounding::Up => drops_nonzero(fraction),
        Rounding::Nearest => drops_half(fraction),
    }
}

/// Seconds as decimal text (`1.92`) to milliseconds: whole seconds, then the first three
/// fraction digits as milliseconds, plus one where the dropped digits round up the way
/// `round` asks.
pub open spec fn vad_seconds(value: Seq<char>, round: Rounding) -> Option<u64> {
    let (whole, fraction) = decimal_parts(trim(value));
    if whole.len() == 0 || !all_digits(whole) || !all_digits(fraction) {
        None
    } else {
        match parse_uint(whole, u64::MAX as nat) {
            None => None,
            Some(w) => {
                let total = w * 1000 + fraction_millis(fraction);
                let rounded = if rounds_up(fraction, round) {
                    total + 1
                } else {
                    total
                };
                if rounded <= u64::MAX {
                    Some(rounded as u64)
                } else {
                    None
                }
            },
        }
    }
}

/// Seconds as whisper prints them to milliseconds.
pub fn parse_vad_seconds(value: &str, round: Rounding) -> (r: Option<u64>)
    ensures
        r == vad_seconds(value@, round),
{
    vad_seconds_of(chars_of(value).as_slice(), round)
}

fn all_digits_exec(s: &[char]) -> (b: bool)
    ensures
        b == all_digits(s@),
{
    let mut i: usize = 0;
    while i < s.len()
        invariant
            i <= s@.len(),
            forall|k: int| 0 <= k < i ==> is_digit(#[trigger] s@[k]),
        decreases s.len() - i,
    {
        if !('0' <= s[i] && s[i] <= '9') {
            return false;
        }
        i = i + 1;
    }
    true
}

pub fn vad_seconds_of(value: &[char], round: Rounding) -> (r: Option<u64>)
    ensures
        r == vad_seconds(value@, round),
{
    let v = trimmed(value);
    let dot: [char; 1] = ['.'];
    assert(dot@ =~= seq!['.']);
    let (whole, fraction) = match split_once_exec(v.as_slice(), &dot) {
        Some(parts) => parts,
        None => (crate::text::slice_to_vec(v.as_slice(), 0, v.len()), Vec::new()),
    };
    assert(v@.subrange(0, v@.len() as int) =~= v@);
    if whole.len() == 0 || !all_digits_exec(whole.as_slice()) || !all_digits_exec(fraction.as_slice()) {
        return None;
    }
    let digits = if fraction.len() > 3 {
        crate::text::slice_to_vec(fraction.as_slice(), 0, 3)
    } else {
        crate::text::slice_to_vec(fraction.as_slice(), 0, fraction.len())
    };
    proof {
        if fraction@.len() > 3 {
            assert(digits@ =~= fraction@.take(3));
        } else {
            assert(digits@ =~= fraction@);
        }
    }
    assert(decimal_parts(trim(value@)) == (whole@, fraction@));
    let ghost dv = crate::text::digits_value(digits@);
    proof {
        assert(all_digits(digits@)) by {
            assert forall|k: int| 0 <= k < digits@.len() implies is_digit(#[trigger] digits@[k]) by {
                assert(digits@[k] == fraction@[k]);
            }
        }
        lemma_digits_below(digits@);
        reveal_with_fuel(pow10, 4);
        assert(pow10(digits@.len()) <= 1000);
        if digits@.len() > 0 {
            assert(is_digit(digits@[0]));
            assert(parse_uint(digits@, 999) == Some(dv));
        } else {
            assert(dv == 0);
        }
    }
    let base = match parse_uint_exec(digits.as_slice(), 999) {
        Some(m) => m,
        None => 0,
    };
    assert(base == dv);
    assert(base <= 999);
    let scale: u64 = if digits.len() == 0 {
        1000
    } else if digits.len() == 1 {
        100
    } else if digits.len() == 2 {
        10
    } else {
        1
    };
    proof {
        reveal_with_fuel(pow10, 4);
    }
    assert(scale == pow10((3 - digits@.len()) as nat));
    assert(base * scale <= 999 * 1000) by (nonlinear_arith)
        requires
            base <= 999,
            scale <= 1000,
    ;
    let millis = base * scale;
    assert(millis == crate::text::digits_value(digits@) * pow10((3 - digits@.len()) as nat));
    let w = match parse_uint_exec(whole.as_slice(), u64::MAX) {
        Some(w) => w,
        None => return None,
    };
    let t = match w.checked_mul(1000) {
        Some(t) => t,
        None => return None,
    };
    let total = match t.checked_add(millis) {
        Some(t) => t,
        None => return None,
    };
    let mut discarded = false;
    let mut k: usize = 3;
    while k < fraction.len()
        invariant
            3 <= k,
            discarded == exists|j: int| 3 <= j < k && j < fraction@.len() && fraction@[j] != '0',
        decreases fraction.len() - k,
    {
        if fraction[k] != '0' {
            discarded = true;
        }
        k = k + 1;
    }
    proof {
        if discarded {
            let j = choose|j: int| 3 <= j < k && j < fraction@.len() && fraction@[j] != '0';
            assert(fraction@.len() > 3);
        }
    }
    assert(discarded == (fraction@.len() > 3 && exists|j: int|
        3 <= j < fraction@.len() && fraction@[j] != '0'));
    assert(total == w * 1000 + millis);
    assert(millis == fraction_millis(fraction@));
    assert(discarded == drops_nonzero(fraction@));
    let half = fraction.len() > 3 && fraction[3] >= '5';
    match round {
        Rounding::Up => if discarded {
            total.checked_add(1)
        } else {
            Some(total)
        },
        Rounding::Nearest => if half {
            total.checked_add(1)
        } else {
            Some(total)
        },
        Rounding::Down => Some(total),
    }
}

proof fn lemma_digits_below(s: Seq<char>)
    requires
        all_digits(s),
        s.len() <= 3,
    ensures
        crate::text::digits_value(s) < pow10(s.len()),
    decreases s.len(),
{
    reveal_with_fuel(pow10, 4);
    if s.len() > 0 {
        assert(all_digits(s.drop_last())) by {
            assert forall|k: int| 0 <= k < s.drop_last().len() implies is_digit(#[trigger] s.drop_last()[k]) by {
                assert(s.drop_last()[k] == s[k]);
            }
        }
        lemma_digits_below(s.drop_last());
        assert(is_digit(s[s.len() - 1]));
    }
}

/// Whether a character may stand in a number whisper prints: a digit or a `.`.
pub open spec fn numeric_char(c: char, allow_dot: bool) -> bool {
    is_digit(c) || (allow_dot && c == '.')
}

/// How many characters at the start of `s` are digits (and dots, when allowed).
pub open spec fn leading_run(s: Seq<char>, allow_dot: bool) -> nat
    decreases s.len(),
{
    if s.len() == 0 || !numeric_char(s[0], allow_dot) {
        0
    } else {
        1 + leading_run(s.drop_first(), allow_dot)
    }
}

pub proof fn lemma_leading_run_bound(s: Seq<char>, allow_dot: bool)
    ensures
        leading_run(s, allow_dot) <= s.len(),
        forall|k: int| 0 <= k < leading_run(s, allow_dot) ==> numeric_char(#[trigger] s[k], allow_dot),
    decreases s.len(),
{
    if s.len() > 0 && numeric_char(s[0], allow_dot) {
        lemma_leading_run_bound(s.drop_first(), allow_dot);
        assert forall|k: int| 0 <= k < leading_run(s, allow_dot) implies numeric_char(#[trigger] s[k], allow_dot) by {
            if k > 0 {
                assert(s[k] == s.drop_first()[k - 1]);
            }
        }
    }
}

pub fn leading_run_exec(s: &[char], allow_dot: bool) -> (n: usize)
    ensures
        n == leading_run(s@, allow_dot),
{
    let mut i: usize = 0;
    assert(s@.skip(0) =~= s@);
    while i < s.len() && (('0' <= s[i] && s[i] <= '9') || (allow_dot && s[i] == '.'))
        invariant
            i <= s@.len(),
            leading_run(s@, allow_dot) == i + leading_run(s@.skip(i as int), allow_dot),
        decreases s.len() - i,
    {
        assert(s@.skip(i as int).drop_first() =~= s@.skip(i + 1));
        i = i + 1;
    }
    i
}

/// The number printed right after `key`: everything past the first `key`, without its
/// leading whitespace, up to the first character that is neither a digit nor a `.`.
pub open spec fn value_after(line: Seq<char>, key: Seq<char>) -> Option<Seq<char>> {
    match split_once(line, key) {
        None => None,
        Some((_, after)) => {
            let rest = trim_start(after);
            let n = leading_run(rest, true);
            if n > 0 {
                Some(rest.take(n as int))
            } else {
                None
            }
        },
    }
}

pub fn value_after_exec(line: &[char], key: &[char]) -> (r: Option<Vec<char>>)
    ensures
        match r {
            Some(v) => value_after(line@, key@) == Some(v@),
            None => value_after(line@, key@) is None,
        },
{
    let (_, after) = match split_once_exec(line, key) {
        Some(parts) => parts,
        None => return None,
    };
    let rest = trim_start_exec(after.as_slice());
    let n = leading_run_exec(rest.as_slice(), true);
    proof {
        lemma_leading_run_bound(rest@, true);
    }
    if n > 0 {
        let v = crate::text::slice_to_vec(rest.as_slice(), 0, n);
        assert(v@ =~= rest@.take(n as int));
        Some(v)
    } else {
        None
    }
}

/// One of whisper's two region lines as a source and an absolute region: `vad_segment_info`
/// lines carry the region mapped back onto the source audio, `VAD segment` lines the one
/// the detector found. A region that ends before it starts is no region.
pub open spec fn vad_region_line(line: Seq<char>) -> Option<(SpeechRegionSource, SpeechRegion)> {
    let keys = if contains_seq(line, "vad_segment_info:"@) {
        Some((SpeechRegionSource::Mapped, "orig_start:"@, "orig_end:"@))
    } else if contains_seq(line, "VAD segment "@) {
        Some((SpeechRegionSource::Probe, "start = "@, "end = "@))
    } else {
        None
    };
    match keys {
        None => None,
        Some((source, start_key, end_key)) => match (
            value_after(line, start_key),
            value_after(line, end_key),
        ) {
            (Some(a), Some(b)) => match (vad_seconds(a, Rounding::Down), vad_seconds(b, Rounding::Up)) {
                (Some(start_ms), Some(end_ms)) => if end_ms >= start_ms {
                    Some((source, SpeechRegion { start_ms, end_ms }))
                } else {
                    None
                },
                _ => None,
            },
            _ => None,
        },
    }
}

pub fn parse_vad_region_line(line: &str) -> (r: Option<(SpeechRegionSource, SpeechRegion)>)
    ensures
        r == vad_region_line(line@),
{
    proof {
        reveal_strlit("vad_segment_info:");
        reveal_strlit("VAD segment ");
        reveal_strlit("orig_start:");
        reveal_strlit("orig_end:");
        reveal_strlit("start = ");
        reveal_strlit("end = ");
    }
    let l = chars_of(line);
    let (source, start_key, end_key) = if contains_exec(l.as_slice(), chars_of("vad_segment_info:").as_slice()) {
        (SpeechRegionSource::Mapped, chars_of("orig_start:"), chars_of("orig_end:"))
    } else if contains_exec(l.as_slice(), chars_of("VAD segment ").as_slice()) {
        (SpeechRegionSource::Probe, chars_of("start = "), chars_of("end = "))
    } else {
        return None;
    };
    let a = match value_after_exec(l.as_slice(), start_key.as_slice()) {
        Some(v) => v,
        None => return None,
    };
    let b = match value_after_exec(l.as_slice(), end_key.as_slice()) {
        Some(v) => v,
        None => return None,
    };
    let start_ms = match vad_seconds_of(a.as_slice(), Rounding::Down) {
        Some(v) => v,
        None => return None,
    };
    let end_ms = match vad_seconds_of(b.as_slice(), Rounding::Up) {
        Some(v) => v,
        None => return None,
    };
    if end_ms >= start_ms {
        Some((source, SpeechRegion { start_ms, end_ms }))
    } else {
        None
    }
}

/// A progress line, `... progress =  96%`, as a percent no greater than 100: the digits that
/// follow the first `progress =` (after whitespace), read as a `u16`.
pub open spec fn progress_line(line: Seq<char>) -> Option<u8> {
    match split_once(line, "progress ="@) {
        None => None,
        Some((_, after)) => {
            let rest = trim_start(after);
            match parse_uint(rest.take(leading_run(rest, false) as int), 65535) {
                None => None,
                Some(v) => Some(if v > 100 {
                    100u8
                } else {
                    v as u8
                }),
            }
        },
    }
}

pub fn parse_whisper_progress_line(line: &str) -> (r: Option<u8>)
    ensures
        r == progress_line(line@),
        r matches Some(p) ==> p <= 100,
{
    proof {
        reveal_strlit("progress =");
    }
    let l = chars_of(line);
    let (_, after) = match split_once_exec(l.as_slice(), chars_of("progress =").as_slice()) {
        Some(parts) => parts,
        None => return None,
    };
    let rest = trim_start_exec(after.as_slice());
    let n = leading_run_exec(rest.as_slice(), false);
    proof {
        lemma_leading_run_bound(rest@, false);
    }
    let digits = crate::text::slice_to_vec(rest.as_slice(), 0, n);
    assert(digits@ =~= rest@.take(n as int));
    match parse_uint_exec(digits.as_slice(), 65535) {
        None => None,
        Some(v) => Some(if v > 100 {
            100u8
        } else {
            v as u8
        }),
    }
}

/// whisper-cli's routine chatter: a blank line, or one that (after leading whitespace)
/// starts with the load banner, the voice-detector and timing tables, the progress callback
/// or the output notices.
pub open spec fn whisper_noise(line: Seq<char>) -> bool {
    let t = trim_start(line);
    ||| t.len() == 0
    ||| starts_with(t, "load_backend:"@)
    ||| starts_with(t, "whisper_init_"@)
    ||| starts_with(t, "whisper_model_load:"@)
    ||| starts_with(t, "whisper_backend_init"@)
    ||| starts_with(t, "whisper_vad"@)
    ||| starts_with(t, "whisper_print_timings:"@)
    ||| starts_with(t, "whisper_print_progress_callback:"@)
    ||| starts_with(t, "system_info:"@)
    ||| starts_with(t, "output_txt:"@)
    ||| starts_with(t, "output_json:"@)
}

pub fn is_whisper_noise_line(line: &str) -> (b: bool)
    ensures
        b == whisper_noise(line@),
{
    let t = trim_start_exec(chars_of(line).as_slice());
    let t = t.as_slice();
    t.len() == 0
        || crate::text::starts_with_exec(t, chars_of("load_backend:").as_slice())
        || crate::text::starts_with_exec(t, chars_of("whisper_init_").as_slice())
        || crate::text::starts_with_exec(t, chars_of("whisper_model_load:").as_slice())
        || crate::text::starts_with_exec(t, chars_of("whisper_backend_init").as_slice())
        || crate::text::starts_with_exec(t, chars_of("whisper_vad").as_slice())
        || crate::text::starts_with_exec(t, chars_of("whisper_print_timings:").as_slice())
        || crate::text::starts_with_exec(t, chars_of("whisper_print_progress_callback:").as_slice())
        || crate::text::starts_with_exec(t, chars_of("system_info:").as_slice())
        || crate::text::starts_with_exec(t, chars_of("output_txt:").as_slice())
        || crate::text::starts_with_exec(t, chars_of("output_json:").as_slice())
}

} // verus!
