//! Where in a recording someone is speaking, one frame per 10 ms, and how a cue's bounds are
//! pulled in to the speech inside them.
use vstd::prelude::*;

verus! {

/// The length of one envelope frame, in milliseconds.
pub const FRAME_MS: u64 = 10;

/// The most frames an envelope holds: far beyond any recording, and small enough that a
/// frame's offset in milliseconds always fits a `u64`.
pub const MAX_FRAMES: u64 = 1_000_000_000_000_000;

/// The first voiced frame of `w`, or -1 when none is.
#[verifier::opaque]
pub open spec fn first_voiced(w: Seq<bool>) -> int {
    if exists|k: int| 0 <= k < w.len() && w[k] {
        choose|k: int| 0 <= k < w.len() && w[k] && forall|j: int| 0 <= j < k ==> !w[j]
    } else {
        -1
    }
}

/// The last voiced frame of `w`, or -1 when none is.
#[verifier::opaque]
pub open spec fn last_voiced(w: Seq<bool>) -> int {
    if exists|k: int| 0 <= k < w.len() && w[k] {
        choose|k: int| 0 <= k < w.len() && w[k] && forall|j: int| k < j < w.len() ==> !w[j]
    } else {
        -1
    }
}

pub open spec fn min_int(a: int, b: int) -> int {
    if a <= b {
        a
    } else {
        b
    }
}

pub open spec fn max_int(a: int, b: int) -> int {
    if a >= b {
        a
    } else {
        b
    }
}

/// `u64::saturating_sub` and `u64::saturating_add` over integers.
pub open spec fn sat_sub(a: int, b: int) -> int {
    if a >= b {
        a - b
    } else {
        0
    }
}

pub open spec fn sat_add(a: int, b: int) -> int {
    if a + b > u64::MAX {
        u64::MAX as int
    } else {
        a + b
    }
}

/// A cue `[start, end)` pulled in to the voiced frames inside it, each side widened by `pad`
/// but never past the cue's own bounds. A cue with no voiced frame inside it, or with no
/// length, is left as it is.
pub open spec fn envelope_trim(v: Seq<bool>, start: u64, end: u64, pad: u64) -> (u64, u64) {
    if end <= start {
        (start, end)
    } else {
        let first = min_int((start / 10) as int, v.len() as int);
        let last = min_int((end / 10) as int, v.len() as int);
        let w = v.subrange(first, last);
        let fv = first_voiced(w);
        if fv < 0 {
            (start, end)
        } else {
            let speech_start = start + fv * 10;
            let speech_end = start + (last_voiced(w) + 1) * 10;
            (
                max_int(start as int, sat_sub(speech_start, pad as int)) as u64,
                min_int(end as int, sat_add(speech_end, pad as int)) as u64,
            )
        }
    }
}

proof fn lemma_first_voiced(w: Seq<bool>, i: int)
    requires
        0 <= i < w.len(),
        w[i],
        forall|j: int| 0 <= j < i ==> !w[j],
    ensures
        first_voiced(w) == i,
{
    reveal(first_voiced);
    assert(0 <= i < w.len() && w[i]);
    let k = choose|k: int| 0 <= k < w.len() && w[k] && forall|j: int| 0 <= j < k ==> !w[j];
    if k < i {
        assert(!w[k]);
    } else if k > i {
        assert(!w[i]);
    }
}

proof fn lemma_last_voiced(w: Seq<bool>, i: int)
    requires
        0 <= i < w.len(),
        w[i],
        forall|j: int| i < j < w.len() ==> !w[j],
    ensures
        last_voiced(w) == i,
{
    reveal(last_voiced);
    assert(0 <= i < w.len() && w[i]);
    let k = choose|k: int| 0 <= k < w.len() && w[k] && forall|j: int| k < j < w.len() ==> !w[j];
    if k < i {
        assert(!w[i]);
    } else if k > i {
        assert(!w[k]);
    }
}

proof fn lemma_last_voiced_exists(w: Seq<bool>, k: int)
    requires
        0 <= k < w.len(),
        w[k],
    ensures
        exists|m: int| 0 <= m < w.len() && w[m] && forall|j: int| m < j < w.len() ==> !w[j],
    decreases w.len(),
{
    if w[w.len() - 1] {
        assert(forall|j: int| w.len() - 1 < j < w.len() ==> !w[j]);
    } else {
        let d = w.drop_last();
        assert(d[k] == w[k]);
        lemma_last_voiced_exists(d, k);
        let m = choose|m: int| 0 <= m < d.len() && d[m] && forall|j: int| m < j < d.len() ==> !d[j];
        assert(w[m]);
        assert forall|j: int| m < j < w.len() implies !w[j] by {
            if j < d.len() {
                assert(!d[j]);
            }
        }
    }
}

/// A trimmed cue never ends after the cue did.
pub proof fn lemma_trim_ends_within(v: Seq<bool>, start: u64, end: u64, pad: u64)
    ensures
        envelope_trim(v, start, end, pad).1 <= end,
{
    if end > start {
        let first = min_int((start / 10) as int, v.len() as int);
        let last = min_int((end / 10) as int, v.len() as int);
        let w = v.subrange(first, last);
        reveal(last_voiced);
        if exists|k: int| 0 <= k < w.len() && w[k] {
            let k = choose|k: int| 0 <= k < w.len() && w[k];
            lemma_last_voiced_exists(w, k);
            assert(last_voiced(w) >= 0);
        } else {
            assert(last_voiced(w) == -1);
        }
        let speech_end = start + (last_voiced(w) + 1) * 10;
        assert(speech_end >= 0);
        assert(sat_add(speech_end, pad as int) >= 0);
    }
}

proof fn lemma_none_voiced(w: Seq<bool>)
    requires
        forall|j: int| 0 <= j < w.len() ==> !w[j],
    ensures
        first_voiced(w) == -1,
{
    reveal(first_voiced);
}

/// Offsets of frames inside a window that starts at `start / 10` stay inside a `u64`.
proof fn lemma_frame_offsets(start: int, first: int, last: int, len: int, lv: int)
    requires
        0 <= start,
        first == start / 10,
        first < len,
        len <= MAX_FRAMES,
        last <= len,
        0 <= lv < last - first,
    ensures
        start + (lv + 1) * 10 <= u64::MAX,
{
    assert(start < 10 * (first + 1)) by (nonlinear_arith)
        requires
            first == start / 10,
            0 <= start,
    ;
    assert((lv + 1) * 10 <= (len - first) * 10) by (nonlinear_arith)
        requires
            lv + 1 <= len - first,
    ;
}

proof fn lemma_first_voiced_exists(w: Seq<bool>, k: int)
    requires
        0 <= k < w.len(),
        w[k],
    ensures
        exists|m: int| 0 <= m < w.len() && w[m] && forall|j: int| 0 <= j < m ==> !w[j],
    decreases k,
{
    if exists|j: int| 0 <= j < k && w[j] {
        let j = choose|j: int| 0 <= j < k && w[j];
        lemma_first_voiced_exists(w, j);
    } else {
        assert(forall|j: int| 0 <= j < k ==> !w[j]);
    }
}

/// With a voiced frame in `w`, the first and last voiced frames are voiced, in order, and
/// bound every voiced frame.
proof fn lemma_voiced_span(w: Seq<bool>, k: int)
    requires
        0 <= k < w.len(),
        w[k],
    ensures
        0 <= first_voiced(w) <= k <= last_voiced(w) < w.len(),
        w[first_voiced(w)],
        w[last_voiced(w)],
        forall|j: int| 0 <= j < first_voiced(w) ==> !w[j],
        forall|j: int| last_voiced(w) < j < w.len() ==> !w[j],
{
    reveal(first_voiced);
    reveal(last_voiced);
    lemma_first_voiced_exists(w, k);
    lemma_last_voiced_exists(w, k);
}

/// A trimmed cue keeps its start at or before its end, inside the cue, and starts before
/// the cue ends.
pub proof fn law_a_trim_keeps_its_bounds_in_order(v: Seq<bool>, start: u64, end: u64, pad: u64)
    requires
        start < end,
    ensures
        start <= envelope_trim(v, start, end, pad).0,
        envelope_trim(v, start, end, pad).0 < end,
        envelope_trim(v, start, end, pad).0 <= envelope_trim(v, start, end, pad).1,
        envelope_trim(v, start, end, pad).1 <= end,
{
    let first = min_int((start / 10) as int, v.len() as int);
    let last = min_int((end / 10) as int, v.len() as int);
    let w = v.subrange(first, last);
    if exists|k: int| 0 <= k < w.len() && w[k] {
        let k = choose|k: int| 0 <= k < w.len() && w[k];
        lemma_voiced_span(w, k);
        let fv = first_voiced(w);
        let lv = last_voiced(w);
        assert(start < 10 * (start / 10 + 1)) by (nonlinear_arith);
        assert(10 * last <= end) by (nonlinear_arith)
            requires
                last <= end / 10,
        ;
        assert(start + fv * 10 < 10 * (first + fv + 1)) by (nonlinear_arith)
            requires
                start < 10 * (first + 1),
        ;
        assert(10 * (first + fv + 1) <= 10 * last) by (nonlinear_arith)
            requires
                first + fv + 1 <= last,
        ;
        assert(fv * 10 <= (lv + 1) * 10) by (nonlinear_arith)
            requires
                fv <= lv,
        ;
    } else {
        reveal(first_voiced);
    }
}

/// A trim keeps the span from the first voiced frame inside the cue to the end of the last,
/// silence between them included, each side widened by the pad within the cue.
pub proof fn law_a_trim_spans_first_to_last_voiced_frame(
    v: Seq<bool>,
    start: u64,
    end: u64,
    pad: u64,
    f: int,
    l: int,
)
    requires
        start < end,
        ({
            let w = v.subrange(
                min_int((start / 10) as int, v.len() as int),
                min_int((end / 10) as int, v.len() as int),
            );
            &&& 0 <= f <= l < w.len()
            &&& w[f] && w[l]
            &&& forall|j: int| 0 <= j < f ==> !w[j]
            &&& forall|j: int| l < j < w.len() ==> !w[j]
        }),
    ensures
        envelope_trim(v, start, end, pad) == (
            max_int(start as int, sat_sub(start + f * 10, pad as int)) as u64,
            min_int(end as int, sat_add(start + (l + 1) * 10, pad as int)) as u64,
        ),
{
    let w = v.subrange(
        min_int((start / 10) as int, v.len() as int),
        min_int((end / 10) as int, v.len() as int),
    );
    lemma_first_voiced(w, f);
    lemma_last_voiced(w, l);
}

/// A larger pad never narrows the span a trim keeps.
pub proof fn law_a_larger_pad_never_narrows_a_trim(v: Seq<bool>, start: u64, end: u64, p1: u64, p2: u64)
    requires
        p1 <= p2,
    ensures
        envelope_trim(v, start, end, p2).0 <= envelope_trim(v, start, end, p1).0,
        envelope_trim(v, start, end, p1).1 <= envelope_trim(v, start, end, p2).1,
{
    if end > start {
        let first = min_int((start / 10) as int, v.len() as int);
        let last = min_int((end / 10) as int, v.len() as int);
        let w = v.subrange(first, last);
        if exists|k: int| 0 <= k < w.len() && w[k] {
            let k = choose|k: int| 0 <= k < w.len() && w[k];
            lemma_voiced_span(w, k);
            let fv = first_voiced(w);
            assert(start < 10 * (start / 10 + 1)) by (nonlinear_arith);
            assert(10 * last <= end) by (nonlinear_arith)
                requires
                    last <= end / 10,
            ;
            assert(start + fv * 10 < 10 * (first + fv + 1)) by (nonlinear_arith)
                requires
                    start < 10 * (first + 1),
            ;
            assert(10 * (first + fv + 1) <= 10 * last) by (nonlinear_arith)
                requires
                    first + fv + 1 <= last,
            ;
            let ss = start + first_voiced(w) * 10;
            let se = start + (last_voiced(w) + 1) * 10;
            assert(sat_sub(ss, p2 as int) <= sat_sub(ss, p1 as int));
            assert(sat_add(se, p1 as int) <= sat_add(se, p2 as int));
        } else {
            reveal(first_voiced);
        }
    }
}

/// `k` silent frames, then `m` voiced ones, then `n` silent ones.
pub open spec fn framed(k: nat, m: nat, n: nat) -> Seq<bool> {
    Seq::new(k, |i: int| false) + Seq::new(m, |i: int| true) + Seq::new(n, |i: int| false)
}

/// Each frame stands for 10 ms, in order: trimming the whole recording with no pad finds
/// the voiced run exactly where its frames lie.
pub proof fn law_each_frame_is_ten_ms_in_order(k: nat, m: nat, n: nat)
    requires
        m > 0,
        k + m + n <= MAX_FRAMES,
    ensures
        envelope_trim(framed(k, m, n), 0, (10 * (k + m + n)) as u64, 0) == ((10 * k) as u64, (10 * (k
            + m)) as u64),
{
    let v = framed(k, m, n);
    let len = k + m + n;
    assert(v.len() == len);
    let end = (10 * len) as u64;
    assert(end / 10 == len);
    let w = v.subrange(0, len as int);
    assert(w =~= v);
    assert(w[k as int]);
    lemma_first_voiced(w, k as int);
    assert(w[(k + m - 1) as int]);
    assert forall|j: int| k + m - 1 < j < w.len() implies !w[j] by {
        assert(w[j] == v[j]);
    }
    lemma_last_voiced(w, (k + m - 1) as int);
}

/// One flag per 10 ms of audio: was anyone speaking.
#[derive(Debug)]
pub struct SpeechEnvelope {
    voiced: Vec<bool>,
}

impl Clone for SpeechEnvelope {
    fn clone(&self) -> (copy: Self)
        ensures
            copy.frames() == self.frames(),
    {
        proof {
            use_type_invariant(self);
        }
        let voiced = self.voiced.clone();
        assert(voiced@ =~= self.voiced@);
        SpeechEnvelope { voiced }
    }
}

impl SpeechEnvelope {
    #[verifier::type_invariant]
    spec fn bounded(self) -> bool {
        self.voiced@.len() <= MAX_FRAMES
    }

    /// The frames, first to last.
    pub closed spec fn frames(&self) -> Seq<bool> {
        self.voiced@
    }

    /// An envelope from its frames.
    pub fn from_frames(voiced: Vec<bool>) -> (e: SpeechEnvelope)
        requires
            voiced@.len() <= MAX_FRAMES,
        ensures
            e.frames() == voiced@,
    {
        SpeechEnvelope { voiced }
    }

    pub fn len(&self) -> (n: usize)
        ensures
            n == self.frames().len(),
            n <= MAX_FRAMES,
    {
        proof {
            use_type_invariant(self);
        }
        self.voiced.len()
    }

    /// The cue `[start_ms, end_ms)` pulled in to the speech inside it, `pad_ms` to each side.
    pub fn trim(&self, start_ms: u64, end_ms: u64, pad_ms: u64) -> (r: (u64, u64))
        ensures
            r == envelope_trim(self.frames(), start_ms, end_ms, pad_ms),
            start_ms < end_ms ==> start_ms <= r.0 && r.0 <= r.1 && r.1 <= end_ms,
    {
        proof {
            use_type_invariant(self);
            if start_ms < end_ms {
                law_a_trim_keeps_its_bounds_in_order(self.voiced@, start_ms, end_ms, pad_ms);
            }
        }
        if end_ms <= start_ms {
            return (start_ms, end_ms);
        }
        let len = self.voiced.len();
        let first: usize = if start_ms / FRAME_MS < len as u64 {
            (start_ms / FRAME_MS) as usize
        } else {
            len
        };
        let last: usize = if end_ms / FRAME_MS < len as u64 {
            (end_ms / FRAME_MS) as usize
        } else {
            len
        };
        let ghost v = self.voiced@;
        let ghost w = v.subrange(first as int, last as int);
        assert(first <= last);
        let mut i = first;
        while i < last && !self.voiced[i]
            invariant
                first <= i <= last <= v.len(),
                v == self.voiced@,
                w == v.subrange(first as int, last as int),
                forall|j: int| 0 <= j < i - first ==> !w[j],
            decreases last - i,
        {
            i = i + 1;
        }
        if i == last {
            proof {
                lemma_none_voiced(w);
            }
            return (start_ms, end_ms);
        }
        assert(first < len);
        let fv = i - first;
        proof {
            lemma_first_voiced(w, fv as int);
        }
        let mut k = last - 1;
        while !self.voiced[k]
            invariant
                first <= i <= k < last <= v.len(),
                self.voiced@[i as int],
                v == self.voiced@,
                w == v.subrange(first as int, last as int),
                forall|j: int| k - first < j < w.len() ==> !w[j],
            decreases k - i,
        {
            k = k - 1;
        }
        let lv = k - first;
        proof {
            lemma_last_voiced(w, lv as int);
            lemma_frame_offsets(start_ms as int, first as int, last as int, len as int, lv as int);
        }
        let speech_start = start_ms + (fv as u64) * FRAME_MS;
        let speech_end = start_ms + ((lv as u64) + 1) * FRAME_MS;
        let lo = speech_start.saturating_sub(pad_ms);
        let hi = speech_end.saturating_add(pad_ms);
        (
            if start_ms >= lo {
                start_ms
            } else {
                lo
            },
            if end_ms <= hi {
                end_ms
            } else {
                hi
            },
        )
    }
}

/// The little-endian `u32` at `at`.
pub open spec fn le_u32(bytes: Seq<u8>, at: int) -> nat {
    (bytes[at] + 256 * bytes[at + 1] + 65536 * bytes[at + 2] + 16777216 * bytes[at + 3]) as nat
}

/// Whether the four bytes at `at` spell `data`.
pub open spec fn is_data_id(bytes: Seq<u8>, at: int) -> bool {
    bytes[at] == 100u8 && bytes[at + 1] == 97u8 && bytes[at + 2] == 116u8 && bytes[at + 3] == 97u8
}

pub open spec fn chunk_walk_measure(len: nat, offset: nat) -> nat {
    if offset <= len {
        (len + 1 - offset) as nat
    } else {
        0
    }
}

/// Walking a RIFF file's chunk list from `offset`: the byte range of the first `data`
/// chunk's body, cut at the end of the file; `None` when the list ends first. A chunk of odd
/// size is followed by a pad byte.
pub open spec fn data_chunk_from(bytes: Seq<u8>, offset: nat) -> Option<(nat, nat)>
    decreases chunk_walk_measure(bytes.len(), offset),
{
    if offset + 8 > bytes.len() {
        None
    } else {
        let size = le_u32(bytes, offset + 4int);
        let body = offset + 8;
        if is_data_id(bytes, offset as int) {
            Some((body, if body + size <= bytes.len() { body + size } else { bytes.len() }))
        } else {
            data_chunk_from(bytes, body + size + size % 2)
        }
    }
}

/// The byte range of a WAV file's `data` chunk body, found by walking the chunk list after
/// the 12-byte RIFF header rather than assuming where it sits.
pub open spec fn wav_data_range(bytes: Seq<u8>) -> Option<(nat, nat)> {
    data_chunk_from(bytes, 12)
}

pub fn find_wav_data(bytes: &[u8]) -> (r: Option<(usize, usize)>)
    ensures
        match r {
            Some((a, b)) => wav_data_range(bytes@) == Some((a as nat, b as nat)) && a <= b
                <= bytes@.len(),
            None => wav_data_range(bytes@) is None,
        },
{
    let len: usize = bytes.len();
    let mut offset: usize = 12;
    while offset <= len && len - offset >= 8
        invariant
            len == bytes@.len(),
            data_chunk_from(bytes@, 12) == data_chunk_from(bytes@, offset as nat),
        decreases chunk_walk_measure(len as nat, offset as nat),
    {
        let o = offset;
        let size: u64 = bytes[o + 4] as u64 + 256 * (bytes[o + 5] as u64) + 65536 * (bytes[o + 6] as u64)
            + 16777216 * (bytes[o + 7] as u64);
        assert(size == le_u32(bytes@, offset + 4int));
        let body = offset + 8;
        if bytes[o] == 100u8 && bytes[o + 1] == 97u8 && bytes[o + 2] == 116u8 && bytes[o + 3] == 97u8 {
            let end: usize = if size <= (len - body) as u64 {
                body + size as usize
            } else {
                len
            };
            return Some((body, end));
        }
        let ghost step = body + size + size % 2;
        assert(data_chunk_from(bytes@, offset as nat) == data_chunk_from(bytes@, step as nat));
        let next: u64 = match (body as u64).checked_add(size + size % 2) {
            Some(next) => next,
            None => {
                assert(data_chunk_from(bytes@, step as nat) is None);
                return None;
            },
        };
        if next > len as u64 {
            assert(data_chunk_from(bytes@, step as nat) is None);
            return None;
        }
        offset = next as usize;
    }
    None
}

} // verus!
