//! Whether the watch surface is playing right now: one packed word holds the moment it was
//! last heard from and, in its top bit, whether it said it was playing.
use vstd::prelude::*;

verus! {

/// The bit that says the player was playing.
pub const PLAYING: u64 = 0x8000_0000_0000_0000;

/// The longest a mark stays live: the most one gap between samples may be worth.
pub const MAX_CHUNK_MS: u64 = 120_000;

/// The stamp and the playing bit packed into one word.
pub open spec fn packed_mark(stamp_ms: u64, playing: bool) -> u64 {
    if playing {
        ((stamp_ms % 0x8000_0000_0000_0000) + 0x8000_0000_0000_0000) as u64
    } else {
        (stamp_ms % 0x8000_0000_0000_0000) as u64
    }
}

/// Packs a mark; the stamp keeps its low 63 bits.
pub fn pack_mark(stamp_ms: u64, playing: bool) -> (packed: u64)
    ensures
        packed == packed_mark(stamp_ms, playing),
{
    let low = stamp_ms & !PLAYING;
    assert(low == stamp_ms % 0x8000_0000_0000_0000) by (bit_vector)
        requires
            low == stamp_ms & !0x8000_0000_0000_0000u64,
    ;
    if playing {
        assert(low | 0x8000_0000_0000_0000u64 == low + 0x8000_0000_0000_0000u64) by (bit_vector)
            requires
                low == stamp_ms & !0x8000_0000_0000_0000u64,
        ;
        low | PLAYING
    } else {
        low
    }
}

/// Live: marked playing, and marked no longer ago than the cap.
pub open spec fn live(packed: u64, now_ms: u64) -> bool {
    packed >= PLAYING && {
        let stamp = packed - PLAYING;
        now_ms <= stamp || now_ms - stamp <= MAX_CHUNK_MS
    }
}

pub fn is_live(packed: u64, now_ms: u64) -> (b: bool)
    ensures
        b == live(packed, now_ms),
{
    let playing_bit = packed & PLAYING;
    let stamp = packed & !PLAYING;
    assert(playing_bit == 0 <==> packed < 0x8000_0000_0000_0000u64) by (bit_vector)
        requires
            playing_bit == packed & 0x8000_0000_0000_0000u64,
    ;
    assert(packed >= 0x8000_0000_0000_0000u64 ==> stamp == packed - 0x8000_0000_0000_0000u64) by (bit_vector)
        requires
            stamp == packed & !0x8000_0000_0000_0000u64,
    ;
    if playing_bit == 0 {
        return false;
    }
    now_ms.saturating_sub(stamp) <= MAX_CHUNK_MS
}

/// A mark reads back as it was written: a stopped player is never live, and a playing one
/// stamped at `stamp_ms` is live until the cap has passed since then.
pub proof fn law_a_mark_reads_back(stamp_ms: u64, now_ms: u64)
    ensures
        !live(packed_mark(stamp_ms, false), now_ms),
        stamp_ms < PLAYING ==> (live(packed_mark(stamp_ms, true), now_ms) <==> (now_ms <= stamp_ms
            || now_ms - stamp_ms <= MAX_CHUNK_MS)),
{
    assert(stamp_ms % 0x8000_0000_0000_0000 < 0x8000_0000_0000_0000);
    if stamp_ms < PLAYING {
        assert(stamp_ms % 0x8000_0000_0000_0000 == stamp_ms);
    }
}

/// How long unflushed listening may build up while playing before it is written.
pub const FLUSH_AT_MS: u64 = 30_000;

/// Whether listening time waiting to be written is written now: only when there is some,
/// and at once when playback stopped, else once it reaches the mark.
pub fn should_flush(unflushed_ms: u64, playing: bool, pending_empty: bool) -> (b: bool)
    ensures
        b == (!pending_empty && (unflushed_ms >= FLUSH_AT_MS || !playing)),
{
    !pending_empty && (unflushed_ms >= FLUSH_AT_MS || !playing)
}

} // verus!
