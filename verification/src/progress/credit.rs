//! What a stretch of playback is worth, in wall-clock milliseconds.
//!
//! Media advance is the liveness gate: a position that did not move is not time spent,
//! whatever the clock says. The error runs one way only: under-report, never invent.
use vstd::prelude::*;

use super::ledger::Credit;
use super::liveness::MAX_CHUNK_MS;

verus! {

/// Where one source was when it was last heard from. The playback rate stays with the
/// caller, which turns the advance into play time (`media_elapsed_ms` below).
#[derive(Debug, Clone, Copy, PartialEq, Eq, Structural)]
pub struct PlaybackSample {
    pub playing: bool,
    pub position_ms: u64,
}

/// How far the media moved from `previous` to `next`; never backwards.
pub open spec fn advance(previous: PlaybackSample, next: PlaybackSample) -> u64 {
    if next.position_ms >= previous.position_ms {
        (next.position_ms - previous.position_ms) as u64
    } else {
        0
    }
}

/// What the gap from `previous` to `next` is worth, given the wall time that passed and how
/// long the media that advanced takes to play: `min(wall, media)`, bounded by
/// `MAX_CHUNK_MS` with the rest reported as unmeasured. Nothing is owed where nothing was
/// known to be playing; a stall earns nothing, and one of `MAX_CHUNK_MS` or more is
/// reported whole.
pub open spec fn credit_for(
    previous: Option<PlaybackSample>,
    next: PlaybackSample,
    wall_ms: u64,
    media_elapsed_ms: u64,
) -> Credit {
    match previous {
        None => Credit { credited_ms: 0, unmeasured_ms: 0 },
        Some(p) => if !p.playing {
            Credit { credited_ms: 0, unmeasured_ms: 0 }
        } else if advance(p, next) == 0 {
            Credit { credited_ms: 0, unmeasured_ms: if wall_ms >= MAX_CHUNK_MS { wall_ms } else { 0 } }
        } else {
            let credited = if wall_ms <= media_elapsed_ms { wall_ms } else { media_elapsed_ms };
            if credited > MAX_CHUNK_MS {
                Credit { credited_ms: MAX_CHUNK_MS, unmeasured_ms: (credited - MAX_CHUNK_MS) as u64 }
            } else {
                Credit { credited_ms: credited, unmeasured_ms: 0 }
            }
        },
    }
}

/// How far the media moved between two samples.
pub fn advance_ms(previous: &PlaybackSample, next: &PlaybackSample) -> (ms: u64)
    ensures
        ms == advance(*previous, *next),
{
    next.position_ms.saturating_sub(previous.position_ms)
}

/// What the gap between `previous` and `next` is worth. `wall_ms` is the wall time between
/// them; `media_elapsed_ms` is how long the advance takes to play at the rate it played at.
pub fn credit_ms(
    previous: Option<&PlaybackSample>,
    next: &PlaybackSample,
    wall_ms: u64,
    media_elapsed_ms: u64,
) -> (c: Credit)
    ensures
        c == credit_for(
            match previous {
                Some(p) => Some(*p),
                None => None,
            },
            *next,
            wall_ms,
            media_elapsed_ms,
        ),
        c.credited_ms <= wall_ms,
        c.credited_ms <= media_elapsed_ms,
        c.credited_ms <= MAX_CHUNK_MS,
{
    let previous = match previous {
        Some(p) => p,
        None => return Credit { credited_ms: 0, unmeasured_ms: 0 },
    };
    if !previous.playing {
        return Credit { credited_ms: 0, unmeasured_ms: 0 };
    }
    let advance = advance_ms(previous, next);
    if advance == 0 {
        return Credit {
            credited_ms: 0,
            unmeasured_ms: if wall_ms >= MAX_CHUNK_MS {
                wall_ms
            } else {
                0
            },
        };
    }
    let credited = if wall_ms <= media_elapsed_ms {
        wall_ms
    } else {
        media_elapsed_ms
    };
    if credited > MAX_CHUNK_MS {
        return Credit { credited_ms: MAX_CHUNK_MS, unmeasured_ms: credited - MAX_CHUNK_MS };
    }
    Credit { credited_ms: credited, unmeasured_ms: 0 }
}

/// What a gap is worth and what it reports unmeasured never add up to more than the wall
/// time that passed, and a gap that played loses nothing: credited and unmeasured together
/// are exactly the smaller of wall and media time.
pub proof fn law_credit_accounts_for_the_gap(
    previous: PlaybackSample,
    next: PlaybackSample,
    wall_ms: u64,
    media_elapsed_ms: u64,
)
    ensures
        ({
            let c = credit_for(Some(previous), next, wall_ms, media_elapsed_ms);
            &&& c.credited_ms + c.unmeasured_ms <= wall_ms
            &&& (previous.playing && advance(previous, next) > 0) ==> c.credited_ms
                + c.unmeasured_ms == (if wall_ms <= media_elapsed_ms {
                wall_ms
            } else {
                media_elapsed_ms
            })
        }),
{
}

} // verus!
