//! Whether a binary found on PATH runs, remembered for a trust window so it is not spawned
//! again on every check, and probed again once the window lapses so a new install is seen.
use vstd::prelude::*;

verus! {

/// How long a probe result is trusted, in milliseconds.
pub const PATH_PROBE_TRUST_WINDOW_MS: u64 = 60_000;

/// The last probe: what it found and when.
#[derive(Debug, Clone, Copy, PartialEq, Eq, Structural)]
pub struct CachedProbe {
    pub available: bool,
    pub probed_at_ms: u64,
}

/// Remembers whether one PATH binary runs.
#[derive(Debug)]
pub struct PathProbeCache {
    pub state: Option<CachedProbe>,
    pub trust_window_ms: u64,
}

/// The remembered answer at `now_ms`, while it is inside the trust window.
pub open spec fn fresh(cache: PathProbeCache, now_ms: u64) -> Option<bool> {
    match cache.state {
        Some(entry) => if (if now_ms >= entry.probed_at_ms {
            now_ms - entry.probed_at_ms
        } else {
            0
        }) < cache.trust_window_ms {
            Some(entry.available)
        } else {
            None
        },
        None => None,
    }
}

impl PathProbeCache {
    pub fn new() -> (c: PathProbeCache)
        ensures
            c.state is None,
            c.trust_window_ms == PATH_PROBE_TRUST_WINDOW_MS,
    {
        PathProbeCache::with_trust_window(PATH_PROBE_TRUST_WINDOW_MS)
    }

    pub fn with_trust_window(trust_window_ms: u64) -> (c: PathProbeCache)
        ensures
            c.state is None,
            c.trust_window_ms == trust_window_ms,
    {
        PathProbeCache { state: None, trust_window_ms }
    }

    /// The remembered answer, where it is still inside the trust window at `now_ms`.
    pub fn fresh_result(&self, now_ms: u64) -> (r: Option<bool>)
        ensures
            r == fresh(*self, now_ms),
    {
        match self.state {
            Some(entry) => {
                let elapsed = now_ms.saturating_sub(entry.probed_at_ms);
                if elapsed < self.trust_window_ms {
                    Some(entry.available)
                } else {
                    None
                }
            },
            None => None,
        }
    }

    /// Remembers what a probe at `now_ms` found.
    pub fn store(&mut self, available: bool, now_ms: u64)
        ensures
            final(self).state == Some(CachedProbe { available, probed_at_ms: now_ms }),
            final(self).trust_window_ms == old(self).trust_window_ms,
    {
        self.state = Some(CachedProbe { available, probed_at_ms: now_ms });
    }

    /// Runs `probe` only when there is no answer inside the trust window at `now_ms`, and
    /// remembers what it found.
    pub fn binary_is_available<P: FnOnce() -> bool>(&mut self, now_ms: u64, probe: P) -> (available:
        bool)
        requires
            call_requires(probe, ()),
        ensures
            match fresh(*old(self), now_ms) {
                Some(a) => available == a && *final(self) == *old(self),
                None => call_ensures(probe, (), available) && final(self).state == Some(
                    CachedProbe { available, probed_at_ms: now_ms },
                ) && final(self).trust_window_ms == old(self).trust_window_ms,
            },
    {
        if let Some(available) = self.fresh_result(now_ms) {
            return available;
        }
        let available = probe();
        self.store(available, now_ms);
        available
    }
}

/// A remembered answer is used again inside its window: a probe stored at `at_ms` answers
/// every check from `at_ms` until the window has passed, and none after it.
pub proof fn law_a_probe_is_trusted_for_its_window(
    available: bool,
    at_ms: u64,
    window_ms: u64,
    now_ms: u64,
)
    requires
        at_ms <= now_ms,
    ensures
        fresh(
            PathProbeCache {
                state: Some(CachedProbe { available, probed_at_ms: at_ms }),
                trust_window_ms: window_ms,
            },
            now_ms,
        ) == (if now_ms - at_ms < window_ms {
            Some(available)
        } else {
            None
        }),
{
}

} // verus!
