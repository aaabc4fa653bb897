//! The alternative engine's arithmetic: where its voice-detector model lives, and sample
//! offsets read as milliseconds.
use vstd::prelude::*;

use crate::paths::join;

verus! {

/// What one run of the alternative engine is given.
#[derive(Debug, Clone)]
pub struct SherpaTranscriptionRequest {
    pub vad_model_path: String,
    pub whisper_server_path: String,
    pub ggml_model_path: String,
    pub audio_path: String,
    pub ffmpeg_path: String,
    pub language: String,
    pub num_threads: i32,
    pub duration_ms: u64,
}

/// The shared voice-detector model: `<assets>/models/sherpa/silero_vad.onnx`.
pub fn sherpa_vad_model_path(asset_directory: &str) -> (p: String)
    ensures
        p@ == join(join(join(asset_directory@, "models"@), "sherpa"@), "silero_vad.onnx"@),
{
    let a = crate::paths::join_str(asset_directory, "models");
    let b = crate::paths::join_str(a.as_str(), "sherpa");
    crate::paths::join_str(b.as_str(), "silero_vad.onnx")
}

/// Milliseconds spanned by `sample_count` samples at `sample_rate` per second, rounded
/// down; a rate below one counts as one.
pub open spec fn samples_ms(sample_count: nat, sample_rate: int) -> nat {
    let rate = if sample_rate < 1 {
        1
    } else {
        sample_rate
    };
    (sample_count * 1000) / (rate as nat)
}

pub fn samples_to_ms(sample_count: usize, sample_rate: i32) -> (ms: u64)
    requires
        sample_count * 1000 <= u64::MAX,
    ensures
        ms == samples_ms(sample_count as nat, sample_rate as int),
{
    let rate: u64 = if sample_rate < 1 {
        1
    } else {
        sample_rate as u64
    };
    (sample_count as u64) * 1000 / rate
}

/// The progress a finished region reports: how far its end reaches into the audio, in
/// percent, never 100 before the run is done.
pub open spec fn region_percent(end_ms: u64, total_ms: u64) -> u8 {
    let reached = if end_ms <= total_ms {
        end_ms
    } else {
        total_ms
    };
    let scaled = if reached * 100 > u64::MAX {
        u64::MAX as int
    } else {
        reached * 100
    };
    let p = scaled / (if total_ms < 1 {
        1
    } else {
        total_ms as int
    });
    if p > 99 {
        99
    } else {
        p as u8
    }
}

pub fn region_progress(end_ms: u64, total_ms: u64) -> (p: u8)
    ensures
        p == region_percent(end_ms, total_ms),
        p <= 99,
{
    let reached = if end_ms <= total_ms {
        end_ms
    } else {
        total_ms
    };
    let scaled = match reached.checked_mul(100) {
        Some(v) => v,
        None => u64::MAX,
    };
    let divisor = if total_ms < 1 {
        1
    } else {
        total_ms
    };
    let q = scaled / divisor;
    if q > 99 {
        99
    } else {
        q as u8
    }
}

} // verus!
