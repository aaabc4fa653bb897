//! Starting and stopping a capture of the computer's audio: the one recorder slot a start
//! must claim, the phases in which a start or stop is allowed, and what a capture reports.
use vstd::prelude::*;

use crate::text::{chars_of, push_str, seq_eq, string_of};

verus! {

/// What a finished capture reports.
#[derive(Debug)]
pub struct RecordingCaptureResult {
    pub output_path: String,
    pub display_name: String,
    pub duration_ms: u64,
    pub bytes_written: u64,
    pub created_at_ms: u64,
}

/// What a capture of the computer's audio answers where no loopback capture exists: only
/// Windows has one.
pub fn capture_system_audio_loopback(
    output_path: String,
    display_name: String,
    log_path: String,
    started_at_ms: u64,
) -> (r: Result<RecordingCaptureResult, String>)
    ensures
        r matches Err(m) && m@ == "System-audio loopback capture is only implemented for Windows right now."@,
{
    Err("System-audio loopback capture is only implemented for Windows right now.".to_string())
}

/// Whether a start is between claiming the recorder and handing it a running capture.
pub struct RecorderSlot {
    claimed: bool,
}

impl RecorderSlot {
    pub fn new() -> (s: RecorderSlot)
        ensures
            !s.is_claimed(),
    {
        RecorderSlot { claimed: false }
    }

    pub closed spec fn is_claimed(&self) -> bool {
        self.claimed
    }
}

/// A start's hold on the recorder slot; releasing it lets the next start in.
pub struct RecorderStartClaim {
    _held: (),
}

/// What a second start is told.
pub const ALREADY_RECORDING: &'static str = "A recording is already in progress.";

impl RecorderStartClaim {
    /// Claims the slot unless another start holds it or a recording is already running
    /// (`recording_is_active`, or the error met while finding that out). A refused claim
    /// leaves the slot as it was.
    pub fn acquire_with(slot: &mut RecorderSlot, recording_is_active: Result<bool, String>) -> (r: Result<RecorderStartClaim, String>)
        ensures
            old(slot).is_claimed() ==> (r matches Err(m) && m@ == ALREADY_RECORDING@),
            !old(slot).is_claimed() ==> match recording_is_active {
                Err(e) => r matches Err(m) && m@ == e@,
                Ok(true) => r matches Err(m) && m@ == ALREADY_RECORDING@,
                Ok(false) => r is Ok,
            },
            r is Ok ==> final(slot).is_claimed(),
            r is Err ==> final(slot).is_claimed() == old(slot).is_claimed(),
    {
        if slot.claimed {
            return Err(ALREADY_RECORDING.to_string());
        }
        match recording_is_active {
            Err(e) => Err(e),
            Ok(true) => Err(ALREADY_RECORDING.to_string()),
            Ok(false) => {
                slot.claimed = true;
                Ok(RecorderStartClaim { _held: () })
            },
        }
    }

    /// Gives the slot back.
    pub fn release(self, slot: &mut RecorderSlot)
        ensures
            !final(slot).is_claimed(),
    {
        slot.claimed = false;
    }
}

/// A start is allowed only while the shell is idle or showing an error.
pub open spec fn start_allowed(phase: Seq<char>) -> bool {
    phase == "idle"@ || phase == "error"@
}

pub fn check_start_phase(phase: &str) -> (r: Result<(), String>)
    ensures
        start_allowed(phase@) ==> r is Ok,
        !start_allowed(phase@) ==> (r matches Err(m) && m@
            == "The app is still busy with the previous recording task."@),
{
    let p = chars_of(phase);
    if seq_eq(p.as_slice(), chars_of("idle").as_slice()) || seq_eq(p.as_slice(), chars_of("error").as_slice()) {
        Ok(())
    } else {
        Err("The app is still busy with the previous recording task.".to_string())
    }
}

/// A stop is refused while the previous recording is still being saved or transcribed.
pub open spec fn stop_allowed(phase: Seq<char>) -> bool {
    phase != "saving"@ && phase != "transcribing"@
}

pub fn check_stop_phase(phase: &str) -> (r: Result<(), String>)
    ensures
        stop_allowed(phase@) ==> r is Ok,
        !stop_allowed(phase@) ==> (r matches Err(m) && m@ == "The previous recording is still being finalized."@),
{
    let p = chars_of(phase);
    if seq_eq(p.as_slice(), chars_of("saving").as_slice()) || seq_eq(p.as_slice(), chars_of("transcribing").as_slice()) {
        Err("The previous recording is still being finalized.".to_string())
    } else {
        Ok(())
    }
}

/// The shell's line while a capture starts (`starting`) and once it runs.
pub fn recording_status_text(starting: bool, output_path: &str) -> (s: String)
    ensures
        starting ==> s@ == "Starting system audio capture to "@ + output_path@,
        !starting ==> s@ == "Recording system audio to "@ + output_path@,
{
    let mut m = if starting {
        chars_of("Starting system audio capture to ")
    } else {
        chars_of("Recording system audio to ")
    };
    push_str(&mut m, output_path);
    string_of(m.as_slice())
}

} // verus!
