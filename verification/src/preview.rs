//! Sentence previews: every clip cut for playback gets a name of its own, so the page never
//! plays a cached clip of another sentence.
use vstd::prelude::*;

use crate::text::{chars_of, decimal, decimal_exec, push_chars, push_str, string_of, trim, trimmed};

verus! {

/// The sequence numbers handed to previews.
pub struct PreviewCounter {
    next: u64,
}

impl PreviewCounter {
    pub fn new() -> (c: PreviewCounter)
        ensures
            c.upcoming() == 0,
    {
        PreviewCounter { next: 0 }
    }

    pub closed spec fn upcoming(&self) -> u64 {
        self.next
    }

    /// The next number, as `fetch_add(1)` hands it out: each call one more than the last,
    /// wrapping only after every `u64` has been used.
    pub fn take(&mut self) -> (n: u64)
        ensures
            n == old(self).upcoming(),
            final(self).upcoming() == (if n == u64::MAX {
                0
            } else {
                (n + 1) as u64
            }),
    {
        let n = self.next;
        self.next = if n == u64::MAX {
            0
        } else {
            n + 1
        };
        n
    }
}

/// The file a preview is written to: `segment-<n>.mp3`.
pub fn preview_clip_name(sequence: u64) -> (s: String)
    ensures
        s@ == "segment-"@ + decimal(sequence as nat) + ".mp3"@,
{
    let mut m = chars_of("segment-");
    push_chars(&mut m, decimal_exec(sequence).as_slice());
    push_str(&mut m, ".mp3");
    string_of(m.as_slice())
}

/// What a preview answers when ffmpeg did not write the clip.
pub fn preview_failure_message(stderr: &str) -> (m: String)
    ensures
        trim(stderr@).len() == 0 ==> m@ == "The sentence could not be prepared for playback."@,
        trim(stderr@).len() > 0 ==> m@ == "The sentence could not be prepared for playback: "@ + trim(stderr@),
{
    let e = trimmed(chars_of(stderr).as_slice());
    if e.len() == 0 {
        "The sentence could not be prepared for playback.".to_string()
    } else {
        let mut m = chars_of("The sentence could not be prepared for playback: ");
        push_chars(&mut m, e.as_slice());
        string_of(m.as_slice())
    }
}

} // verus!
