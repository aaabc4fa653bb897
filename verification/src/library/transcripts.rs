//! The transcripts a recording carries, one per language, and the record of why a
//! transcript came without its per-sentence timings.
use vstd::prelude::*;

use crate::text::{chars_of, seq_eq};

verus! {

/// One language's transcript of a recording.
#[derive(Debug, PartialEq, Eq)]
pub struct RecordingTranscript {
    pub language: String,
    pub file_path: String,
    pub detected_language: Option<String>,
    pub segments_path: Option<String>,
}

impl Clone for RecordingTranscript {
    fn clone(&self) -> (c: Self)
        ensures
            c == *self,
    {
        RecordingTranscript {
            language: self.language.clone(),
            file_path: self.file_path.clone(),
            detected_language: match &self.detected_language {
                Some(d) => Some(d.clone()),
                None => None,
            },
            segments_path: match &self.segments_path {
                Some(p) => Some(p.clone()),
                None => None,
            },
        }
    }
}

/// Whether the first transcript for `language` carries per-sentence timings.
pub open spec fn has_segments(ts: Seq<RecordingTranscript>, language: Seq<char>) -> bool
    decreases ts.len(),
{
    if ts.len() == 0 {
        false
    } else if ts[0].language@ == language {
        ts[0].segments_path is Some
    } else {
        has_segments(ts.drop_first(), language)
    }
}

pub fn transcript_has_segments(transcripts: &[RecordingTranscript], language: &str) -> (b: bool)
    ensures
        b == has_segments(transcripts@, language@),
{
    let lang = chars_of(language);
    let mut i: usize = 0;
    assert(transcripts@.skip(0) =~= transcripts@);
    while i < transcripts.len()
        invariant
            i <= transcripts@.len(),
            lang@ == language@,
            has_segments(transcripts@, language@) == has_segments(transcripts@.skip(i as int), language@),
        decreases transcripts.len() - i,
    {
        assert(transcripts@.skip(i as int)[0] == transcripts@[i as int]);
        if seq_eq(chars_of(transcripts[i].language.as_str()).as_slice(), lang.as_slice()) {
            return transcripts[i].segments_path.is_some();
        }
        assert(transcripts@.skip(i as int).drop_first() =~= transcripts@.skip(i + 1));
        i = i + 1;
    }
    false
}

/// The transcripts after a new one for its language: any earlier one for that language
/// gone, the new one last.
pub open spec fn with_transcript(ts: Seq<RecordingTranscript>, t: RecordingTranscript) -> Seq<RecordingTranscript> {
    without_language(ts, t.language@).push(t)
}

/// The transcripts for any language but `language`, in order.
pub open spec fn without_language(ts: Seq<RecordingTranscript>, language: Seq<char>) -> Seq<RecordingTranscript>
    decreases ts.len(),
{
    if ts.len() == 0 {
        Seq::empty()
    } else {
        let rest = without_language(ts.drop_last(), language);
        if ts.last().language@ != language {
            rest.push(ts.last())
        } else {
            rest
        }
    }
}

pub fn replace_transcript(transcripts: &mut Vec<RecordingTranscript>, transcript: RecordingTranscript)
    ensures
        final(transcripts)@ == with_transcript(old(transcripts)@, transcript),
{
    let ghost start = transcripts@;
    let ghost lang = transcript.language@;
    let mut kept: Vec<RecordingTranscript> = Vec::new();
    let mut i: usize = 0;
    while i < transcripts.len()
        invariant
            i <= transcripts@.len(),
            transcripts@ == start,
            lang == transcript.language@,
            kept@ == without_language(start.take(i as int), lang),
        decreases transcripts.len() - i,
    {
        assert(start.take(i + 1).drop_last() =~= start.take(i as int));
        if !(transcripts[i].language == transcript.language) {
            kept.push(transcripts[i].clone());
        }
        i = i + 1;
    }
    assert(start.take(start.len() as int) =~= start);
    kept.push(transcript);
    *transcripts = kept;
}

/// Why a transcript was saved without its per-sentence timings.
#[derive(Debug, Clone, Copy, PartialEq, Eq, Structural)]
pub enum SegmentsSkip {
    JsonUnreadable,
    JsonNotWhisperShaped,
    JsonHeldNoSegments,
    CleaningRemovedEverything,
}

impl SegmentsSkip {
    /// The reason's stable id, as the log records it.
    pub fn id(self) -> (s: &'static str)
        ensures
            s@ == (match self {
                SegmentsSkip::JsonUnreadable => "json_unreadable"@,
                SegmentsSkip::JsonNotWhisperShaped => "json_not_whisper_shaped"@,
                SegmentsSkip::JsonHeldNoSegments => "json_held_no_segments"@,
                SegmentsSkip::CleaningRemovedEverything => "cleaning_removed_everything"@,
            }),
    {
        match self {
            SegmentsSkip::JsonUnreadable => "json_unreadable",
            SegmentsSkip::JsonNotWhisperShaped => "json_not_whisper_shaped",
            SegmentsSkip::JsonHeldNoSegments => "json_held_no_segments",
            SegmentsSkip::CleaningRemovedEverything => "cleaning_removed_everything",
        }
    }

    /// The reason in words.
    pub fn message(self) -> (s: &'static str)
        ensures
            s@ == (match self {
                SegmentsSkip::JsonUnreadable => "Whisper's timing file was missing or could not be opened."@,
                SegmentsSkip::JsonNotWhisperShaped => "Whisper's timing file was not in the expected format."@,
                SegmentsSkip::JsonHeldNoSegments => "Whisper's timing file listed no segments."@,
                SegmentsSkip::CleaningRemovedEverything => "Every segment was filtered out as a hallucination or past the end of the audio."@,
            }),
    {
        match self {
            SegmentsSkip::JsonUnreadable => "Whisper's timing file was missing or could not be opened.",
            SegmentsSkip::JsonNotWhisperShaped => "Whisper's timing file was not in the expected format.",
            SegmentsSkip::JsonHeldNoSegments => "Whisper's timing file listed no segments.",
            SegmentsSkip::CleaningRemovedEverything => "Every segment was filtered out as a hallucination or past the end of the audio.",
        }
    }
}

/// Whether a finished transcription keeps the audio's name: always once the recording has
/// a transcript, and for anything that is not a fresh microphone capture; only a fresh
/// capture is renamed after what it says.
pub open spec fn keeps_audio_name(transcript_count: nat, has_transcript_path: bool, source: Option<Seq<char>>) -> bool {
    transcript_count > 0 || has_transcript_path || source != Some("recording"@)
}

pub fn preserve_audio_name(transcript_count: usize, has_transcript_path: bool, source: Option<&str>) -> (b: bool)
    ensures
        b == keeps_audio_name(
            transcript_count as nat,
            has_transcript_path,
            match source {
                Some(s) => Some(s@),
                None => None,
            },
        ),
{
    let is_capture = match source {
        Some(s) => seq_eq(chars_of(s).as_slice(), chars_of("recording").as_slice()),
        None => false,
    };
    transcript_count > 0 || has_transcript_path || !is_capture
}

} // verus!
