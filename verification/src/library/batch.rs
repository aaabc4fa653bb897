//! What a batch over the library answers: one item per recording it touched, each with its
//! outcome and sentence, and a status and summary for the whole batch, counted from the
//! items.
use vstd::prelude::*;

use crate::library::import::{plan_for_path, ImportPlan};
use crate::library::naming::sanitized_name;
use crate::media::diagnostics::{indicates_no_audio, stderr_indicates_no_audio};
use crate::paths::{extension, extension_of};
use crate::text::{chars_of, decimal, decimal_exec, lower_seq, lowercase, push_chars, push_str, string_of, trim};

verus! {

/// How one item of a batch ended.
#[derive(Debug, Clone, Copy, PartialEq, Eq, Structural)]
pub enum ItemStatus {
    Success,
    Skipped,
    Failed,
    Cancelled,
}

impl ItemStatus {
    /// The status as the page reads it.
    pub fn as_str(self) -> (s: &'static str)
        ensures
            s@ == (match self {
                ItemStatus::Success => "success"@,
                ItemStatus::Skipped => "skipped"@,
                ItemStatus::Failed => "failed"@,
                ItemStatus::Cancelled => "cancelled"@,
            }),
    {
        match self {
            ItemStatus::Success => "success",
            ItemStatus::Skipped => "skipped",
            ItemStatus::Failed => "failed",
            ItemStatus::Cancelled => "cancelled",
        }
    }
}

/// One recording's outcome in a batch.
#[derive(Debug, PartialEq, Eq)]
pub struct BatchItem {
    pub file_path: String,
    pub status: ItemStatus,
    pub message: String,
    pub note_id: Option<i64>,
}

/// How many items ended with `status`.
pub open spec fn count_status(items: Seq<BatchItem>, status: ItemStatus) -> nat
    decreases items.len(),
{
    if items.len() == 0 {
        0
    } else {
        count_status(items.drop_last(), status) + if items.last().status == status {
            1nat
        } else {
            0nat
        }
    }
}

proof fn lemma_count_bound(items: Seq<BatchItem>, status: ItemStatus)
    ensures
        count_status(items, status) <= items.len(),
    decreases items.len(),
{
    if items.len() > 0 {
        lemma_count_bound(items.drop_last(), status);
    }
}

/// Counts the items that ended with `status`.
pub fn count_items(items: &[BatchItem], status: ItemStatus) -> (n: usize)
    ensures
        n == count_status(items@, status),
{
    let mut n: usize = 0;
    let mut i: usize = 0;
    while i < items.len()
        invariant
            i <= items@.len(),
            n == count_status(items@.take(i as int), status),
        decreases items.len() - i,
    {
        assert(items@.take(i + 1).drop_last() =~= items@.take(i as int));
        proof {
            lemma_count_bound(items@.take(i as int), status);
        }
        if items[i].status == status {
            n = n + 1;
        }
        i = i + 1;
    }
    assert(items@.take(items@.len() as int) =~= items@);
    n
}

/// How a whole batch ended.
#[derive(Debug, Clone, Copy, PartialEq, Eq, Structural)]
pub enum BatchStatus {
    Completed,
    Partial,
    Cancelled,
    Unavailable,
    Failed,
}

impl BatchStatus {
    pub fn as_str(self) -> (s: &'static str)
        ensures
            s@ == (match self {
                BatchStatus::Completed => "completed"@,
                BatchStatus::Partial => "partial"@,
                BatchStatus::Cancelled => "cancelled"@,
                BatchStatus::Unavailable => "unavailable"@,
                BatchStatus::Failed => "failed"@,
            }),
    {
        match self {
            BatchStatus::Completed => "completed",
            BatchStatus::Partial => "partial",
            BatchStatus::Cancelled => "cancelled",
            BatchStatus::Unavailable => "unavailable",
            BatchStatus::Failed => "failed",
        }
    }
}

/// `n` written in decimal.
fn number(n: usize) -> (out: Vec<char>)
    ensures
        out@ == decimal(n as nat),
{
    decimal_exec(n as u64)
}

/// What a transcription batch reports: cancelled when any item was, with how many were
/// created first; otherwise created, skipped and failed, completed only when none failed.
pub open spec fn transcription_summary_spec(items: Seq<BatchItem>) -> (BatchStatus, Seq<char>) {
    let success = count_status(items, ItemStatus::Success);
    let skipped = count_status(items, ItemStatus::Skipped);
    let failed = count_status(items, ItemStatus::Failed);
    let cancelled = count_status(items, ItemStatus::Cancelled);
    if cancelled > 0 {
        (
            BatchStatus::Cancelled,
            "Transcription cancelled: "@ + decimal(success) + " created before stopping."@,
        )
    } else {
        (
            if failed == 0 {
                BatchStatus::Completed
            } else {
                BatchStatus::Partial
            },
            "Transcription finished: "@ + decimal(success) + " created, "@ + decimal(skipped)
                + " skipped, "@ + decimal(failed) + " failed."@,
        )
    }
}

pub fn transcription_summary(items: &[BatchItem]) -> (r: (BatchStatus, String))
    ensures
        (r.0, r.1@) == transcription_summary_spec(items@),
{
    let success = count_items(items, ItemStatus::Success);
    let skipped = count_items(items, ItemStatus::Skipped);
    let failed = count_items(items, ItemStatus::Failed);
    let cancelled = count_items(items, ItemStatus::Cancelled);
    if cancelled > 0 {
        let mut m = chars_of("Transcription cancelled: ");
        push_chars(&mut m, number(success).as_slice());
        push_str(&mut m, " created before stopping.");
        (BatchStatus::Cancelled, string_of(m.as_slice()))
    } else {
        let mut m = chars_of("Transcription finished: ");
        push_chars(&mut m, number(success).as_slice());
        push_str(&mut m, " created, ");
        push_chars(&mut m, number(skipped).as_slice());
        push_str(&mut m, " skipped, ");
        push_chars(&mut m, number(failed).as_slice());
        push_str(&mut m, " failed.");
        (
            if failed == 0 {
                BatchStatus::Completed
            } else {
                BatchStatus::Partial
            },
            string_of(m.as_slice()),
        )
    }
}

/// What a transcription item answers for a run that did not succeed: a cancelled run stops
/// the batch as cancelled, any other error fails this item and the batch goes on.
pub fn transcription_error_item(file_path: String, error: String) -> (r: (BatchItem, bool))
    ensures
        error@ == crate::media::transcribe::TRANSCRIPTION_CANCELLED@ ==> r.0.status == ItemStatus::Cancelled
            && r.0.message@ == "Transcription cancelled."@ && r.1,
        error@ != crate::media::transcribe::TRANSCRIPTION_CANCELLED@ ==> r.0.status == ItemStatus::Failed
            && r.0.message@ == error@ && !r.1,
        r.0.file_path@ == file_path@,
        r.0.note_id is None,
{
    if crate::text::seq_eq(chars_of(error.as_str()).as_slice(), chars_of(crate::media::transcribe::TRANSCRIPTION_CANCELLED).as_slice()) {
        (
            BatchItem {
                file_path,
                status: ItemStatus::Cancelled,
                message: "Transcription cancelled.".to_string(),
                note_id: None,
            },
            true,
        )
    } else {
        (BatchItem { file_path, status: ItemStatus::Failed, message: error, note_id: None }, false)
    }
}

/// The item for a recording already transcribed in the batch's language.
pub fn already_transcribed_item(file_path: String, language: &str, note_id: Option<i64>) -> (item: BatchItem)
    ensures
        item.status == ItemStatus::Skipped,
        item.message@ == "Already transcribed for "@ + language@ + "."@,
        item.file_path@ == file_path@,
        item.note_id == note_id,
{
    proof {
        reveal_strlit(".");
    }
    let mut m = chars_of("Already transcribed for ");
    push_str(&mut m, language);
    m.push('.');
    BatchItem { file_path, status: ItemStatus::Skipped, message: string_of(m.as_slice()), note_id }
}

/// The line the shell shows while the `index`-th (from 0) of `total` recordings is
/// transcribed.
pub fn transcribing_status_text(index: usize, total: usize, file_name: &str) -> (s: String)
    requires
        index < usize::MAX,
    ensures
        s@ == "Transcribing "@ + decimal((index + 1) as nat) + " of "@ + decimal(total as nat) + ": "@
            + file_name@,
{
    let mut m = chars_of("Transcribing ");
    push_chars(&mut m, number(index + 1).as_slice());
    push_str(&mut m, " of ");
    push_chars(&mut m, number(total).as_slice());
    push_str(&mut m, ": ");
    push_str(&mut m, file_name);
    string_of(m.as_slice())
}

/// What a transcription batch does with its next recording.
pub enum TranscriptionStep {
    /// The batch was cancelled: this item ends it.
    Stop(BatchItem),
    /// The recording is already transcribed in the batch's language: this item, and on.
    Skip(BatchItem),
    /// Transcribe the recording, with this line in the shell meanwhile.
    Run(String),
}

/// The next step of a transcription batch over the `index`-th (from 0) of `total`
/// recordings: a cancelled batch stops with a cancelled item for it; a recording that
/// already has a transcript in the batch's language is skipped unless the batch forces a
/// new one; any other is transcribed.
pub fn next_transcription_step(
    cancelled: bool,
    force: bool,
    has_transcript: bool,
    index: usize,
    total: usize,
    file_path: String,
    file_name: &str,
    language: &str,
    note_id: Option<i64>,
) -> (step: TranscriptionStep)
    requires
        index < usize::MAX,
    ensures
        cancelled ==> step is Stop && step->Stop_0.status == ItemStatus::Cancelled
            && step->Stop_0.message@ == "Transcription cancelled."@ && step->Stop_0.file_path@ == file_path@
            && step->Stop_0.note_id == note_id,
        !cancelled && !force && has_transcript ==> step is Skip && step->Skip_0.status == ItemStatus::Skipped
            && step->Skip_0.message@ == "Already transcribed for "@ + language@ + "."@
            && step->Skip_0.file_path@ == file_path@ && step->Skip_0.note_id == note_id,
        !cancelled && (force || !has_transcript) ==> step is Run && step->Run_0@ == "Transcribing "@ + decimal(
            (index + 1) as nat,
        ) + " of "@ + decimal(total as nat) + ": "@ + file_name@,
{
    if cancelled {
        TranscriptionStep::Stop(
            BatchItem {
                file_path,
                status: ItemStatus::Cancelled,
                message: "Transcription cancelled.".to_string(),
                note_id,
            },
        )
    } else if !force && has_transcript {
        TranscriptionStep::Skip(already_transcribed_item(file_path, language, note_id))
    } else {
        TranscriptionStep::Run(transcribing_status_text(index, total, file_name))
    }
}

/// The item for a recording transcribed and saved, with the note a translation that
/// followed it left, if any.
pub fn transcription_success_item(file_path: String, note_id: Option<i64>, translation_note: Option<&str>) -> (item: BatchItem)
    ensures
        item.status == ItemStatus::Success,
        item.file_path@ == file_path@,
        item.note_id == note_id,
        item.message@ == match translation_note {
            Some(note) => "Transcript created. WAV audio was kept for transcription accuracy. "@ + note@,
            None => "Transcript created. WAV audio was kept for transcription accuracy."@,
        },
{
    let mut m = chars_of("Transcript created. WAV audio was kept for transcription accuracy.");
    match translation_note {
        Some(note) => {
            m.push(' ');
            push_str(&mut m, note);
            proof {
                reveal_strlit("Transcript created. WAV audio was kept for transcription accuracy.");
                reveal_strlit("Transcript created. WAV audio was kept for transcription accuracy. ");
                assert(m@ =~= "Transcript created. WAV audio was kept for transcription accuracy. "@ + note@);
            }
        },
        None => {},
    }
    BatchItem { file_path, status: ItemStatus::Success, message: string_of(m.as_slice()), note_id }
}

/// What an import of files reports: nothing selected, or how many imported and failed;
/// completed when none failed.
pub open spec fn import_summary_spec(items: Seq<BatchItem>) -> (BatchStatus, Seq<char>) {
    let success = count_status(items, ItemStatus::Success);
    let failed = count_status(items, ItemStatus::Failed);
    (
        if failed == 0 {
            BatchStatus::Completed
        } else {
            BatchStatus::Partial
        },
        if items.len() == 0 {
            "No files were selected to import."@
        } else {
            "Import finished: "@ + decimal(success) + " imported, "@ + decimal(failed) + " failed."@
        },
    )
}

pub fn import_summary(items: &[BatchItem]) -> (r: (BatchStatus, String))
    ensures
        (r.0, r.1@) == import_summary_spec(items@),
{
    let success = count_items(items, ItemStatus::Success);
    let failed = count_items(items, ItemStatus::Failed);
    let status = if failed == 0 {
        BatchStatus::Completed
    } else {
        BatchStatus::Partial
    };
    if items.len() == 0 {
        return (status, "No files were selected to import.".to_string());
    }
    let mut m = chars_of("Import finished: ");
    push_chars(&mut m, number(success).as_slice());
    push_str(&mut m, " imported, ");
    push_chars(&mut m, number(failed).as_slice());
    push_str(&mut m, " failed.");
    (status, string_of(m.as_slice()))
}

/// What a link import that produced files reports: one recording reads as its own item's
/// sentence, several as how many, and any failure as imported and failed counts; `None`
/// when nothing was imported, which the caller answers with the first failure instead.
pub open spec fn link_summary_spec(items: Seq<BatchItem>) -> Option<(BatchStatus, Seq<char>)> {
    let success = count_status(items, ItemStatus::Success);
    let failed = items.len() - success;
    if success == 0 {
        None
    } else if failed == 0 {
        Some(
            (
                BatchStatus::Completed,
                if success == 1 {
                    items[first_success(items)].message@
                } else {
                    "Imported "@ + decimal(success) + " recordings from this link."@
                },
            ),
        )
    } else {
        Some(
            (
                BatchStatus::Partial,
                "Import finished: "@ + decimal(success) + " imported, "@ + decimal(failed as nat)
                    + " failed."@,
            ),
        )
    }
}

/// Where the first successful item is, or the length when there is none.
pub open spec fn first_success(items: Seq<BatchItem>) -> int
    decreases items.len(),
{
    if items.len() == 0 {
        0
    } else if items[0].status == ItemStatus::Success {
        0
    } else {
        1 + first_success(items.drop_first())
    }
}

proof fn lemma_first_success(items: Seq<BatchItem>)
    ensures
        count_status(items, ItemStatus::Success) > 0 ==> 0 <= first_success(items) < items.len()
            && items[first_success(items)].status == ItemStatus::Success,
        forall|k: int| 0 <= k < first_success(items) && k < items.len() ==> items[k].status != ItemStatus::Success,
    decreases items.len(),
{
    if items.len() > 0 {
        lemma_first_success(items.drop_first());
        lemma_count_split(items);
        assert forall|k: int| 0 <= k < first_success(items) && k < items.len() implies items[k].status
            != ItemStatus::Success by {
            if k > 0 {
                assert(items[k] == items.drop_first()[k - 1]);
            }
        }
    }
}

/// Counting from the front agrees with counting from the back.
proof fn lemma_count_split(items: Seq<BatchItem>)
    requires
        items.len() > 0,
    ensures
        count_status(items, ItemStatus::Success) == count_status(items.drop_first(), ItemStatus::Success)
            + if items[0].status == ItemStatus::Success {
            1nat
        } else {
            0nat
        },
    decreases items.len(),
{
    if items.len() > 1 {
        lemma_count_split(items.drop_last());
        assert(items.drop_last().drop_first() =~= items.drop_first().drop_last());
    } else {
        assert(items.drop_first() =~= Seq::<BatchItem>::empty());
        assert(items.drop_last() =~= Seq::<BatchItem>::empty());
    }
}

pub fn link_summary(items: &[BatchItem]) -> (r: Option<(BatchStatus, String)>)
    ensures
        match r {
            Some((s, m)) => link_summary_spec(items@) == Some((s, m@)),
            None => link_summary_spec(items@) is None,
        },
{
    let success = count_items(items, ItemStatus::Success);
    proof {
        lemma_count_bound(items@, ItemStatus::Success);
        lemma_first_success(items@);
    }
    let failed = items.len() - success;
    if success == 0 {
        return None;
    }
    if failed == 0 {
        if success == 1 {
            let mut i: usize = 0;
            while i < items.len() && items[i].status != ItemStatus::Success
                invariant
                    i <= items@.len(),
                    0 <= first_success(items@) < items@.len(),
                    items@[first_success(items@)].status == ItemStatus::Success,
                    forall|k: int| 0 <= k < first_success(items@) && k < items@.len() ==> items@[k].status
                        != ItemStatus::Success,
                    i <= first_success(items@),
                decreases items.len() - i,
            {
                i = i + 1;
            }
            let message = string_of(chars_of(items[i].message.as_str()).as_slice());
            return Some((BatchStatus::Completed, message));
        }
        let mut m = chars_of("Imported ");
        push_chars(&mut m, number(success).as_slice());
        push_str(&mut m, " recordings from this link.");
        return Some((BatchStatus::Completed, string_of(m.as_slice())));
    }
    let mut m = chars_of("Import finished: ");
    push_chars(&mut m, number(success).as_slice());
    push_str(&mut m, " imported, ");
    push_chars(&mut m, number(failed).as_slice());
    push_str(&mut m, " failed.");
    Some((BatchStatus::Partial, string_of(m.as_slice())))
}

/// How many times a link import is tried while YouTube asks for a JavaScript runtime.
pub const MAX_JS_RUNTIME_ATTEMPTS: usize = 3;

/// Whether a fetch is tried again: only when it failed for want of a JavaScript runtime,
/// the import was not cancelled, and attempts remain.
pub fn should_retry_fetch(attempt: usize, cancelled: bool, failed_for_js_runtime: bool) -> (b: bool)
    ensures
        b == (attempt < MAX_JS_RUNTIME_ATTEMPTS && !cancelled && failed_for_js_runtime),
{
    attempt < MAX_JS_RUNTIME_ATTEMPTS && !cancelled && failed_for_js_runtime
}

/// What an MP3 conversion batch reports, completed only when none failed.
pub open spec fn conversion_summary_spec(items: Seq<BatchItem>) -> (BatchStatus, Seq<char>) {
    let success = count_status(items, ItemStatus::Success);
    let skipped = count_status(items, ItemStatus::Skipped);
    let failed = count_status(items, ItemStatus::Failed);
    (
        if failed == 0 {
            BatchStatus::Completed
        } else {
            BatchStatus::Partial
        },
        "MP3 conversion finished: "@ + decimal(success) + " converted, "@ + decimal(skipped) + " skipped, "@
            + decimal(failed) + " failed."@,
    )
}

pub fn conversion_summary(items: &[BatchItem]) -> (r: (BatchStatus, String))
    ensures
        (r.0, r.1@) == conversion_summary_spec(items@),
{
    let success = count_items(items, ItemStatus::Success);
    let skipped = count_items(items, ItemStatus::Skipped);
    let failed = count_items(items, ItemStatus::Failed);
    let mut m = chars_of("MP3 conversion finished: ");
    push_chars(&mut m, number(success).as_slice());
    push_str(&mut m, " converted, ");
    push_chars(&mut m, number(skipped).as_slice());
    push_str(&mut m, " skipped, ");
    push_chars(&mut m, number(failed).as_slice());
    push_str(&mut m, " failed.");
    (
        if failed == 0 {
            BatchStatus::Completed
        } else {
            BatchStatus::Partial
        },
        string_of(m.as_slice()),
    )
}

/// Why a recording is not converted to MP3, checked in this order: its audio is gone after
/// Anki copied it, it has no transcript yet, its file is missing, or it is not a WAV.
pub open spec fn conversion_skip_spec(audio_deleted: bool, has_transcript: bool, audio_exists: bool, path: Seq<char>) -> Option<Seq<char>> {
    if audio_deleted {
        Some("Local audio was already deleted after Anki copied it."@)
    } else if !has_transcript {
        Some("Transcribe this recording before converting it to MP3."@)
    } else if !audio_exists {
        Some("The audio file for this recording is missing, so there is nothing to convert."@)
    } else if !is_wav_path(path) {
        Some("This recording is already MP3 or is not a WAV file."@)
    } else {
        None
    }
}

/// Whether a path's extension is `wav`, in any ASCII case.
pub open spec fn is_wav_path(path: Seq<char>) -> bool {
    match extension_of(path) {
        Some(e) => lower_seq(e) == lower_seq("wav"@),
        None => false,
    }
}

pub fn conversion_skip(audio_deleted: bool, has_transcript: bool, audio_exists: bool, path: &str) -> (r: Option<String>)
    ensures
        match r {
            Some(m) => conversion_skip_spec(audio_deleted, has_transcript, audio_exists, path@) == Some(m@),
            None => conversion_skip_spec(audio_deleted, has_transcript, audio_exists, path@) is None,
        },
{
    if audio_deleted {
        return Some("Local audio was already deleted after Anki copied it.".to_string());
    }
    if !has_transcript {
        return Some("Transcribe this recording before converting it to MP3.".to_string());
    }
    if !audio_exists {
        return Some("The audio file for this recording is missing, so there is nothing to convert.".to_string());
    }
    let is_wav = match extension(chars_of(path).as_slice()) {
        Some(e) => crate::text::eq_ignore_ascii_case(e.as_slice(), chars_of("wav").as_slice()),
        None => false,
    };
    if !is_wav {
        return Some("This recording is already MP3 or is not a WAV file.".to_string());
    }
    None
}

/// Why ffmpeg's MP3 conversion failed: its stderr and stdout (each trimmed), the non-empty
/// ones joined by a newline, or a sentence of its own when both are empty.
pub open spec fn compression_failure_spec(stderr: Seq<char>, stdout: Seq<char>) -> Seq<char> {
    let e = trim(stderr);
    let o = trim(stdout);
    if e.len() > 0 && o.len() > 0 {
        e + seq!['\n'] + o
    } else if e.len() > 0 {
        e
    } else if o.len() > 0 {
        o
    } else {
        "FFmpeg did not produce a valid MP3 file."@
    }
}

pub fn compression_failure_reason(stderr: &str, stdout: &str) -> (m: String)
    ensures
        m@ == compression_failure_spec(stderr@, stdout@),
{
    let e = crate::text::trimmed(chars_of(stderr).as_slice());
    let o = crate::text::trimmed(chars_of(stdout).as_slice());
    if e.len() > 0 && o.len() > 0 {
        let mut m = e;
        m.push('\n');
        push_chars(&mut m, o.as_slice());
        string_of(m.as_slice())
    } else if e.len() > 0 {
        string_of(e.as_slice())
    } else if o.len() > 0 {
        string_of(o.as_slice())
    } else {
        "FFmpeg did not produce a valid MP3 file.".to_string()
    }
}

/// What an import's conversion answers when ffmpeg did not produce a playable MP3: the
/// no-audio sentence, a sentence of its own for silence, or ffmpeg's (trimmed) words.
pub open spec fn transcode_failure_spec(stderr: Seq<char>) -> Seq<char> {
    let e = trim(stderr);
    if indicates_no_audio(e) {
        crate::library::fetch::NO_AUDIO_REJECTED_MESSAGE@
    } else if e.len() == 0 {
        "FFmpeg did not produce a playable MP3 for this file."@
    } else {
        "FFmpeg could not convert this file: "@ + e
    }
}

pub fn transcode_failure_message(stderr: &str) -> (m: String)
    ensures
        m@ == transcode_failure_spec(stderr@),
{
    let e = crate::text::trimmed(chars_of(stderr).as_slice());
    let es = string_of(e.as_slice());
    if stderr_indicates_no_audio(es.as_str()) {
        crate::library::fetch::NO_AUDIO_REJECTED_MESSAGE.to_string()
    } else if e.len() == 0 {
        "FFmpeg did not produce a playable MP3 for this file.".to_string()
    } else {
        let mut m = chars_of("FFmpeg could not convert this file: ");
        push_chars(&mut m, e.as_slice());
        string_of(m.as_slice())
    }
}

/// Where an imported file lands: its stem made safe for a file name (`imported` when that
/// leaves nothing), and `.mp3` when it is converted, else its own extension in lowercase
/// (`wav` when it has none).
pub open spec fn import_target_spec(path: Seq<char>, plan: ImportPlan) -> (Seq<char>, Seq<char>) {
    let s = sanitized_name(crate::paths::stem_of(path));
    let stem = if s.len() == 0 {
        "imported"@
    } else {
        s
    };
    let suffix = if plan == ImportPlan::ConvertToMp3 {
        ".mp3"@
    } else {
        seq!['.'] + lower_seq(
            match extension_of(path) {
                Some(e) => e,
                None => "wav"@,
            },
        )
    };
    (stem, suffix)
}

pub fn import_target(path: &str, plan: ImportPlan) -> (r: (String, String))
    ensures
        (r.0@, r.1@) == import_target_spec(path@, plan),
{
    let p = chars_of(path);
    let raw_stem = crate::paths::stem(p.as_slice());
    let s = crate::library::naming::sanitize_recording_name(string_of(raw_stem.as_slice()).as_str());
    let stem = if chars_of(s.as_str()).len() == 0 {
        "imported".to_string()
    } else {
        s
    };
    let suffix = match plan {
        ImportPlan::ConvertToMp3 => ".mp3".to_string(),
        _ => {
            let ext = match extension(p.as_slice()) {
                Some(e) => e,
                None => chars_of("wav"),
            };
            let mut out: Vec<char> = Vec::new();
            out.push('.');
            push_chars(&mut out, lowercase(ext.as_slice()).as_slice());
            string_of(out.as_slice())
        },
    };
    (stem, suffix)
}

} // verus!
