//! What transcription cannot run without, whether each piece is there, and the downloads
//! that would put the missing pieces in place, in the order they run.
use vstd::prelude::*;

use crate::text::{chars_of, seq_eq};

verus! {

/// The whisper runtime this release is built and tested against.
pub const RECOMMENDED_WHISPER_RUNTIME_VERSION: &'static str = "v1.8.4";

/// One download the asset queue can run.
#[derive(Debug, PartialEq, Eq)]
pub enum QueuedDownload {
    WhisperRuntime { version: String },
    WhisperModel,
    WhisperVadModel,
    Ffmpeg { reinstall: bool },
}

impl Clone for QueuedDownload {
    fn clone(&self) -> (c: Self)
        ensures
            c == *self,
    {
        match self {
            QueuedDownload::WhisperRuntime { version } => QueuedDownload::WhisperRuntime { version: version.clone() },
            QueuedDownload::WhisperModel => QueuedDownload::WhisperModel,
            QueuedDownload::WhisperVadModel => QueuedDownload::WhisperVadModel,
            QueuedDownload::Ffmpeg { reinstall } => QueuedDownload::Ffmpeg { reinstall: *reinstall },
        }
    }
}

/// A download as the contracts speak of it.
pub enum DownloadView {
    WhisperRuntime(Seq<char>),
    WhisperModel,
    WhisperVadModel,
    Ffmpeg(bool),
}

pub open spec fn download_view(d: QueuedDownload) -> DownloadView {
    match d {
        QueuedDownload::WhisperRuntime { version } => DownloadView::WhisperRuntime(version@),
        QueuedDownload::WhisperModel => DownloadView::WhisperModel,
        QueuedDownload::WhisperVadModel => DownloadView::WhisperVadModel,
        QueuedDownload::Ffmpeg { reinstall } => DownloadView::Ffmpeg(reinstall),
    }
}

pub open spec fn downloads_view(d: Seq<QueuedDownload>) -> Seq<DownloadView> {
    d.map_values(|x: QueuedDownload| download_view(x))
}

/// What whisper detection found.
#[derive(Debug, Clone, Default)]
pub struct WhisperDetection {
    pub status: String,
    pub message: String,
    pub cli_ready: bool,
    pub model_ready: bool,
}

/// What ffmpeg detection found.
#[derive(Debug, Clone, Default)]
pub struct FfmpegDetection {
    pub executable_path: Option<String>,
}

/// The settings the requirements read: the audio type (`music` runs no voice detector), the
/// whisper runtime version the install is pinned to, and whether the voice-detector model
/// file is on disk.
#[derive(Debug, Clone, Default)]
pub struct RequirementSettings {
    pub audio_type: String,
    pub runtime_version: String,
    pub vad_model_present: bool,
}

/// One thing transcription needs: its id, whether it is there, what transcription says when
/// it is not, and the downloads that would fix it.
#[derive(Debug, Clone)]
pub struct TranscriptionRequirement {
    pub id: &'static str,
    pub ready: bool,
    pub blocked_message: String,
    pub fixed_by: Vec<QueuedDownload>,
}

/// A requirement as its id, readiness, message and fixes.
pub open spec fn requirement_view(r: TranscriptionRequirement) -> (Seq<char>, bool, Seq<char>, Seq<DownloadView>) {
    (r.id@, r.ready, r.blocked_message@, downloads_view(r.fixed_by@))
}

pub open spec fn requirements_view(r: Seq<TranscriptionRequirement>) -> Seq<(Seq<char>, bool, Seq<char>, Seq<DownloadView>)> {
    r.map_values(|x: TranscriptionRequirement| requirement_view(x))
}

impl TranscriptionRequirement {
    /// A requirement; one that is satisfied carries no fix, whatever it was handed.
    pub fn new(id: &'static str, ready: bool, blocked_message: String, fixed_by: Vec<QueuedDownload>) -> (r: Self)
        ensures
            r.id@ == id@,
            r.ready == ready,
            r.blocked_message@ == blocked_message@,
            ready ==> r.fixed_by@.len() == 0,
            !ready ==> r.fixed_by@ == fixed_by@,
    {
        TranscriptionRequirement {
            id,
            ready,
            blocked_message,
            fixed_by: if ready {
                Vec::new()
            } else {
                fixed_by
            },
        }
    }
}

/// The fixes a requirement keeps: none when it is ready.
pub open spec fn kept_fixes(ready: bool, fixes: Seq<DownloadView>) -> Seq<DownloadView> {
    if ready {
        Seq::empty()
    } else {
        fixes
    }
}

/// Whisper, ffmpeg and the voice detector, in that order: whisper is ready when detection
/// says so and is fixed by whichever of the runtime (at the pinned version) and the model is
/// missing; ffmpeg is ready when found and fixed by a plain download; the detector is ready
/// in music mode or when its model is on disk, and is fixed by its own download only once
/// the whisper model is installed.
pub open spec fn requirements_spec(
    audio_type: Seq<char>,
    runtime_version: Seq<char>,
    vad_model_present: bool,
    status: Seq<char>,
    message: Seq<char>,
    cli_ready: bool,
    model_ready: bool,
    ffmpeg_present: bool,
) -> Seq<(Seq<char>, bool, Seq<char>, Seq<DownloadView>)> {
    let whisper_fixes = (if !cli_ready {
        seq![DownloadView::WhisperRuntime(runtime_version)]
    } else {
        Seq::empty()
    }) + (if !model_ready {
        seq![DownloadView::WhisperModel]
    } else {
        Seq::empty()
    });
    let whisper_ready = status == "ready"@;
    let vad_ready = audio_type == "music"@ || vad_model_present;
    seq![
        (
            "whisper"@,
            whisper_ready,
            "Whisper is not ready yet: "@ + message,
            kept_fixes(whisper_ready, whisper_fixes),
        ),
        (
            "ffmpeg"@,
            ffmpeg_present,
            "FFmpeg is required for transcription. Download it from Settings."@,
            kept_fixes(ffmpeg_present, seq![DownloadView::Ffmpeg(false)]),
        ),
        (
            "vad"@,
            vad_ready,
            "The speech-detector (VAD) model has not been downloaded yet. Download it from Settings."@,
            kept_fixes(
                vad_ready,
                if model_ready {
                    seq![DownloadView::WhisperVadModel]
                } else {
                    Seq::empty()
                },
            ),
        ),
    ]
}

fn str_eq(a: &str, b: &str) -> (r: bool)
    ensures
        r == (a@ == b@),
{
    seq_eq(chars_of(a).as_slice(), chars_of(b).as_slice())
}

/// Everything transcription cannot run without, and whether each is there.
pub fn transcription_requirements(
    settings: &RequirementSettings,
    whisper: &WhisperDetection,
    ffmpeg: &FfmpegDetection,
) -> (r: Vec<TranscriptionRequirement>)
    ensures
        requirements_view(r@) == requirements_spec(
            settings.audio_type@,
            settings.runtime_version@,
            settings.vad_model_present,
            whisper.status@,
            whisper.message@,
            whisper.cli_ready,
            whisper.model_ready,
            ffmpeg.executable_path is Some,
        ),
{
    let mut whisper_downloads: Vec<QueuedDownload> = Vec::new();
    if !whisper.cli_ready {
        whisper_downloads.push(QueuedDownload::WhisperRuntime { version: settings.runtime_version.clone() });
    }
    if !whisper.model_ready {
        whisper_downloads.push(QueuedDownload::WhisperModel);
    }
    let mut message = chars_of("Whisper is not ready yet: ");
    crate::text::push_str(&mut message, whisper.message.as_str());
    let whisper_req = TranscriptionRequirement::new(
        "whisper",
        str_eq(whisper.status.as_str(), "ready"),
        crate::text::string_of(message.as_slice()),
        whisper_downloads,
    );
    let mut ffmpeg_fixes: Vec<QueuedDownload> = Vec::new();
    ffmpeg_fixes.push(QueuedDownload::Ffmpeg { reinstall: false });
    let ffmpeg_req = TranscriptionRequirement::new(
        "ffmpeg",
        ffmpeg.executable_path.is_some(),
        "FFmpeg is required for transcription. Download it from Settings.".to_string(),
        ffmpeg_fixes,
    );
    let mut vad_fixes: Vec<QueuedDownload> = Vec::new();
    if whisper.model_ready {
        vad_fixes.push(QueuedDownload::WhisperVadModel);
    }
    let vad_req = TranscriptionRequirement::new(
        "vad",
        str_eq(settings.audio_type.as_str(), "music") || settings.vad_model_present,
        "The speech-detector (VAD) model has not been downloaded yet. Download it from Settings.".to_string(),
        vad_fixes,
    );
    let mut out: Vec<TranscriptionRequirement> = Vec::new();
    out.push(whisper_req);
    out.push(ffmpeg_req);
    out.push(vad_req);
    proof {
        let spec = requirements_spec(
            settings.audio_type@,
            settings.runtime_version@,
            settings.vad_model_present,
            whisper.status@,
            whisper.message@,
            whisper.cli_ready,
            whisper.model_ready,
            ffmpeg.executable_path is Some,
        );
        assert(downloads_view(out@[0].fixed_by@) =~= spec[0].3);
        assert(downloads_view(out@[1].fixed_by@) =~= spec[1].3);
        assert(downloads_view(out@[2].fixed_by@) =~= spec[2].3);
        assert(requirements_view(out@) =~= spec);
    }
    out
}

/// The fixes of every requirement, in the order the requirements come.
pub open spec fn all_fixes(r: Seq<(Seq<char>, bool, Seq<char>, Seq<DownloadView>)>) -> Seq<DownloadView>
    decreases r.len(),
{
    if r.len() == 0 {
        Seq::empty()
    } else {
        all_fixes(r.drop_last()) + r.last().3
    }
}

/// Every download this install still needs before it can transcribe, in the order they run.
pub fn missing_essential_downloads(
    settings: &RequirementSettings,
    whisper: &WhisperDetection,
    ffmpeg: &FfmpegDetection,
) -> (d: Vec<QueuedDownload>)
    ensures
        downloads_view(d@) == all_fixes(
            requirements_spec(
                settings.audio_type@,
                settings.runtime_version@,
                settings.vad_model_present,
                whisper.status@,
                whisper.message@,
                whisper.cli_ready,
                whisper.model_ready,
                ffmpeg.executable_path is Some,
            ),
        ),
{
    let reqs = transcription_requirements(settings, whisper, ffmpeg);
    let ghost rv = requirements_view(reqs@);
    let mut out: Vec<QueuedDownload> = Vec::new();
    let mut i: usize = 0;
    while i < reqs.len()
        invariant
            i <= reqs@.len(),
            rv == requirements_view(reqs@),
            downloads_view(out@) == all_fixes(rv.take(i as int)),
        decreases reqs.len() - i,
    {
        assert(rv.take(i + 1).drop_last() =~= rv.take(i as int));
        let fixes = &reqs[i].fixed_by;
        let ghost before = downloads_view(out@);
        let mut k: usize = 0;
        while k < fixes.len()
            invariant
                k <= fixes@.len(),
                downloads_view(out@) == before + downloads_view(fixes@).take(k as int),
            decreases fixes.len() - k,
        {
            let ghost prev = out@;
            out.push(fixes[k].clone());
            assert(downloads_view(out@) =~= downloads_view(prev).push(download_view(fixes@[k as int])));
            assert(downloads_view(fixes@).take(k + 1) =~= downloads_view(fixes@).take(k as int).push(
                download_view(fixes@[k as int]),
            ));
            k = k + 1;
        }
        assert(downloads_view(fixes@).take(fixes@.len() as int) =~= downloads_view(fixes@));
        i = i + 1;
    }
    assert(rv.take(reqs@.len() as int) =~= rv);
    out
}

} // verus!
