use wonder_of_u::library::requirements::{
    missing_essential_downloads, transcription_requirements, FfmpegDetection, QueuedDownload,
    RequirementSettings, TranscriptionRequirement, WhisperDetection,
    RECOMMENDED_WHISPER_RUNTIME_VERSION,
};
use wonder_of_u::library::segments::{
    clean_segments, sanitize_language_tag, trim_cue_to_speech, CueTiming, RecordingSegment,
};
use wonder_of_u::library::transcripts::{transcript_has_segments, RecordingTranscript};
use wonder_of_u::media::envelope::SpeechEnvelope;
use wonder_of_u::media::whisper::SpeechRegion;

#[test]
fn has_segments_answers_for_the_language_asked_not_for_any_language() {
    let transcripts = vec![
        RecordingTranscript {
            language: "ja".into(),
            file_path: "clip.ja.transcript.txt".into(),
            detected_language: Some("ja".into()),
            segments_path: Some("clip.ja.segments.json".into()),
        },
        RecordingTranscript {
            language: "ko".into(),
            file_path: "clip.ko.transcript.txt".into(),
            detected_language: Some("ko".into()),
            segments_path: None,
        },
    ];

    assert!(transcript_has_segments(&transcripts, "ja"));
    assert!(!transcript_has_segments(&transcripts, "ko"));
    assert!(!transcript_has_segments(&transcripts, "fr"));

    let any_says = transcripts
        .iter()
        .any(|transcript| transcript.segments_path.is_some());
    assert!(any_says && !transcript_has_segments(&transcripts, "ko"));
}

/// Settings whose only interesting fields are the audio type and whether the detector's
/// model is on disk.
fn settings_for(audio_type: &str, vad_model_present: bool) -> RequirementSettings {
    RequirementSettings {
        audio_type: audio_type.into(),
        vad_model_present,
        ..Default::default()
    }
}

fn whisper_detection(status: &str) -> WhisperDetection {
    WhisperDetection {
        status: status.into(),
        ..Default::default()
    }
}

fn ffmpeg_detection(present: bool) -> FfmpegDetection {
    FfmpegDetection {
        executable_path: present.then(|| "C:/ffmpeg.exe".to_string()),
    }
}

#[test]
fn ffmpeg_is_a_transcription_requirement() {
    let requirements = transcription_requirements(
        &settings_for("speech", false),
        &whisper_detection("ready"),
        &ffmpeg_detection(false),
    );
    let ffmpeg = requirements
        .iter()
        .find(|requirement| requirement.id == "ffmpeg")
        .expect("ffmpeg is listed");
    assert!(!ffmpeg.ready, "absent ffmpeg must not read as satisfied");
}

#[test]
fn the_requirement_ids_are_the_three_the_checklist_matches_on() {
    let requirements = transcription_requirements(
        &settings_for("speech", false),
        &whisper_detection("ready"),
        &ffmpeg_detection(true),
    );
    let ids: Vec<&str> = requirements.iter().map(|entry| entry.id).collect();
    assert_eq!(ids, ["whisper", "ffmpeg", "vad"]);
}

#[test]
fn the_speech_detector_is_only_required_outside_music_mode() {
    let speech = transcription_requirements(
        &settings_for("speech", false),
        &whisper_detection("ready"),
        &ffmpeg_detection(true),
    );
    let music = transcription_requirements(
        &settings_for("music", false),
        &whisper_detection("ready"),
        &ffmpeg_detection(true),
    );
    let vad = |list: &[TranscriptionRequirement]| {
        list.iter().find(|entry| entry.id == "vad").unwrap().ready
    };
    assert!(!vad(&speech), "speech mode needs the detector");
    assert!(vad(&music), "music mode skips VAD entirely");
    assert_eq!(speech.len(), music.len(), "the list keeps one shape");
}

#[test]
fn every_requirement_can_explain_itself() {
    for requirement in transcription_requirements(
        &settings_for("speech", false),
        &whisper_detection("cliMissing"),
        &ffmpeg_detection(false),
    ) {
        assert!(
            !requirement.blocked_message.trim().is_empty(),
            "{} has nothing to say when it blocks",
            requirement.id
        );
    }
}

#[test]
fn whisper_is_reported_before_ffmpeg_when_both_are_missing() {
    let requirements = transcription_requirements(
        &settings_for("speech", false),
        &whisper_detection("cliMissing"),
        &ffmpeg_detection(false),
    );
    let first_missing = requirements
        .iter()
        .find(|requirement| !requirement.ready)
        .expect("both are missing");
    assert_eq!(first_missing.id, "whisper");
}

fn whisper_parts(status: &str, cli_ready: bool, model_ready: bool) -> WhisperDetection {
    WhisperDetection {
        status: status.into(),
        cli_ready,
        model_ready,
        ..Default::default()
    }
}

fn settings_pinned_to(runtime_version: &str) -> RequirementSettings {
    let mut settings = settings_for("speech", false);
    settings.runtime_version = runtime_version.into();
    settings
}

#[test]
fn a_satisfied_requirement_carries_no_download() {
    let ready = TranscriptionRequirement::new(
        "ffmpeg",
        true,
        "unused".into(),
        vec![QueuedDownload::Ffmpeg { reinstall: false }],
    );
    let missing = TranscriptionRequirement::new(
        "ffmpeg",
        false,
        "unused".into(),
        vec![QueuedDownload::Ffmpeg { reinstall: false }],
    );
    assert!(ready.fixed_by.is_empty(), "a satisfied entry offers no fix");
    assert_eq!(missing.fixed_by.len(), 1);
}

#[test]
fn a_fresh_install_asks_for_the_runtime_then_the_model_then_ffmpeg() {
    let requests = missing_essential_downloads(
        &settings_pinned_to("v1.8.4"),
        &whisper_parts("cliMissing", false, false),
        &ffmpeg_detection(false),
    );
    assert_eq!(
        requests,
        vec![
            QueuedDownload::WhisperRuntime {
                version: "v1.8.4".into()
            },
            QueuedDownload::WhisperModel,
            QueuedDownload::Ffmpeg { reinstall: false },
        ]
    );
}

#[test]
fn the_essential_set_never_asks_for_a_reinstall() {
    let requests = missing_essential_downloads(
        &settings_pinned_to("v1.8.4"),
        &whisper_parts("cliMissing", false, false),
        &ffmpeg_detection(false),
    );
    assert!(
        requests.contains(&QueuedDownload::Ffmpeg { reinstall: false }),
        "got {requests:?}"
    );
    assert!(!requests
        .iter()
        .any(|request| matches!(request, QueuedDownload::Ffmpeg { reinstall: true })));
}

#[test]
fn the_runtime_requested_is_the_one_the_settings_are_pinned_to() {
    let requests = missing_essential_downloads(
        &settings_pinned_to("v1.7.1"),
        &whisper_parts("cliMissing", false, true),
        &ffmpeg_detection(true),
    );
    assert!(requests.contains(&QueuedDownload::WhisperRuntime {
        version: "v1.7.1".into()
    }));
    assert!(!requests.contains(&QueuedDownload::WhisperRuntime {
        version: RECOMMENDED_WHISPER_RUNTIME_VERSION.into()
    }));
    assert_ne!(RECOMMENDED_WHISPER_RUNTIME_VERSION, "v1.7.1");
}

#[test]
fn only_the_missing_half_of_whisper_is_requested() {
    let model_only = missing_essential_downloads(
        &settings_pinned_to("v1.8.4"),
        &whisper_parts("modelMissing", true, false),
        &ffmpeg_detection(true),
    );
    assert_eq!(model_only, vec![QueuedDownload::WhisperModel]);
}

#[test]
fn the_speech_detector_is_requested_alone_once_the_model_is_installed() {
    let requests = missing_essential_downloads(
        &settings_pinned_to("v1.8.4"),
        &whisper_parts("ready", true, true),
        &ffmpeg_detection(true),
    );
    assert_eq!(requests, vec![QueuedDownload::WhisperVadModel]);
}

#[test]
fn music_mode_asks_for_no_speech_detector() {
    let mut settings = settings_pinned_to("v1.8.4");
    settings.audio_type = "music".into();
    let requests = missing_essential_downloads(
        &settings,
        &whisper_parts("ready", true, true),
        &ffmpeg_detection(true),
    );
    assert!(requests.is_empty(), "got {requests:?}");
}

#[test]
fn an_install_that_needs_nothing_requests_nothing() {
    let mut settings = settings_for("speech", true);
    settings.runtime_version = "v1.8.4".into();
    let requests = missing_essential_downloads(
        &settings,
        &whisper_parts("ready", true, true),
        &ffmpeg_detection(true),
    );
    assert!(requests.is_empty(), "got {requests:?}");
}

fn envelope(sketch: &str) -> SpeechEnvelope {
    SpeechEnvelope::from_frames(sketch.chars().map(|frame| frame == '#').collect())
}

#[test]
fn a_late_start_is_pulled_in_to_the_speech() {
    let envelope = envelope("..................########........");
    let (start_ms, end_ms) = trim_cue_to_speech(0, 340, Some(&envelope), 50);
    assert_eq!(start_ms, 130, "speech starts at 180ms, less the 50ms pad");
    assert_eq!(end_ms, 310, "speech ends at 260ms, plus the 50ms pad");
}

#[test]
fn a_trim_never_grows_a_cue() {
    let envelope = envelope("##########");
    let (start_ms, end_ms) = trim_cue_to_speech(0, 100, Some(&envelope), 5_000);
    assert_eq!((start_ms, end_ms), (0, 100), "the pad cannot exceed the cue");
}

#[test]
fn a_silent_cue_is_left_alone() {
    let envelope = envelope("....................");
    assert_eq!(trim_cue_to_speech(0, 200, Some(&envelope), 150), (0, 200));
}

#[test]
fn no_envelope_means_no_trimming() {
    assert_eq!(trim_cue_to_speech(1_000, 9_000, None, 150), (1_000, 9_000));
}

#[test]
fn silence_inside_a_cue_survives() {
    let envelope = envelope("####..........####");
    let (start_ms, end_ms) = trim_cue_to_speech(0, 180, Some(&envelope), 0);
    assert_eq!((start_ms, end_ms), (0, 180), "both bursts are kept, gap and all");
}

#[test]
fn the_watch_path_still_clamps_to_vad_regions() {
    let segments = vec![RecordingSegment {
        text: "daijoubu".into(),
        start_ms: 30_060,
        end_ms: 36_100,
    }];
    let regions = [SpeechRegion {
        start_ms: 30_310,
        end_ms: 31_290,
    }];
    let cleaned = clean_segments(segments, 0, CueTiming::ClampToVadRegions(&regions));
    assert_eq!(cleaned[0].start_ms, 30_060, "the clamp never moves a start");
    assert_eq!(cleaned[0].end_ms, 31_410, "31.29s of speech plus the 120ms pad");
}

#[test]
fn the_two_timing_rules_are_not_interchangeable() {
    let segment = || {
        vec![RecordingSegment {
            text: "daijoubu".into(),
            start_ms: 0,
            end_ms: 600,
        }]
    };
    let sketch = envelope("..................########..................................");
    let regions = [SpeechRegion {
        start_ms: 0,
        end_ms: 500,
    }];
    let trimmed = clean_segments(segment(), 0, CueTiming::TrimToSpeech(Some(&sketch)));
    let clamped = clean_segments(segment(), 0, CueTiming::ClampToVadRegions(&regions));
    assert_ne!(
        (trimmed[0].start_ms, trimmed[0].end_ms),
        (clamped[0].start_ms, clamped[0].end_ms)
    );
}

#[test]
fn clean_segments_trims_cues_to_their_speech() {
    let segments = vec![RecordingSegment {
        text: "daijoubu".into(),
        start_ms: 0,
        end_ms: 600,
    }];
    let sketch = envelope("..................########..................................");
    let cleaned = clean_segments(segments, 0, CueTiming::TrimToSpeech(Some(&sketch)));
    assert_eq!(cleaned.len(), 1);
    assert_eq!(cleaned[0].start_ms, 30, "speech at 180ms, less the 150ms pad");
    assert_eq!(cleaned[0].end_ms, 410, "speech to 260ms, plus the 150ms pad");
}

fn seg(text: &str, from: u64, to: u64) -> RecordingSegment {
    RecordingSegment {
        text: text.into(),
        start_ms: from,
        end_ms: to,
    }
}

#[test]
fn clean_segments_collapses_a_runaway_repetition_run() {
    let mut segments = vec![seg("intro", 0, 1000)];
    for i in 0..10 {
        segments.push(seg("ループ", 1000 + i * 1000, 2000 + i * 1000));
    }
    let cleaned = clean_segments(segments, 0, CueTiming::TrimToSpeech(None));
    assert_eq!(cleaned.len(), 2);
    assert_eq!(cleaned[0].text, "intro");
    assert_eq!(cleaned[1].text, "ループ");
    assert_eq!(cleaned[1].start_ms, 1000);
    assert_eq!(cleaned[1].end_ms, 11000);
}

#[test]
fn clean_segments_keeps_a_short_legitimate_repeat() {
    let segments = vec![
        seg("リフレイン", 0, 1000),
        seg("リフレイン", 1000, 2000),
        seg("リフレイン", 2000, 3000),
    ];
    let cleaned = clean_segments(segments, 0, CueTiming::TrimToSpeech(None));
    assert_eq!(cleaned.len(), 3);
}

#[test]
fn clean_segments_drops_a_lone_hallucination_phrase() {
    let segments = vec![
        seg("本物の台詞です", 0, 3000),
        seg("ご視聴ありがとうございました", 3000, 6000),
        seg("ご視聴ありがとうございました。", 6000, 9000),
        seg("Thanks for watching", 9000, 12000),
        seg("ありがとうございました", 12000, 15000),
    ];
    let cleaned = clean_segments(segments, 0, CueTiming::TrimToSpeech(None));
    assert_eq!(cleaned.len(), 2, "only the real line and the generic thanks survive");
    assert_eq!(cleaned[0].text, "本物の台詞です");
    assert_eq!(cleaned[1].text, "ありがとうございました");
}

#[test]
fn clean_segments_drops_and_clamps_out_of_bounds_tails() {
    let segments = vec![
        seg("in bounds", 0, 5000),
        seg("overshoots the end", 5000, 9000),
        seg("starts past the end", 9000, 12000),
    ];
    let cleaned = clean_segments(segments, 8000, CueTiming::TrimToSpeech(None));
    assert_eq!(cleaned.len(), 2);
    assert_eq!(cleaned[1].text, "overshoots the end");
    assert_eq!(cleaned[1].end_ms, 8000, "an overshooting end is clamped");
}

#[test]
fn language_tags_are_filename_safe() {
    assert_eq!(sanitize_language_tag("es"), "es");
    assert_eq!(sanitize_language_tag("zh-hans"), "zh-hans");
    assert_eq!(sanitize_language_tag("a/b\\c"), "a_b_c");
    assert_eq!(sanitize_language_tag(""), "lang");
}

#[test]
fn cleaning_never_adds_a_segment_nor_runs_past_the_recording() {
    let segment = |text: &str, start_ms: u64, end_ms: u64| RecordingSegment {
        text: text.into(),
        start_ms,
        end_ms,
    };
    let segments = vec![
        segment("はい", 0, 900),
        segment("はい", 900, 1_800),
        segment("はい", 1_800, 2_700),
        segment("はい", 2_700, 3_600),
        segment("まだある", 3_600, 9_000),
        segment("おわり", 12_000, 13_000),
    ];
    let count = segments.len();
    let cleaned = clean_segments(segments, 5_000, CueTiming::TrimToSpeech(None));
    assert!(cleaned.len() <= count);
    assert!(cleaned.iter().all(|cue| cue.end_ms <= 5_000));
    assert_eq!(cleaned.len(), 2, "the run collapses and the late line is dropped");
    assert_eq!((cleaned[0].start_ms, cleaned[0].end_ms), (0, 3_600));
    assert_eq!(cleaned[1].end_ms, 5_000);
}

#[test]
fn cleaning_keeps_real_lines_in_order_and_no_run_of_four() {
    let segments = vec![
        seg("hello", 0, 1_000),
        seg("Thanks for watching", 1_000, 2_000),
        seg("loop", 2_000, 3_000),
        seg("loop", 3_000, 4_000),
        seg("loop", 4_000, 5_000),
        seg("loop", 5_000, 6_000),
        seg("world", 6_000, 7_000),
        seg("late", 9_000, 9_500),
    ];
    let cleaned = clean_segments(segments, 8_000, CueTiming::TrimToSpeech(None));
    let texts: Vec<&str> = cleaned.iter().map(|s| s.text.as_str()).collect();
    assert_eq!(texts, ["hello", "loop", "world"]);
    assert_eq!((cleaned[1].start_ms, cleaned[1].end_ms), (2_000, 6_000));
    assert!(cleaned.iter().all(|s| s.start_ms < 8_000 && s.end_ms <= 8_000));
}

#[test]
fn clean_lines_come_through_cleaning_unchanged() {
    let segments = vec![
        seg("a", 0, 100),
        seg("a", 100, 200),
        seg("a", 200, 300),
        seg("b", 300, 400),
    ];
    let cleaned = clean_segments(segments.clone(), 0, CueTiming::TrimToSpeech(None));
    assert_eq!(cleaned, segments, "a run of three is kept");
}
