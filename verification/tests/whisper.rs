use wonder_of_u::media::diagnostics::{cap_details, decode_failure_message, stderr_indicates_no_audio};
use wonder_of_u::media::envelope::{find_wav_data, SpeechEnvelope};
use wonder_of_u::media::transcribe::{
    decode_args, output_paths, transcription_preflight, transcription_thread_count, vad_model_verdict, whisper_cli_args,
    whisper_model_verdict, whisper_run_failure, DiagnosticSink, WhisperSlot, WhisperSlotGuard,
    MIN_VAD_MODEL_BYTES, MIN_WHISPER_MODEL_BYTES, TRANSCRIPTION_CANCELLED,
};
use wonder_of_u::media::whisper::{
    is_whisper_noise_line, parse_vad_region_line, parse_vad_seconds, parse_whisper_progress_line,
    parse_whisper_segment_line, Rounding, SpeechRegion, SpeechRegionSource, VadRegionLog,
};

#[test]
fn a_silent_video_is_named_rather_than_reported_as_a_decode_fault() {
    assert_eq!(
        decode_failure_message(
            "Stream map '' matches no streams.\nTo ignore this, add a trailing '?' to the map."
        ),
        "This video has no sound, so there is nothing to transcribe."
    );
    assert_eq!(
        decode_failure_message("  Error opening input file /nope.mkv.  "),
        "ffmpeg failed to decode the recording: Error opening input file /nope.mkv."
    );
}

#[test]
fn parse_whisper_progress_line_reads_and_clamps_percent() {
    assert_eq!(
        parse_whisper_progress_line("whisper_print_progress_callback: progress =  96%"),
        Some(96)
    );
    assert_eq!(
        parse_whisper_progress_line("whisper_print_progress_callback: progress = 100%"),
        Some(100)
    );
    assert_eq!(parse_whisper_progress_line("progress =   7%"), Some(7));
    assert_eq!(parse_whisper_progress_line("progress = 250%"), Some(100));
    assert_eq!(parse_whisper_progress_line("whisper_full_with_state: decode"), None);
    assert_eq!(parse_whisper_progress_line(""), None);
}

#[test]
fn the_mapped_vad_line_gives_absolute_region_bounds() {
    let line = "whisper_vad: vad_segment_info: orig_start: 2.53, orig_end: 3.71,                     vad_start: 0.52, vad_end: 1.70";

    let (source, region) = parse_vad_region_line(line).expect("mapped line parses");

    assert_eq!(source, SpeechRegionSource::Mapped);
    assert_eq!(region.start_ms, 2530);
    assert_eq!(region.end_ms, 3710);
}

#[test]
fn the_probe_vad_line_is_read_as_a_fallback() {
    let line = "whisper_vad_segments_from_probs: VAD segment 0: start = 1.92, end = 2.24                     (duration: 0.32)";

    let (source, region) = parse_vad_region_line(line).expect("probe line parses");

    assert_eq!(source, SpeechRegionSource::Probe);
    assert_eq!(region.start_ms, 1920);
    assert_eq!(region.end_ms, 2240);
}

#[test]
fn ordinary_whisper_output_is_not_a_region() {
    for line in [
        "[00:00:01.920 --> 00:00:04.830]  生まれ変わる今",
        "whisper_print_progress_callback: progress =  40%",
        "whisper_vad: vad_segment_info: orig_start: , orig_end: 3.71",
        "",
    ] {
        assert!(parse_vad_region_line(line).is_none(), "{line:?}");
    }
}

#[test]
fn seconds_convert_without_losing_a_millisecond() {
    assert_eq!(parse_vad_seconds("1.92", Rounding::Down), Some(1920));
    assert_eq!(parse_vad_seconds("1.92", Rounding::Up), Some(1920));
    assert_eq!(parse_vad_seconds("0.00", Rounding::Down), Some(0));
    assert_eq!(parse_vad_seconds("7", Rounding::Down), Some(7000));
    assert_eq!(parse_vad_seconds("1.5", Rounding::Down), Some(1500));
    assert_eq!(parse_vad_seconds("1.9204", Rounding::Down), Some(1920));
    assert_eq!(parse_vad_seconds("1.9204", Rounding::Up), Some(1921));
    assert_eq!(parse_vad_seconds("1.9200", Rounding::Up), Some(1920));
    assert_eq!(parse_vad_seconds("abc", Rounding::Down), None);
}

#[test]
fn the_mapped_list_wins_when_both_were_printed() {
    let mut log = VadRegionLog::default();
    let mapped = SpeechRegion {
        start_ms: 2530,
        end_ms: 3710,
    };
    let probe = SpeechRegion {
        start_ms: 1920,
        end_ms: 2240,
    };
    log.push(SpeechRegionSource::Probe, probe);
    log.push(SpeechRegionSource::Mapped, mapped);

    assert_eq!(log.into_regions(), vec![mapped]);
}

#[test]
fn the_probe_list_carries_a_build_that_stopped_printing_the_mapping() {
    let mut log = VadRegionLog::default();
    let probe = SpeechRegion {
        start_ms: 1920,
        end_ms: 2240,
    };
    log.push(SpeechRegionSource::Probe, probe);

    assert_eq!(log.into_regions(), vec![probe]);
    assert!(VadRegionLog::default().into_regions().is_empty());
}

#[test]
fn the_whisper_slot_admits_one_run_at_a_time() {
    let mut slot = WhisperSlot::new();

    let first = WhisperSlotGuard::acquire(&mut slot, "busy").expect("the slot starts free");

    let second = WhisperSlotGuard::acquire(&mut slot, "a transcription is already running");
    assert_eq!(
        second.err().as_deref(),
        Some("a transcription is already running"),
        "the second claim is refused, and told why"
    );

    first.release(&mut slot);
    WhisperSlotGuard::acquire(&mut slot, "busy").expect("the slot is free again");
}

#[test]
fn parse_whisper_segment_line_reads_bounds_and_text() {
    assert_eq!(
        parse_whisper_segment_line(
            "[00:00:06.830 --> 00:00:13.490]  僕はドイツ人なんですけど、日本人の友達作りたいです。"
        ),
        Some((
            6830,
            13490,
            "僕はドイツ人なんですけど、日本人の友達作りたいです。".to_string()
        ))
    );
    assert_eq!(
        parse_whisper_segment_line("[01:02:03.004 --> 01:02:04.000]   the  cat sat  "),
        Some((3723004, 3724000, "the  cat sat".to_string()))
    );
}

#[test]
fn parse_whisper_segment_line_ignores_everything_else() {
    assert_eq!(parse_whisper_segment_line("whisper_init_from_file: loading"), None);
    assert_eq!(parse_whisper_segment_line(""), None);
    assert_eq!(parse_whisper_segment_line("[00:00:00.000 --> 00:00:01.000]   "), None);
    assert_eq!(parse_whisper_segment_line("[00:00:00.000 00:00:01.000] hi"), None);
    assert_eq!(parse_whisper_segment_line("[bad --> worse] hi"), None);
    assert_eq!(parse_whisper_segment_line("[00:00:99.000 --> 00:00:01.000] hi"), None);
    assert_eq!(
        parse_whisper_segment_line("[1000000000000000:00:00.000 --> 00:00:01.000] hi"),
        None
    );
}

#[test]
fn cap_details_surfaces_the_error_line_over_the_banner() {
    let dump = [
        "whisper_model_load: loading model",
        "some other chatter",
        "more chatter",
        "error: failed to read audio file 'x.wav'",
    ]
    .join("\n");
    let capped = cap_details(&dump);
    assert!(
        capped.starts_with("error: failed to read audio file"),
        "the failure reason should lead, got {capped:?}"
    );
}

#[test]
fn whisper_noise_lines_are_kept_out_of_the_diagnostics() {
    assert!(is_whisper_noise_line("whisper_print_timings:    total time = 3759.40 ms"));
    assert!(is_whisper_noise_line("load_backend: loaded CPU backend from x.dll"));
    assert!(is_whisper_noise_line("whisper_print_progress_callback: progress =  96%"));
    assert!(is_whisper_noise_line("   "));
    assert!(!is_whisper_noise_line("error: failed to read audio file 'x.wav'"));
    assert!(!is_whisper_noise_line("whisper-cli: unrecognized argument"));
}

#[test]
fn cap_details_limits_a_giant_dump() {
    let dump = "x".repeat(5000);
    let capped = cap_details(&dump);
    assert!(
        capped.chars().count() <= 401,
        "capped details should stay bounded, got {} chars",
        capped.chars().count()
    );
}

#[test]
fn transcription_thread_count_is_bounded_and_ordered() {
    for cores in [1usize, 2, 3, 4, 8, 16, 64] {
        let low = transcription_thread_count("low", cores);
        let balanced = transcription_thread_count("balanced", cores);
        let high = transcription_thread_count("high", cores);
        assert!(low >= 1 && balanced >= 1 && high >= 1);
        assert!(low <= balanced, "low ({low}) must not exceed balanced ({balanced})");
        if cores >= 4 {
            assert!(balanced <= high, "balanced ({balanced}) must not exceed high ({high})");
        }
        assert_eq!(transcription_thread_count("nonsense", cores), balanced);
    }
    assert_eq!(transcription_thread_count("high", 16), 14);
    assert_eq!(transcription_thread_count("low", 16), 4);
    assert_eq!(transcription_thread_count("balanced", 16), 8);
    assert_eq!(transcription_thread_count("high", 1), 1);
}

#[test]
fn an_envelope_trims_a_cue_to_its_voiced_frames() {
    // Frames 10..20 (100 ms to 200 ms) are voiced.
    let mut frames = vec![false; 40];
    for f in frames.iter_mut().take(20).skip(10) {
        *f = true;
    }
    let envelope = SpeechEnvelope::from_frames(frames);
    assert_eq!(envelope.trim(0, 400, 30), (70, 230));
    assert_eq!(envelope.trim(0, 400, 0), (100, 200));
    assert_eq!(envelope.trim(150, 400, 1000), (150, 400));
    assert_eq!(envelope.trim(250, 400, 0), (250, 400));
    assert_eq!(envelope.trim(300, 300, 0), (300, 300));
}

#[test]
fn the_data_chunk_is_found_past_an_extra_chunk() {
    let mut file: Vec<u8> = Vec::new();
    file.extend_from_slice(b"RIFF");
    file.extend_from_slice(&0u32.to_le_bytes());
    file.extend_from_slice(b"WAVE");
    file.extend_from_slice(b"fmt ");
    file.extend_from_slice(&16u32.to_le_bytes());
    file.extend_from_slice(&[0u8; 16]);
    file.extend_from_slice(b"LIST");
    file.extend_from_slice(&5u32.to_le_bytes());
    file.extend_from_slice(b"INFOx");
    file.push(0);
    file.extend_from_slice(b"data");
    file.extend_from_slice(&6u32.to_le_bytes());
    let start = file.len();
    file.extend_from_slice(&[1, 2, 3, 4]);
    assert_eq!(find_wav_data(&file), Some((start, start + 4)));
    assert_eq!(find_wav_data(&file[..20]), None);
}

#[test]
fn no_audio_is_recognised_in_both_tools_wordings() {
    assert!(stderr_indicates_no_audio("Stream map '' MATCHES NO STREAMS."));
    assert!(stderr_indicates_no_audio(
        "ERROR: Postprocessing: WARNING: unable to obtain file audio codec with ffprobe"
    ));
    assert!(!stderr_indicates_no_audio("Error opening input file"));
}

#[test]
fn whisper_is_started_with_the_voice_detector_outside_music_mode() {
    let args = whisper_cli_args("m.bin", "a.wav", "out", "vad.bin", " ja ", 6, false, true);
    let expected: Vec<&str> = vec![
        "--model", "m.bin", "--file", "a.wav", "--output-txt", "--output-json", "--output-file",
        "out", "--print-progress", "-t", "6", "-mc", "0", "--suppress-nst", "-bs", "1", "--vad",
        "--vad-model", "vad.bin", "--vad-max-speech-duration-s", "20", "--language", "ja",
    ];
    assert_eq!(args, expected);
    let music = whisper_cli_args("m.bin", "a.wav", "out", "vad.bin", "  ", 12, true, false);
    assert_eq!(music.len(), 14);
    assert_eq!(music[10], "12");
    let decode = decode_args("in.mp4", "out.wav");
    assert_eq!(decode[6], "in.mp4");
    assert_eq!(decode.last().map(String::as_str), Some("out.wav"));
    assert_eq!(output_paths("base"), ("base.txt".to_string(), "base.json".to_string()));
}

#[test]
fn a_failed_run_reports_the_most_explanatory_line() {
    assert_eq!(
        whisper_run_failure(true, true, "", "", true, "x.txt"),
        Some(TRANSCRIPTION_CANCELLED.to_string())
    );
    assert_eq!(
        whisper_run_failure(false, false, "", "", true, "x.txt"),
        Some("whisper-cli failed to transcribe the recording.".to_string())
    );
    assert_eq!(
        whisper_run_failure(false, false, "chatter\nerror: bad model", "", true, "x.txt"),
        Some("error: bad model\nchatter".to_string())
    );
    assert_eq!(
        whisper_run_failure(false, true, "", "", false, "x.txt"),
        Some("whisper-cli finished without writing the transcript file at x.txt.".to_string())
    );
    assert_eq!(
        whisper_run_failure(false, true, "e", "o", false, "x.txt"),
        Some("whisper-cli finished without writing the transcript file at x.txt. e\no".to_string())
    );
    assert_eq!(whisper_run_failure(false, true, "e", "o", true, "x.txt"), None);
}

#[test]
fn the_diagnostic_sink_keeps_real_lines_only() {
    let mut sink = DiagnosticSink::new();
    sink.push_line("whisper_print_timings: total");
    sink.push_line("error: boom");
    sink.push_line("   ");
    assert_eq!(sink.text(), "error: boom");
}

#[test]
fn a_model_must_be_a_file_of_a_plausible_size() {
    assert_eq!(
        whisper_model_verdict(false, 5_000_000),
        Err("The selected Whisper model path is not a file.".to_string())
    );
    assert_eq!(
        whisper_model_verdict(true, MIN_WHISPER_MODEL_BYTES - 1),
        Err("The selected Whisper model file is unexpectedly small.".to_string())
    );
    assert_eq!(whisper_model_verdict(true, MIN_WHISPER_MODEL_BYTES), Ok(()));
    assert_eq!(
        vad_model_verdict(false, 0),
        Err("The selected VAD model path is not a file.".to_string())
    );
    assert_eq!(
        vad_model_verdict(true, 99_999),
        Err("The selected VAD model file is unexpectedly small.".to_string())
    );
    assert_eq!(vad_model_verdict(true, MIN_VAD_MODEL_BYTES), Ok(()));
}

#[test]
fn a_trim_keeps_its_bounds_in_order_and_a_larger_pad_never_narrows_it() {
    let mut frames = vec![false; 30];
    for frame in frames.iter_mut().skip(12).take(5) {
        *frame = true;
    }
    let envelope = SpeechEnvelope::from_frames(frames);
    let (a, b) = envelope.trim(50, 250, 0);
    assert_eq!((a, b), (120, 170));
    let (a1, b1) = envelope.trim(50, 250, 20);
    let (a2, b2) = envelope.trim(50, 250, 60);
    assert_eq!((a1, b1), (100, 190));
    assert_eq!((a2, b2), (60, 230));
    assert!(a2 <= a1 && b1 <= b2);
    assert_eq!(SpeechEnvelope::from_frames(vec![true; 10]).trim(0, 100, 5_000), (0, 100));
}

#[test]
fn each_frame_is_ten_ms_in_order() {
    let frames = [vec![false; 7], vec![true; 4], vec![false; 9]].concat();
    let envelope = SpeechEnvelope::from_frames(frames);
    assert_eq!(envelope.trim(0, 200, 0), (70, 110));
}

#[test]
fn the_first_check_that_refuses_decides_a_transcription() {
    let bad = |m: &str| Err::<(), String>(m.to_string());
    assert_eq!(transcription_preflight(bad("no cli"), bad("no model"), false, bad("no vad"), true), bad("no cli"));
    assert_eq!(transcription_preflight(Ok(()), bad("no model"), false, bad("no vad"), true), bad("no model"));
    assert_eq!(transcription_preflight(Ok(()), Ok(()), false, bad("no vad"), true), bad("no vad"));
    assert_eq!(
        transcription_preflight(Ok(()), Ok(()), true, bad("no vad"), true),
        Err(TRANSCRIPTION_CANCELLED.to_string())
    );
    assert_eq!(transcription_preflight(Ok(()), Ok(()), true, bad("no vad"), false), Ok(()));
}

#[test]
fn silence_between_the_first_and_last_voiced_frame_is_kept() {
    let frames = [vec![true; 4], vec![false; 10], vec![true; 4]].concat();
    assert_eq!(SpeechEnvelope::from_frames(frames).trim(0, 180, 0), (0, 180));
}
