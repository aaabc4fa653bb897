use wonder_of_u::library::batch::{
    already_transcribed_item, compression_failure_reason, conversion_skip, conversion_summary,
    import_summary, import_target, link_summary, should_retry_fetch, transcode_failure_message,
    next_transcription_step, transcribing_status_text, transcription_error_item,
    transcription_success_item, transcription_summary, BatchItem, BatchStatus, ItemStatus,
    TranscriptionStep,
};
use wonder_of_u::library::import::ImportPlan;
use wonder_of_u::preview::{preview_clip_name, preview_failure_message, PreviewCounter};
use wonder_of_u::recording::{
    capture_system_audio_loopback, check_start_phase, check_stop_phase, recording_status_text,
    RecorderSlot, RecorderStartClaim,
};
use wonder_of_u::scanner::{Inputs, ScannerState, VideoWindowRect};
use wonder_of_u::settings::{
    is_autostart_not_found_error, launch_state_from_query, windows_autostart_command,
};
use wonder_of_u::sherpa::{region_progress, samples_to_ms, sherpa_vad_model_path};
use wonder_of_u::tokenizer::{dictionary_loads, resolve_base_form, tokens_from_words};

#[test]
fn a_second_start_cannot_claim_the_recorder_slot() {
    let mut slot = RecorderSlot::new();
    let claim = RecorderStartClaim::acquire_with(&mut slot, Ok(false)).unwrap();
    assert!(RecorderStartClaim::acquire_with(&mut slot, Ok(false)).is_err());
    claim.release(&mut slot);
    assert!(RecorderStartClaim::acquire_with(&mut slot, Ok(false)).is_ok());
}

#[test]
fn an_already_running_recording_blocks_a_new_start() {
    let mut slot = RecorderSlot::new();
    assert!(RecorderStartClaim::acquire_with(&mut slot, Ok(true)).is_err());
    assert_eq!(
        RecorderStartClaim::acquire_with(&mut slot, Err("Could not inspect the recorder state.".into()))
            .err()
            .as_deref(),
        Some("Could not inspect the recorder state.")
    );
}

#[test]
fn starts_and_stops_wait_for_the_phases_that_allow_them() {
    assert!(check_start_phase("idle").is_ok());
    assert!(check_start_phase("error").is_ok());
    assert_eq!(
        check_start_phase("recording").unwrap_err(),
        "The app is still busy with the previous recording task."
    );
    assert!(check_stop_phase("recording").is_ok());
    assert_eq!(
        check_stop_phase("saving").unwrap_err(),
        "The previous recording is still being finalized."
    );
    assert_eq!(
        recording_status_text(true, "C:\\r\\a.wav"),
        "Starting system audio capture to C:\\r\\a.wav"
    );
    assert_eq!(
        capture_system_audio_loopback("a.wav".into(), "a".into(), "log".into(), 0).unwrap_err(),
        "System-audio loopback capture is only implemented for Windows right now."
    );
}

#[test]
fn windows_autostart_command_quotes_executable_paths() {
    assert_eq!(
        windows_autostart_command(r"C:\Program Files\Wonder of U\wonder_of_u_desktop.exe"),
        r#""C:\Program Files\Wonder of U\wonder_of_u_desktop.exe" --autostart"#
    );
}

#[test]
fn a_missing_autostart_entry_reads_as_off_only_when_turning_it_off() {
    assert!(is_autostart_not_found_error("The system cannot find the file specified. (os error 2)"));
    assert!(!is_autostart_not_found_error("Access is denied. (os error 5)"));
    assert_eq!(launch_state_from_query(false, Err("OS error 2".into())), Ok(false));
    assert_eq!(
        launch_state_from_query(true, Err("os error 2".into())),
        Err("os error 2".to_string())
    );
    assert_eq!(launch_state_from_query(true, Ok(true)), Ok(true));
}

#[test]
fn samples_to_ms_maps_offsets_without_drift() {
    assert_eq!(samples_to_ms(0, 16_000), 0);
    assert_eq!(samples_to_ms(16_000, 16_000), 1000);
    assert_eq!(samples_to_ms(8_000, 16_000), 500);
    assert_eq!(samples_to_ms(16_000 * 1200, 16_000), 1_200_000);
    assert_eq!(samples_to_ms(16_000, 0), 16_000_000);
}

#[test]
fn region_progress_never_reads_finished_and_the_detector_sits_under_the_assets() {
    assert_eq!(region_progress(5_000, 10_000), 50);
    assert_eq!(region_progress(20_000, 10_000), 99);
    assert_eq!(region_progress(5, 0), 0);
    assert_eq!(
        sherpa_vad_model_path("C:\\assets"),
        "C:\\assets\\models\\sherpa\\silero_vad.onnx"
    );
}

#[test]
fn every_preview_gets_its_own_name() {
    let mut counter = PreviewCounter::new();
    let first = counter.take();
    let second = counter.take();
    assert_ne!(first, second);
    assert_ne!(preview_clip_name(first), preview_clip_name(second));
    assert_eq!(preview_clip_name(7), "segment-7.mp3");
    assert_eq!(
        preview_failure_message("  "),
        "The sentence could not be prepared for playback."
    );
}

fn placed() -> Option<VideoWindowRect> {
    Some(VideoWindowRect {
        left: 100,
        top: 50,
        width: 1280,
        height: 720,
        dpi: 96,
    })
}

fn inputs(enabled: bool, popup_open: bool, modifier_held: bool) -> Inputs {
    Inputs {
        enabled,
        popup_open,
        modifier_held,
        escape_held: false,
        placement: placed(),
    }
}

#[test]
fn an_invisible_overlay_is_never_interactive() {
    for popup_open in [false, true] {
        for modifier_held in [false, true] {
            let off = inputs(false, popup_open, modifier_held).desired();
            assert!(!off.visible);
            assert!(!off.interactive);
            let nowhere = Inputs {
                placement: None,
                ..inputs(true, popup_open, modifier_held)
            }
            .desired();
            assert!(!nowhere.visible);
            assert!(!nowhere.interactive);
        }
    }
}

#[test]
fn the_overlay_takes_the_mouse_only_while_scanning_or_reading() {
    let idle = inputs(true, false, false).desired();
    assert!(idle.visible);
    assert!(!idle.interactive);
    assert!(inputs(true, false, true).desired().interactive);
    assert!(inputs(true, true, false).desired().interactive);
}

#[test]
fn the_frontend_is_told_to_stand_down_whenever_the_overlay_is_not_drawn() {
    assert!(!inputs(false, true, true).frontend_state().tracking);
    assert!(!Inputs {
        placement: None,
        ..inputs(true, true, true)
    }
    .frontend_state()
    .tracking);
    let live = inputs(true, false, true).frontend_state();
    assert!(live.tracking);
    assert!(live.scanning);
    assert_eq!(live.width, 1280);
    assert_eq!(inputs(false, false, false).frontend_state(), ScannerState::hidden());
}

#[test]
fn an_unknown_word_falls_back_to_its_own_surface() {
    assert_eq!(resolve_base_form("hello", Some("*")), "hello");
    assert_eq!(resolve_base_form("hello", None), "hello");
    assert_eq!(resolve_base_form("hello", Some("")), "hello");
}

#[test]
fn a_known_word_is_counted_under_its_dictionary_form() {
    assert_eq!(resolve_base_form("見", Some("見る")), "見る");
}

fn item(status: ItemStatus, message: &str) -> BatchItem {
    BatchItem {
        file_path: "C:/a.wav".into(),
        status,
        message: message.into(),
        note_id: None,
    }
}

#[test]
fn a_batch_is_summarised_from_its_items() {
    let items = vec![
        item(ItemStatus::Success, "ok"),
        item(ItemStatus::Skipped, "skip"),
        item(ItemStatus::Failed, "bad"),
    ];
    assert_eq!(
        transcription_summary(&items),
        (
            BatchStatus::Partial,
            "Transcription finished: 1 created, 1 skipped, 1 failed.".to_string()
        )
    );
    let cancelled = vec![item(ItemStatus::Success, "ok"), item(ItemStatus::Cancelled, "c")];
    assert_eq!(
        transcription_summary(&cancelled),
        (
            BatchStatus::Cancelled,
            "Transcription cancelled: 1 created before stopping.".to_string()
        )
    );
    assert_eq!(
        import_summary(&[]),
        (BatchStatus::Completed, "No files were selected to import.".to_string())
    );
    assert_eq!(
        conversion_summary(&items).1,
        "MP3 conversion finished: 1 converted, 1 skipped, 1 failed."
    );
    assert_eq!(BatchStatus::Partial.as_str(), "partial");
    assert_eq!(ItemStatus::Cancelled.as_str(), "cancelled");
}

#[test]
fn a_link_reports_its_one_recording_by_name() {
    let one = vec![item(ItemStatus::Failed, "x"), item(ItemStatus::Success, "Imported clip.mp3.")];
    assert_eq!(
        link_summary(&one),
        Some((
            BatchStatus::Partial,
            "Import finished: 1 imported, 1 failed.".to_string()
        ))
    );
    let only = vec![item(ItemStatus::Success, "Imported clip.mp3.")];
    assert_eq!(
        link_summary(&only),
        Some((BatchStatus::Completed, "Imported clip.mp3.".to_string()))
    );
    let two = vec![item(ItemStatus::Success, "a"), item(ItemStatus::Success, "b")];
    assert_eq!(
        link_summary(&two).unwrap().1,
        "Imported 2 recordings from this link."
    );
    assert_eq!(link_summary(&[item(ItemStatus::Failed, "x")]), None);
    assert!(should_retry_fetch(1, false, true));
    assert!(!should_retry_fetch(3, false, true));
    assert!(!should_retry_fetch(1, true, true));
}

#[test]
fn each_transcription_item_says_what_happened() {
    let (cancelled, stop) =
        transcription_error_item("a.wav".into(), "transcription cancelled.".into());
    assert!(stop);
    assert_eq!(cancelled.status, ItemStatus::Cancelled);
    assert_eq!(cancelled.message, "Transcription cancelled.");
    let (failed, stop) = transcription_error_item("a.wav".into(), "boom".into());
    assert!(!stop);
    assert_eq!(failed.message, "boom");
    assert_eq!(
        already_transcribed_item("a.wav".into(), "ja", Some(3)).message,
        "Already transcribed for ja."
    );
    assert_eq!(
        transcribing_status_text(0, 3, "a.wav"),
        "Transcribing 1 of 3: a.wav"
    );
}

#[test]
fn conversion_and_import_failures_say_why() {
    assert_eq!(
        conversion_skip(false, true, true, "C:\\r\\a.mp3"),
        Some("This recording is already MP3 or is not a WAV file.".to_string())
    );
    assert_eq!(conversion_skip(false, true, true, "C:\\r\\a.WAV"), None);
    assert_eq!(
        conversion_skip(true, false, false, "a.wav"),
        Some("Local audio was already deleted after Anki copied it.".to_string())
    );
    assert_eq!(compression_failure_reason(" e ", " o "), "e\no");
    assert_eq!(
        compression_failure_reason("", ""),
        "FFmpeg did not produce a valid MP3 file."
    );
    assert_eq!(
        transcode_failure_message("Stream map '' matches no streams."),
        "This video has no sound, so there is nothing to import."
    );
    assert_eq!(
        transcode_failure_message(" bad codec "),
        "FFmpeg could not convert this file: bad codec"
    );
    assert_eq!(
        import_target("C:\\in\\My: Clip.FLAC", ImportPlan::Passthrough),
        ("My Clip".to_string(), ".flac".to_string())
    );
    assert_eq!(
        import_target("C:\\in\\???.mkv", ImportPlan::ConvertToMp3),
        ("imported".to_string(), ".mp3".to_string())
    );
}

#[test]
fn a_missing_dictionary_reports_the_path_instead_of_panicking() {
    let absent = "/nonexistent/wonder-of-u-no-dictionary-here/not-a-dictionary";
    let error = dictionary_loads(absent).unwrap_err();
    assert!(error.contains("could not be loaded"), "{error}");
    assert!(error.contains(absent), "{error}");
}

#[test]
fn each_word_lindera_finds_becomes_one_token_under_its_counted_form() {
    let words = vec![
        ("見".to_string(), Some("見る".to_string())),
        ("た".to_string(), Some("*".to_string())),
        ("hello".to_string(), None),
    ];
    let tokens = tokens_from_words(&words);
    let pairs: Vec<(&str, &str)> = tokens
        .iter()
        .map(|token| (token.surface.as_str(), token.base_form.as_str()))
        .collect();
    assert_eq!(pairs, vec![("見", "見る"), ("た", "た"), ("hello", "hello")]);
}

#[test]
fn a_transcription_batch_stops_on_cancel_and_skips_what_is_done() {
    match next_transcription_step(true, false, false, 0, 3, "a.wav".into(), "a.wav", "ja", Some(7)) {
        TranscriptionStep::Stop(item) => {
            assert_eq!(item.status, ItemStatus::Cancelled);
            assert_eq!(item.message, "Transcription cancelled.");
            assert_eq!(item.note_id, Some(7));
        }
        _ => panic!("a cancelled batch stops"),
    }
    match next_transcription_step(false, false, true, 1, 3, "b.wav".into(), "b.wav", "ja", None) {
        TranscriptionStep::Skip(item) => {
            assert_eq!(item.status, ItemStatus::Skipped);
            assert_eq!(item.message, "Already transcribed for ja.");
        }
        _ => panic!("a transcribed recording is skipped"),
    }
    match next_transcription_step(false, true, true, 1, 3, "b.wav".into(), "b.wav", "ja", None) {
        TranscriptionStep::Run(line) => assert_eq!(line, "Transcribing 2 of 3: b.wav"),
        _ => panic!("a forced batch transcribes again"),
    }
    assert!(matches!(
        next_transcription_step(false, false, false, 2, 3, "c.wav".into(), "c.wav", "ja", None),
        TranscriptionStep::Run(_)
    ));
}

#[test]
fn a_transcribed_item_carries_the_translation_note() {
    let plain = transcription_success_item("a.wav".into(), Some(3), None);
    assert_eq!(plain.status, ItemStatus::Success);
    assert_eq!(plain.message, "Transcript created. WAV audio was kept for transcription accuracy.");
    assert_eq!(plain.note_id, Some(3));
    let noted = transcription_success_item("a.wav".into(), None, Some("Translated to English."));
    assert_eq!(
        noted.message,
        "Transcript created. WAV audio was kept for transcription accuracy. Translated to English."
    );
}

#[test]
fn the_status_line_counts_from_one_past_the_last_index() {
    assert_eq!(transcribing_status_text(4, 2, "x.wav"), "Transcribing 5 of 2: x.wav");
}

#[test]
fn the_vad_model_path_is_joined_as_windows_joins_paths() {
    assert_eq!(sherpa_vad_model_path("C:"), "C:models\\sherpa\\silero_vad.onnx");
    assert_eq!(sherpa_vad_model_path("C:\\"), "C:\\models\\sherpa\\silero_vad.onnx");
    assert_eq!(sherpa_vad_model_path("D:/assets"), "D:/assets\\models\\sherpa\\silero_vad.onnx");
    assert_eq!(sherpa_vad_model_path(""), "models\\sherpa\\silero_vad.onnx");
}
