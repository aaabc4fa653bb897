use wonder_of_u::library::fetch::{
    classify_fetch_failure, entry_failure_message, failure_detail, is_own_import_artifact,
    is_produced_audio, live_status_is_stream, parse_probe_metadata_line, parse_ytdlp_item_total,
    pick_import_stem, stderr_indicates_js_runtime, stderr_indicates_livestream,
    stderr_indicates_oversize, validate_import_url, without_reflected_inputs,
    ytdlp_fetch_args, ytdlp_output_template, artifact_playlist_index, FetchFailure, StderrTail,
    JS_RUNTIME_REJECTED_MESSAGE, LIVESTREAM_REJECTED_MESSAGE, NO_AUDIO_REJECTED_MESSAGE,
    OVERSIZE_REJECTED_MESSAGE, STDERR_TAIL_BYTES,
};
use wonder_of_u::library::import::{
    classify_extension, classify_path, convert_ffmpeg_args, ffprobe_path_for, parse_ffprobe_duration_ms,
    check_import_output, check_import_source, check_import_target, import_source_path,
    supported_extensions_sentence, ImportPlan,
};
use wonder_of_u::library::naming::youtube_output_stem;
use wonder_of_u::media::diagnostics::stderr_indicates_no_audio;
use wonder_of_u::paths::join_str;

/// Two paths as Windows compares them: `\` and `/` both separate components.
fn same_path(a: &str, b: &str) -> bool {
    a.replace('\\', "/") == b.replace('\\', "/")
}


#[test]
fn whisper_readable_formats_are_copied_verbatim() {
    for extension in ["wav", "mp3", "flac", "ogg"] {
        assert_eq!(classify_extension(extension), ImportPlan::Passthrough);
    }
}

#[test]
fn formats_whisper_cannot_read_are_converted() {
    for extension in [
        "m4a", "opus", "mp4", "webm", "aac", "mkv", "mov", "m4v", "wma", "aiff",
    ] {
        assert_eq!(classify_extension(extension), ImportPlan::ConvertToMp3);
    }
}

#[test]
fn classification_ignores_case_and_a_leading_dot() {
    assert_eq!(classify_extension("WAV"), ImportPlan::Passthrough);
    assert_eq!(classify_extension(".Mp3"), ImportPlan::Passthrough);
    assert_eq!(classify_extension("M4A"), ImportPlan::ConvertToMp3);
}

#[test]
fn unknown_extensions_are_rejected() {
    for extension in ["txt", "pdf", "", "wavy", "mp"] {
        assert_eq!(classify_extension(extension), ImportPlan::Unsupported);
    }
}

#[test]
fn a_path_is_classified_by_its_extension() {
    assert_eq!(classify_path("C:\\music\\Song.FLAC"), ImportPlan::Passthrough);
    assert_eq!(classify_path("C:\\video\\clip.mkv"), ImportPlan::ConvertToMp3);
    assert_eq!(classify_path("C:\\video\\noext"), ImportPlan::Unsupported);
    assert_eq!(classify_path("C:\\video\\.wav"), ImportPlan::Unsupported);
    assert_eq!(
        supported_extensions_sentence(),
        "Import one of: wav, mp3, flac, ogg, m4a, opus, mp4, webm, aac, mkv, mov, m4v, wma, aiff."
    );
}

#[test]
fn convert_args_take_only_the_first_audio_stream_at_the_shared_mp3_profile() {
    let args = convert_ffmpeg_args("C:\\in.mkv", "C:\\out.mp3");
    let input = args.iter().position(|arg| arg == "-i").expect("-i present");
    assert_eq!(args[input + 1], "C:\\in.mkv");
    assert_eq!(args.last().map(String::as_str), Some("C:\\out.mp3"));
    let map = args.iter().position(|arg| arg == "-map").expect("-map");
    assert_eq!(args[map + 1], "0:a:0");
    assert!(args.iter().any(|arg| arg == "-vn"));
    assert!(args.iter().any(|arg| arg == "libmp3lame"));
    assert!(args.iter().any(|arg| arg == "128k"));
    assert!(args.iter().any(|arg| arg == "-nostdin"));
}

#[test]
fn ffprobe_is_resolved_beside_ffmpeg_keeping_the_executable_suffix() {
    assert_eq!(
        ffprobe_path_for("C:\\assets\\ffmpeg-runtime\\latest\\bin\\ffmpeg.exe"),
        "C:\\assets\\ffmpeg-runtime\\latest\\bin\\ffprobe.exe"
    );
    assert!(same_path(&ffprobe_path_for("/usr/local/bin/ffmpeg"), "/usr/local/bin/ffprobe"));
    assert_eq!(ffprobe_path_for("ffmpeg"), "ffprobe");
}

#[test]
fn valid_http_and_https_urls_are_accepted_with_case_preserved() {
    assert_eq!(
        validate_import_url("  https://www.youtube.com/watch?v=abc123  ").unwrap(),
        "https://www.youtube.com/watch?v=abc123"
    );
    assert_eq!(
        validate_import_url("HTTPS://YouTu.be/AbC").unwrap(),
        "HTTPS://YouTu.be/AbC"
    );
    assert_eq!(
        validate_import_url("http://example.com").unwrap(),
        "http://example.com"
    );
}

#[test]
fn urls_without_scheme_or_host_are_rejected() {
    assert!(validate_import_url("").is_err());
    assert!(validate_import_url("   ").is_err());
    assert!(validate_import_url("www.youtube.com/watch?v=abc").is_err());
    assert!(validate_import_url("ftp://example.com/file").is_err());
    assert!(validate_import_url("https://").is_err());
    assert!(validate_import_url("http:///path").is_err());
}

#[test]
fn each_rejected_url_says_why() {
    assert_eq!(validate_import_url(" ").unwrap_err(), "Enter a link to import.");
    assert_eq!(
        validate_import_url("ftp://x").unwrap_err(),
        "The import URL must start with http:// or https://."
    );
    assert_eq!(
        validate_import_url("https://?q").unwrap_err(),
        "That import URL is missing a host."
    );
}

#[test]
fn livestream_stderr_is_detected_across_wordings_and_case() {
    assert!(stderr_indicates_livestream(
        "ERROR: [youtube] abc: Video has not passed filter (!is_live), skipping .."
    ));
    assert!(stderr_indicates_livestream(
        "ERROR: abc: Video does not pass filter (!is_live)"
    ));
    assert!(stderr_indicates_livestream(
        "ERROR: This live event will begin in 3 hours"
    ));
    assert!(stderr_indicates_livestream("ERROR: Premieres in 2 days"));
    assert!(stderr_indicates_livestream("ERROR: The channel is not live"));
    assert!(stderr_indicates_livestream("HAS NOT PASSED FILTER"));
    assert!(!stderr_indicates_livestream(
        "ERROR: Video unavailable. This video is private"
    ));
    assert!(!stderr_indicates_livestream(""));
}

#[test]
fn fetch_args_carry_the_audio_profile_and_optional_ffmpeg_location() {
    let with_ffmpeg = ytdlp_fetch_args(
        "C:\\out\\%(title)s [%(id)s].%(ext)s",
        Some("C:\\assets\\ffmpeg-runtime\\latest\\bin"),
        "https://youtu.be/abc",
    );
    assert!(with_ffmpeg.iter().any(|arg| arg == "-x"));
    let format = with_ffmpeg
        .iter()
        .position(|arg| arg == "--audio-format")
        .expect("--audio-format present");
    assert_eq!(with_ffmpeg[format + 1], "mp3");
    assert!(with_ffmpeg.iter().any(|arg| arg == "--no-playlist"));
    let progress = with_ffmpeg
        .iter()
        .position(|arg| arg == "--progress-template")
        .expect("--progress-template present");
    assert_eq!(with_ffmpeg[progress + 1], "YTDLP_PCT %(progress._percent_str)s\n");
    assert!(with_ffmpeg[progress + 1].ends_with('\n'));
    assert!(!with_ffmpeg.iter().any(|arg| arg == "--restrict-filenames"));
    assert!(!with_ffmpeg.iter().any(|arg| arg == "--print"));
    assert!(with_ffmpeg.iter().any(|arg| arg == "--ignore-config"));
    assert!(with_ffmpeg.iter().any(|arg| arg == "--no-config-locations"));
    let filter = with_ffmpeg
        .iter()
        .position(|arg| arg == "--match-filter")
        .expect("--match-filter present");
    assert_eq!(with_ffmpeg[filter + 1], "!is_live");
    let max_size = with_ffmpeg
        .iter()
        .position(|arg| arg == "--max-filesize")
        .expect("--max-filesize present");
    assert_eq!(with_ffmpeg[max_size + 1], "2G");
    assert_eq!(with_ffmpeg.last().map(String::as_str), Some("https://youtu.be/abc"));
    assert_eq!(with_ffmpeg[with_ffmpeg.len() - 2].as_str(), "--");
    let location = with_ffmpeg
        .iter()
        .position(|arg| arg == "--ffmpeg-location")
        .expect("--ffmpeg-location present");
    assert_eq!(with_ffmpeg[location + 1], "C:\\assets\\ffmpeg-runtime\\latest\\bin");

    let without_ffmpeg = ytdlp_fetch_args("out.%(ext)s", None, "https://youtu.be/abc");
    assert!(!without_ffmpeg.iter().any(|arg| arg == "--ffmpeg-location"));
}

#[test]
fn youtube_audio_is_fetched_at_a_constant_bitrate() {
    let args = ytdlp_fetch_args("out.%(ext)s", None, "https://youtu.be/abc");
    let quality = args
        .iter()
        .position(|arg| arg == "--audio-quality")
        .expect("an explicit audio quality, not yt-dlp's VBR default");
    assert_eq!(args[quality + 1], "128K");
}

#[test]
fn a_literal_percent_is_doubled_in_the_template_but_not_in_the_expected_path() {
    let output_directory = "C:\\100%\\recordings";
    let template = ytdlp_output_template(output_directory, "100% Real [abc123]");

    let literal = template
        .strip_suffix("%(playlist_index& {}|)s.%(ext)s")
        .expect("the template ends in the index and extension specs");
    assert!(!literal.contains("%(ext)s"));
    assert!(literal.contains("100%% Real [abc123]"), "stem: {template}");
    assert_eq!(
        literal.replace("%%", "%"),
        join_str(output_directory, "100% Real [abc123]")
    );

    let expected_output = join_str(output_directory, "100% Real [abc123].mp3");
    assert!(expected_output.ends_with("\\100% Real [abc123].mp3"));

    let plain = ytdlp_output_template("C:\\recordings", "clip [abc]");
    assert!(!plain.contains("%%"));
    assert!(plain.ends_with("clip [abc]%(playlist_index& {}|)s.%(ext)s"));
}

#[test]
fn oversize_stderr_is_detected_across_wordings_and_case() {
    assert!(stderr_indicates_oversize(
        "[download] File is larger than max-filesize (3221225472 > 2147483648). Aborting."
    ));
    assert!(stderr_indicates_oversize(
        "File is larger than --max-filesize (3221225472 > 2147483648)"
    ));
    assert!(stderr_indicates_oversize("FILE IS LARGER THAN MAX-FILESIZE"));
    assert!(!stderr_indicates_oversize(
        "ERROR: [youtube] abc: Video has not passed filter (!is_live), skipping .."
    ));
    assert!(!stderr_indicates_livestream(
        "[download] File is larger than max-filesize (3221225472 > 2147483648). Aborting."
    ));
    assert!(!stderr_indicates_oversize(""));
}

#[test]
fn js_runtime_stderr_is_detected_across_wordings_and_case() {
    assert!(stderr_indicates_js_runtime(
        "ERROR: [youtube] abc: Failed to extract nsig function code; please install a JavaScript runtime"
    ));
    assert!(stderr_indicates_js_runtime(
        "ERROR: nsig extraction failed: Some formats may be missing"
    ));
    assert!(stderr_indicates_js_runtime(
        "ERROR: This extractor requires a JavaScript interpreter"
    ));
    assert!(stderr_indicates_js_runtime("ERROR: NO SUPPORTED JS RUNTIME FOUND"));
    assert!(!stderr_indicates_js_runtime(
        "ERROR: [youtube] abc: Video has not passed filter (!is_live), skipping .."
    ));
    assert!(!stderr_indicates_livestream("ERROR: please install a js runtime"));
    assert!(!stderr_indicates_js_runtime(""));
}

#[test]
fn the_js_runtime_warning_every_youtube_run_prints_is_not_a_js_runtime_failure() {
    let unavailable = "WARNING: [youtube] No supported JavaScript runtime could be found. \
         Only deno is enabled by default; to use another runtime add  --js-runtimes \
         RUNTIME[:PATH]  to your command/config. YouTube extraction without a JS runtime \
         has been deprecated, and some formats may be missing.\n\
         ERROR: [youtube] aaaaaaaaaaa: This video is unavailable";
    assert!(!stderr_indicates_js_runtime(unavailable));
    let genuine = format!("{unavailable}\nERROR: [youtube] abc: Failed to extract nsig function");
    assert!(stderr_indicates_js_runtime(&genuine));
}

#[test]
fn a_multi_entry_link_announces_how_many_videos_it_holds() {
    assert_eq!(parse_ytdlp_item_total("[download] Downloading item 1 of 2"), Some(2));
    assert_eq!(parse_ytdlp_item_total("[download] Downloading item 10 of 12"), Some(12));
    assert_eq!(parse_ytdlp_item_total(""), None);
    assert_eq!(parse_ytdlp_item_total("[download] Destination: clip of 2.mp3"), None);
    assert_eq!(parse_ytdlp_item_total("[download] Downloading item 1 of many"), None);
    assert_eq!(parse_ytdlp_item_total("YTDLP_PCT  42.0%"), None);
    assert_eq!(
        parse_ytdlp_item_total(
            "[twitter] Playlist Ben Davis - The computer use…: Downloading 2 items of 2"
        ),
        None
    );
}

#[test]
fn every_named_failure_reason_carries_its_own_sentence() {
    assert_eq!(FetchFailure::JsRuntime.message(), JS_RUNTIME_REJECTED_MESSAGE);
    assert_eq!(FetchFailure::Livestream.message(), LIVESTREAM_REJECTED_MESSAGE);
    assert_eq!(FetchFailure::Oversize.message(), OVERSIZE_REJECTED_MESSAGE);
    assert_eq!(FetchFailure::NoAudio.message(), NO_AUDIO_REJECTED_MESSAGE);
    assert_eq!(
        FetchFailure::Other("raw tool text".into()).message(),
        "raw tool text"
    );
}

#[test]
fn the_failure_detail_keeps_the_end_and_prefers_the_fatal_lines() {
    let chatty = format!(
        "{}\nERROR: [youtube] abc: This video is unavailable",
        "WARNING: [youtube] some advisory line that goes on\n".repeat(40)
    );
    let detail = failure_detail(&chatty);
    assert_eq!(detail, "ERROR: [youtube] abc: This video is unavailable");

    let unmarked = format!("{}TAIL", "x".repeat(1000));
    let detail = failure_detail(&unmarked);
    assert!(detail.ends_with("TAIL"), "kept: {detail}");
    assert_eq!(detail.chars().count(), 600);

    assert_eq!(failure_detail("brief"), "brief");
}

#[test]
fn a_video_title_is_never_classified_as_the_reason_the_run_failed() {
    let stem = "Cruella marks return of film premieres in Hollywood [ab12]";
    let stderr = format!("ERROR: Postprocessing: Error opening output file C:\\rec\\{stem}.mp3");
    assert!(stderr_indicates_livestream(&stderr));
    assert!(!stderr_indicates_livestream(&without_reflected_inputs(
        &stderr,
        "https://x.com/a/1",
        stem
    )));
    let url = "https://example.com/watch/this-is-not-live-anymore";
    assert!(!stderr_indicates_livestream(&format!("ERROR: Unable to download {url}")));
    assert!(stderr_indicates_livestream(&without_reflected_inputs(
        "ERROR: [youtube] TQRjW0WSdy0: This live event will begin in 46 hours.",
        "https://x.com/a/1",
        "clip [ab12]",
    )));
}

#[test]
fn only_the_mp3_a_fetch_asked_for_counts_as_produced() {
    for leftover in ["clip.webm", "clip.m4a", "clip.opus", "clip.mp4"] {
        assert!(!is_produced_audio(leftover), "{leftover} is a leftover download");
    }
    assert!(is_produced_audio("clip.mp3"));
    assert!(is_produced_audio("clip.MP3"));
}

#[test]
fn a_silent_link_is_answered_with_the_import_sentence() {
    assert!(stderr_indicates_no_audio(
        "ERROR: Postprocessing: WARNING: unable to obtain file audio codec with ffprobe"
    ));
    assert_eq!(
        NO_AUDIO_REJECTED_MESSAGE,
        "This video has no sound, so there is nothing to import."
    );
}

#[test]
fn the_stderr_buffer_drops_the_oldest_lines_not_the_decisive_last_one() {
    let mut tail = StderrTail::new();
    for index in 0..400 {
        tail.push(format!(
            "WARNING: [youtube] filler line {index} padded out to a realistic width \
             so the buffer has to start dropping"
        ));
    }
    tail.push("ERROR: [youtube] abc: Failed to extract nsig function".to_string());

    let text = tail.text();
    assert!(text.contains("Failed to extract nsig"));
    assert!(!text.contains("filler line 0 "));
    assert!(text.len() as u128 <= STDERR_TAIL_BYTES + 200);
    assert!(stderr_indicates_js_runtime(&text));
}

#[test]
fn a_single_line_longer_than_the_cap_is_still_kept() {
    let mut tail = StderrTail::new();
    tail.push(format!("ERROR: {}", "x".repeat(STDERR_TAIL_BYTES as usize * 2)));
    assert!(tail.text().starts_with("ERROR: xxx"));
}

#[test]
fn the_video_id_is_sanitized_into_the_stem_like_the_title() {
    assert_eq!(youtube_output_stem("Clip", "abc123"), "Clip [abc123]");
    assert_eq!(
        youtube_output_stem("Clip", "series:42/part"),
        "Clip [series 42 part]"
    );
    assert_eq!(youtube_output_stem("A/B: C", "abc123"), "A B C [abc123]");
    assert_eq!(youtube_output_stem("Clip", ""), "Clip");
    assert_eq!(youtube_output_stem("", "abc123"), "abc123");
    assert_eq!(youtube_output_stem("", ""), "youtube");
    assert_eq!(youtube_output_stem("Clip", "//"), "Clip");
}

#[test]
fn the_probe_line_parses_from_both_ends_so_a_tab_in_the_title_cannot_desync_it() {
    let metadata = parse_probe_metadata_line("not_live\tMy Clip\tabc123");
    assert_eq!(metadata.live_status, "not_live");
    assert_eq!(metadata.title, "My Clip");
    assert_eq!(metadata.id, "abc123");

    let tabbed = parse_probe_metadata_line("is_live\tA\tB [x]\tabc123");
    assert_eq!(tabbed.live_status, "is_live");
    assert_eq!(tabbed.title, "A\tB [x]");
    assert_eq!(tabbed.id, "abc123");
    assert_eq!(youtube_output_stem(&tabbed.title, &tabbed.id), "A B [x] [abc123]");

    let empty = parse_probe_metadata_line("");
    assert_eq!(empty.live_status, "");
    assert_eq!(empty.title, "");
    assert_eq!(empty.id, "");
    assert!(live_status_is_stream(&tabbed.live_status));
    assert!(!live_status_is_stream(&metadata.live_status));
}

#[test]
fn only_the_stem_plus_an_index_and_an_extension_is_this_imports_own_file() {
    assert!(is_own_import_artifact("clip [id].mp3", "clip [id]"));
    assert!(is_own_import_artifact("clip [id].mp4.part", "clip [id]"));
    assert!(is_own_import_artifact("clip [id] 2.mp3", "clip [id]"));
    assert!(is_own_import_artifact("clip [id] 17.f251.webm", "clip [id]"));

    assert!(!is_own_import_artifact("clip [id] extra.mp3", "clip [id]"));
    assert!(!is_own_import_artifact("clip [id]2.mp3", "clip [id]"));
    assert!(!is_own_import_artifact("clip [id] .mp3", "clip [id]"));
    assert!(!is_own_import_artifact("clip [id2].mp3", "clip [id]"));
    assert!(!is_own_import_artifact("movie.mp4.part", "clip [id]"));
    assert_eq!(artifact_playlist_index("clip [id] 17.f251.webm", "clip [id]"), 17);
    assert_eq!(artifact_playlist_index("clip [id].mp3", "clip [id]"), 0);
}

#[test]
fn a_stem_is_refused_when_a_case_variant_already_answers_to_it() {
    let existing = vec!["NARUTO OP [ab12].mp3".to_string(), "notes.txt".to_string()];
    assert_eq!(
        pick_import_stem(&existing, "Naruto OP [ab12]").as_deref(),
        Some("Naruto OP [ab12]_1")
    );
    assert_eq!(pick_import_stem(&Vec::new(), "").as_deref(), Some("youtube"));
}

#[test]
fn a_fetch_that_produced_nothing_names_its_reason() {
    assert_eq!(
        classify_fetch_failure(false, "ERROR: This live event will begin in 3 hours", ""),
        FetchFailure::Livestream
    );
    assert_eq!(
        classify_fetch_failure(true, "File is larger than max-filesize", ""),
        FetchFailure::Oversize
    );
    assert_eq!(
        classify_fetch_failure(false, "ERROR: nsig extraction failed", ""),
        FetchFailure::JsRuntime
    );
    assert_eq!(
        classify_fetch_failure(false, "", "ERROR: gone"),
        FetchFailure::Other("yt-dlp could not download this video: ERROR: gone".into())
    );
    assert_eq!(
        classify_fetch_failure(true, "", ""),
        FetchFailure::Other("yt-dlp finished but did not produce an audio file.".into())
    );
    assert_eq!(
        entry_failure_message("", ""),
        "A video in this link could not be fetched."
    );
}

#[test]
fn ffprobe_duration_parses_seconds_into_milliseconds() {
    assert_eq!(parse_ffprobe_duration_ms("12.345\n"), Some(12345));
    assert_eq!(parse_ffprobe_duration_ms("0.5"), Some(500));
    assert_eq!(parse_ffprobe_duration_ms("N/A"), None);
    assert_eq!(parse_ffprobe_duration_ms(""), None);
    assert_eq!(parse_ffprobe_duration_ms("-1"), None);
}

#[test]
fn ffprobe_duration_rounds_to_the_nearer_millisecond_and_refuses_zero() {
    assert_eq!(parse_ffprobe_duration_ms("1.0004"), Some(1000));
    assert_eq!(parse_ffprobe_duration_ms("1.0005"), Some(1001));
    assert_eq!(parse_ffprobe_duration_ms("  7.25\r\nextra"), Some(7250));
    assert_eq!(parse_ffprobe_duration_ms("0.000"), None);
    assert_eq!(parse_ffprobe_duration_ms("0.0001"), Some(0));
}

#[test]
fn an_import_refuses_each_thing_it_cannot_take_with_its_own_sentence() {
    assert_eq!(import_source_path("   "), Err("That import path is empty.".to_string()));
    assert_eq!(import_source_path("  C:\\in\\a.flac "), Ok("C:\\in\\a.flac".to_string()));
    assert_eq!(
        check_import_source("C:\\in\\a.flac", false, false).err(),
        Some("That file could not be read. It may have been moved or deleted.".to_string())
    );
    assert_eq!(
        check_import_source("C:\\in", true, false).err(),
        Some("Only files can be imported, not folders.".to_string())
    );
    assert_eq!(
        check_import_source("C:\\in\\notes.txt", true, true).err(),
        Some(format!(
            "notes.txt is not a supported audio or video file. {}",
            supported_extensions_sentence()
        ))
    );
    let source = check_import_source("C:\\in\\a.flac", true, true).expect("a flac imports");
    assert_eq!(source.file_name, "a.flac");
    assert_eq!(source.plan, ImportPlan::Passthrough);
    assert_eq!(
        check_import_target("a.mp3", true),
        Err("a.mp3 is already in the recordings folder.".to_string())
    );
    assert_eq!(check_import_target("a.mp3", false), Ok(()));
    assert_eq!(
        check_import_output("a.flac", 0),
        Err("a.flac produced an empty audio file.".to_string())
    );
    assert_eq!(check_import_output("a.flac", 1), Ok(()));
}
