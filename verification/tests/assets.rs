use wonder_of_u::assets::{
    alass_args, alass_archive_entry, collect_managed_alass_candidates,
    collect_managed_mpv_candidates, collect_managed_ytdlp_candidates,
    managed_dictionary_install_directory, managed_ffmpeg_install_directory,
    managed_mpv_install_directory, managed_ytdlp_install_directory, version_from_banner,
};

/// Two paths as Windows compares them: `\` and `/` both separate components.
fn same_path(a: &str, b: &str) -> bool {
    a.replace('\\', "/") == b.replace('\\', "/")
}


#[test]
fn reads_the_version_from_each_tools_real_banner() {
    assert_eq!(
        version_from_banner(
            "ffmpeg version 7.1-full_build-www.gyan.dev Copyright (c) 2000-2024\nbuilt with gcc"
        )
        .as_deref(),
        Some("7.1-full_build-www.gyan.dev")
    );
    assert_eq!(version_from_banner("alass 2.0.0").as_deref(), Some("2.0.0"));
    assert_eq!(version_from_banner("2026.07.04").as_deref(), Some("2026.07.04"));
}

#[test]
fn the_name_is_dropped_by_position_so_a_renamed_binary_still_reads() {
    assert_eq!(version_from_banner("alass-cli 2.0.0").as_deref(), Some("2.0.0"));
}

#[test]
fn a_banner_with_no_version_is_none_rather_than_the_tools_own_name() {
    assert_eq!(version_from_banner("alass"), None);
    assert_eq!(version_from_banner(""), None);
    assert_eq!(version_from_banner("   \n  \n"), None);
    assert_eq!(version_from_banner("ffmpeg version"), None);
    assert_eq!(version_from_banner("ffmpeg built with gcc"), None);
}

#[test]
fn leading_blank_lines_are_skipped() {
    assert_eq!(
        version_from_banner("\n\n  ffmpeg version 6.0 Copyright").as_deref(),
        Some("6.0")
    );
}

#[test]
fn the_cli_is_found_wherever_the_archive_puts_it() {
    let names = vec![
        "alass-windows64/".to_string(),
        "alass-windows64/bin/LICENSE.txt".to_string(),
        "alass-windows64/bin/alass-cli.exe".to_string(),
        "alass-windows64/ffmpeg/bin/ffmpeg.exe".to_string(),
    ];
    assert_eq!(
        alass_archive_entry(&names).as_deref(),
        Some("alass-windows64/bin/alass-cli.exe")
    );
}

#[test]
fn the_bundled_ffmpeg_is_never_mistaken_for_the_cli() {
    let names = vec![
        "alass-windows64/ffmpeg/bin/ffmpeg.exe".to_string(),
        "alass-windows64/ffmpeg/bin/ffprobe.exe".to_string(),
    ];
    assert!(alass_archive_entry(&names).is_none());
}

#[test]
fn backslash_archives_still_match() {
    let names = vec!["alass-windows64\\bin\\alass-cli.exe".to_string()];
    assert!(alass_archive_entry(&names).is_some());
}

#[test]
fn the_video_is_the_reference_and_the_output_is_last() {
    let args = alass_args("video.mkv", "wrong.srt", "fixed.srt");
    assert_eq!(
        args,
        vec![
            "--disable-fps-guessing",
            "--speed-optimization",
            "0",
            "video.mkv",
            "wrong.srt",
            "fixed.srt"
        ]
    );
}

#[test]
fn framerate_guessing_is_always_disabled() {
    assert!(alass_args("a.mkv", "b.srt", "c.srt")
        .iter()
        .any(|arg| arg == "--disable-fps-guessing"));
}

#[test]
fn managed_install_directory_is_the_mpv_subfolder() {
    assert_eq!(managed_mpv_install_directory("C:\\assets"), "C:\\assets\\mpv");
}

#[test]
fn managed_candidates_cover_the_nested_archive_layout() {
    let candidates = collect_managed_mpv_candidates("C:\\assets");
    assert!(candidates.contains(&"C:\\assets\\mpv\\mpv.exe".to_string()));
    assert!(candidates.contains(&"C:\\assets\\mpv\\mpv\\mpv.exe".to_string()));
    assert_eq!(candidates.len(), 3);
}

#[test]
fn managed_install_directory_is_the_yt_dlp_subfolder() {
    assert_eq!(managed_ytdlp_install_directory("C:\\assets"), "C:\\assets\\yt-dlp");
}

#[test]
fn managed_candidates_cover_both_exe_and_bare_names_without_duplicates() {
    let candidates = collect_managed_ytdlp_candidates("C:\\assets");
    assert!(candidates.contains(&"C:\\assets\\yt-dlp\\yt-dlp.exe".to_string()));
    assert!(candidates.contains(&"C:\\assets\\yt-dlp\\yt-dlp".to_string()));
    assert_eq!(candidates.len(), 2);
}

#[test]
fn the_install_directory_is_pinned_to_the_dictionary_version() {
    assert_eq!(
        managed_dictionary_install_directory("C:\\assets"),
        "C:\\assets\\lindera-ipadic\\4.0.0"
    );
}

#[test]
fn the_other_managed_tools_land_under_the_asset_folder() {
    assert_eq!(
        managed_ffmpeg_install_directory("C:\\assets"),
        "C:\\assets\\ffmpeg-runtime\\latest"
    );
    let candidates = collect_managed_alass_candidates("D:/tools");
    let expected = ["D:/tools/alass/alass-cli.exe", "D:/tools/alass/alass-cli"];
    assert_eq!(candidates.len(), expected.len());
    assert!(candidates.iter().zip(expected).all(|(a, b)| same_path(a, b)));
}
