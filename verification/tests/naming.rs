use wonder_of_u::library::naming::{
    candidate_stem_exec, sanitize_recording_name, tagged_sibling_name, unique_path_candidate,
};

#[test]
fn reserved_and_control_characters_become_single_spaces_and_the_ends_are_trimmed() {
    assert_eq!(sanitize_recording_name("  a<b>c:d  "), "a b c d");
    assert_eq!(sanitize_recording_name("what?/\\|*\"now\""), "what now");
    assert_eq!(sanitize_recording_name("tab\there\nnewline"), "tab here newline");
    assert_eq!(sanitize_recording_name("\u{3000}全角\u{3000}\u{3000}空白\u{3000}"), "全角 空白");
    assert_eq!(sanitize_recording_name("<>:"), "");
}

#[test]
fn sanitizing_a_sanitized_name_changes_nothing() {
    for raw in [
        "  a<b>c:d  ",
        "tab\there\u{7f}\u{85}x",
        "\u{3000}全角\u{3000}\u{3000}空白\u{3000}",
        "plain",
        "",
    ] {
        let once = sanitize_recording_name(raw);
        assert_eq!(sanitize_recording_name(&once), once, "{raw:?}");
    }
}

#[test]
fn a_taken_stem_is_numbered_from_one() {
    assert_eq!(candidate_stem_exec("clip", 0), "clip");
    assert_eq!(candidate_stem_exec("clip", 1), "clip_1");
    assert_eq!(candidate_stem_exec("clip", 12), "clip_12");
    assert_eq!(tagged_sibling_name("clip", "ja", "txt"), "clip.ja.txt");
}

#[test]
fn a_new_file_tries_its_stem_then_numbered_ones() {
    assert_eq!(unique_path_candidate("C:\\rec", "lesson", ".wav", 0), "C:\\rec\\lesson.wav");
    assert_eq!(unique_path_candidate("C:\\rec", "lesson", ".wav", 2), "C:\\rec\\lesson_2.wav");
    assert_eq!(unique_path_candidate("C:\\rec\\", "", ".mp3", 1), "C:\\rec\\recording_1.mp3");
}
