use wonder_of_u::library::texts::parse_translation_language;

#[test]
fn parses_translation_language_from_filename() {
    assert_eq!(parse_translation_language("clip.translation.fr.txt"), "fr");
    assert_eq!(
        parse_translation_language("a.b.c_100.translation.zh-hans.txt"),
        "zh-hans"
    );
    // No language tag in the name falls back to English.
    assert_eq!(parse_translation_language("clip.transcript.txt"), "en");
}

#[test]
fn the_last_tag_in_the_file_name_decides_and_an_empty_one_is_english() {
    assert_eq!(
        parse_translation_language("C:/x.translation.de/clip.translation.ja.translation.ko.txt"),
        "ko"
    );
    assert_eq!(parse_translation_language("clip.translation..txt"), "en");
    assert_eq!(parse_translation_language("clip.translation.pt"), "pt");
    assert_eq!(parse_translation_language(""), "en");
}
