use wonder_of_u::translation::{
    default_translation_model_choice, default_translation_model_id,
    default_translation_target_choice, default_translation_target_id,
    translation_language_from_whisper_code, translation_language_spec, translation_model_spec,
    translation_model_specs, translation_output_path,
};
use wonder_of_u::library::texts::parse_translation_language;

#[test]
fn translation_output_path_reuses_transcript_stem() {
    let translation_path = translation_output_path("C:\\Temp\\lesson.transcript.txt", "en");
    assert_eq!(translation_path, "C:\\Temp\\lesson.translation.en.txt");
}

#[test]
fn whisper_language_lookup_maps_supported_codes() {
    let language = translation_language_from_whisper_code("ja").unwrap();
    assert_eq!(language.id, "ja");
    assert_eq!(language.nllb_code, "jpn_Jpan");
}

#[test]
fn the_defaults_name_a_model_and_a_language_that_exist() {
    assert_eq!(default_translation_target_choice(), default_translation_target_id());
    assert_eq!(default_translation_model_choice(), default_translation_model_id());
    assert!(translation_language_spec(default_translation_target_id()).is_some());
    assert_eq!(
        translation_model_spec(default_translation_model_id()).id,
        default_translation_model_id()
    );
    assert!(translation_language_spec("xx-not-a-language").is_none());
}

#[test]
fn translation_output_path_reads_a_trailing_separator_as_the_end_of_the_name() {
    assert_eq!(translation_output_path("a/b/", "en"), "a\\b.translation.en.txt");
    assert_eq!(translation_output_path("C:/a/b/", "en"), "C:/a\\b.translation.en.txt");
    assert_eq!(translation_output_path("C:lesson.transcript.txt", "en"), "C:lesson.translation.en.txt");
    assert_eq!(translation_output_path("C:\\lesson.transcript.txt", "en"), "C:\\lesson.translation.en.txt");
    assert_eq!(translation_output_path("a//b.transcript.txt", "en"), "a\\b.translation.en.txt");
    assert_eq!(translation_output_path("", "en"), ".\\recording.translation.en.txt");
    assert_eq!(translation_output_path("a/b/.", "en"), "a\\b.translation.en.txt");
    assert_eq!(translation_output_path("a/..", "en"), "a\\recording.translation.en.txt");
}

#[test]
fn a_translation_name_reads_back_its_language() {
    for language in ["ja", "en", "zh-Hans", "pt_BR"] {
        let path = translation_output_path("C:\\Temp\\lesson.transcript.txt", language);
        assert_eq!(parse_translation_language(&path), language);
    }
    let path = translation_output_path("C:\\Temp\\lesson.transcript.txt", "translation.y");
    assert_eq!(parse_translation_language(&path), "y", "a tag that forms a second marker");
}

#[test]
fn every_model_carries_its_weights() {
    for id in ["distilled-600m-int8", "distilled-1.3b-int8", "3.3b-int8", "unknown"] {
        let spec = translation_model_spec(id);
        assert!(spec.files.iter().any(|file| file.relative_path == "model.bin"));
        assert!(spec
            .files
            .iter()
            .all(|file| file.download_url.ends_with(file.relative_path)));
    }
    assert_eq!(translation_model_spec(" 3.3B-INT8 ").id, "3.3b-int8");
    assert_eq!(translation_model_spec("unknown").id, "distilled-600m-int8");
    let specs = translation_model_specs();
    assert_eq!(specs[1].files[1].relative_path, "generation_config.json");
    assert_eq!(
        specs[2].files[2].download_url,
        "https://huggingface.co/OpenNMT/nllb-200-3.3B-ct2-int8/resolve/main/model.bin"
    );
}

#[test]
fn a_language_is_found_by_its_id_in_any_case() {
    assert_eq!(translation_language_spec(" JA ").expect("Japanese").nllb_code, "jpn_Jpan");
    assert!(translation_language_spec("auto").is_none());
}
