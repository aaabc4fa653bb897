//! The translation languages and models the app offers, and where a translation is written.
use vstd::prelude::*;

use crate::paths::{file_name_of, has_parent, join, parent_of};
use crate::text::{chars_of, eq_ignore_ascii_case, lower_seq, string_of, trim, trimmed};

verus! {

#[derive(Debug, Clone, Copy)]
pub struct TranslationLanguageSpec {
    pub id: &'static str,
    pub label: &'static str,
    pub whisper_code: &'static str,
    pub nllb_code: &'static str,
}

#[derive(Debug, Clone, Copy)]
pub struct ManagedTranslationFileSpec {
    pub relative_path: &'static str,
    pub download_url: &'static str,
}

#[derive(Debug, Clone)]
pub struct TranslationModelSpec {
    pub id: &'static str,
    pub label: &'static str,
    pub files: Vec<ManagedTranslationFileSpec>,
}

/// What a Python runtime reported about itself.
#[derive(Debug, Clone)]
pub struct PythonRuntimeProbe {
    pub executable_path: String,
    pub missing_modules: Vec<String>,
}

/// One translation run.
#[derive(Debug, Clone)]
pub struct TranslationRequest {
    pub python_path: String,
    pub bridge_script_path: String,
    pub model_dir: String,
    pub transcript_path: String,
    pub output_path: String,
    pub source_language: String,
    pub target_language: String,
}

#[derive(Debug, Clone)]
pub struct TranslationResult {
    pub translation_path: String,
}

pub open spec fn lang(
    id: &'static str,
    label: &'static str,
    whisper_code: &'static str,
    nllb_code: &'static str,
) -> TranslationLanguageSpec {
    TranslationLanguageSpec { id, label, whisper_code, nllb_code }
}

/// The languages, in the order the app lists them.
pub open spec fn language_table() -> Seq<TranslationLanguageSpec> {
    seq![
        lang("en", "English", "en", "eng_Latn"),
        lang("ja", "Japanese", "ja", "jpn_Jpan"),
        lang("hi", "Hindi", "hi", "hin_Deva"),
        lang("es", "Spanish", "es", "spa_Latn"),
        lang("fr", "French", "fr", "fra_Latn"),
        lang("de", "German", "de", "deu_Latn"),
        lang("ko", "Korean", "ko", "kor_Hang"),
        lang("zh", "Chinese (Simplified)", "zh", "zho_Hans"),
        lang("pt", "Portuguese", "pt", "por_Latn"),
        lang("ru", "Russian", "ru", "rus_Cyrl"),
    ]
}

/// The NLLB code that names the language with this id, for the ids the app offers: Spanish
/// is `spa_Latn`, Portuguese `por_Latn`, and so on.
pub open spec fn nllb_code_for(id: Seq<char>) -> Option<Seq<char>> {
    if id.len() == 2 && id[0] == 'e' && id[1] == 'n' {
        Some("eng_Latn"@)
    } else if id.len() == 2 && id[0] == 'j' && id[1] == 'a' {
        Some("jpn_Jpan"@)
    } else if id.len() == 2 && id[0] == 'h' && id[1] == 'i' {
        Some("hin_Deva"@)
    } else if id.len() == 2 && id[0] == 'e' && id[1] == 's' {
        Some("spa_Latn"@)
    } else if id.len() == 2 && id[0] == 'f' && id[1] == 'r' {
        Some("fra_Latn"@)
    } else if id.len() == 2 && id[0] == 'd' && id[1] == 'e' {
        Some("deu_Latn"@)
    } else if id.len() == 2 && id[0] == 'k' && id[1] == 'o' {
        Some("kor_Hang"@)
    } else if id.len() == 2 && id[0] == 'z' && id[1] == 'h' {
        Some("zho_Hans"@)
    } else if id.len() == 2 && id[0] == 'p' && id[1] == 't' {
        Some("por_Latn"@)
    } else if id.len() == 2 && id[0] == 'r' && id[1] == 'u' {
        Some("rus_Cyrl"@)
    } else {
        None
    }
}

/// Each language the app offers is sent to the model under the code of that language,
/// and whisper's code for it is its id.
pub proof fn law_each_language_carries_its_own_code()
    ensures
        forall|i: int|
            0 <= i < language_table().len() ==> nllb_code_for(#[trigger] language_table()[i].id@) == Some(
                language_table()[i].nllb_code@,
            ) && language_table()[i].whisper_code@ == language_table()[i].id@,
{
    reveal_strlit("en");
    reveal_strlit("eng_Latn");
    reveal_strlit("ja");
    reveal_strlit("jpn_Jpan");
    reveal_strlit("hi");
    reveal_strlit("hin_Deva");
    reveal_strlit("es");
    reveal_strlit("spa_Latn");
    reveal_strlit("fr");
    reveal_strlit("fra_Latn");
    reveal_strlit("de");
    reveal_strlit("deu_Latn");
    reveal_strlit("ko");
    reveal_strlit("kor_Hang");
    reveal_strlit("zh");
    reveal_strlit("zho_Hans");
    reveal_strlit("pt");
    reveal_strlit("por_Latn");
    reveal_strlit("ru");
    reveal_strlit("rus_Cyrl");
    assert forall|i: int| 0 <= i < language_table().len() implies nllb_code_for(
        #[trigger] language_table()[i].id@,
    ) == Some(language_table()[i].nllb_code@) && language_table()[i].whisper_code@ == language_table()[i].id@ by {
        if i == 0 {
        } else if i == 1 {
        } else if i == 2 {
        } else if i == 3 {
        } else if i == 4 {
        } else if i == 5 {
        } else if i == 6 {
        } else if i == 7 {
        } else if i == 8 {
        } else {
        }
    }
}

/// The languages a transcript can be translated into.
pub fn translation_language_specs() -> (specs: Vec<TranslationLanguageSpec>)
    ensures
        specs@ == language_table(),
        forall|i: int| 0 <= i < specs@.len() ==> nllb_code_for(#[trigger] specs@[i].id@) == Some(specs@[i].nllb_code@),
{
    proof {
        law_each_language_carries_its_own_code();
    }
    let specs = vec![
        TranslationLanguageSpec { id: "en", label: "English", whisper_code: "en", nllb_code: "eng_Latn" },
        TranslationLanguageSpec { id: "ja", label: "Japanese", whisper_code: "ja", nllb_code: "jpn_Jpan" },
        TranslationLanguageSpec { id: "hi", label: "Hindi", whisper_code: "hi", nllb_code: "hin_Deva" },
        TranslationLanguageSpec { id: "es", label: "Spanish", whisper_code: "es", nllb_code: "spa_Latn" },
        TranslationLanguageSpec { id: "fr", label: "French", whisper_code: "fr", nllb_code: "fra_Latn" },
        TranslationLanguageSpec { id: "de", label: "German", whisper_code: "de", nllb_code: "deu_Latn" },
        TranslationLanguageSpec { id: "ko", label: "Korean", whisper_code: "ko", nllb_code: "kor_Hang" },
        TranslationLanguageSpec {
            id: "zh",
            label: "Chinese (Simplified)",
            whisper_code: "zh",
            nllb_code: "zho_Hans",
        },
        TranslationLanguageSpec { id: "pt", label: "Portuguese", whisper_code: "pt", nllb_code: "por_Latn" },
        TranslationLanguageSpec { id: "ru", label: "Russian", whisper_code: "ru", nllb_code: "rus_Cyrl" },
    ];
    assert(specs@ =~= language_table());
    specs
}

/// The model ids, in the order the app lists them; the first is the default.
pub open spec fn model_ids() -> Seq<&'static str> {
    seq!["distilled-600m-int8", "distilled-1.3b-int8", "3.3b-int8"]
}

pub open spec fn file_row(relative_path: &'static str, download_url: &'static str) -> ManagedTranslationFileSpec {
    ManagedTranslationFileSpec { relative_path, download_url }
}

/// The distilled 600M model's files.
pub open spec fn small_model_files() -> Seq<ManagedTranslationFileSpec> {
    seq![
        file_row("config.json", "https://huggingface.co/skywood/nllb-200-distilled-600M-ct2-int8/resolve/main/config.json"),
        file_row("model.bin", "https://huggingface.co/skywood/nllb-200-distilled-600M-ct2-int8/resolve/main/model.bin"),
        file_row("sentencepiece.bpe.model", "https://huggingface.co/skywood/nllb-200-distilled-600M-ct2-int8/resolve/main/sentencepiece.bpe.model"),
        file_row("shared_vocabulary.json", "https://huggingface.co/skywood/nllb-200-distilled-600M-ct2-int8/resolve/main/shared_vocabulary.json"),
        file_row("special_tokens_map.json", "https://huggingface.co/skywood/nllb-200-distilled-600M-ct2-int8/resolve/main/special_tokens_map.json"),
        file_row("tokenizer.json", "https://huggingface.co/skywood/nllb-200-distilled-600M-ct2-int8/resolve/main/tokenizer.json"),
        file_row("tokenizer_config.json", "https://huggingface.co/skywood/nllb-200-distilled-600M-ct2-int8/resolve/main/tokenizer_config.json"),
    ]
}

/// The distilled 1.3B model's files.
pub open spec fn medium_model_files() -> Seq<ManagedTranslationFileSpec> {
    seq![
        file_row("config.json", "https://huggingface.co/OpenNMT/nllb-200-distilled-1.3B-ct2-int8/resolve/main/config.json"),
        file_row("generation_config.json", "https://huggingface.co/OpenNMT/nllb-200-distilled-1.3B-ct2-int8/resolve/main/generation_config.json"),
        file_row("model.bin", "https://huggingface.co/OpenNMT/nllb-200-distilled-1.3B-ct2-int8/resolve/main/model.bin"),
        file_row("shared_vocabulary.json", "https://huggingface.co/OpenNMT/nllb-200-distilled-1.3B-ct2-int8/resolve/main/shared_vocabulary.json"),
        file_row("special_tokens_map.json", "https://huggingface.co/OpenNMT/nllb-200-distilled-1.3B-ct2-int8/resolve/main/special_tokens_map.json"),
        file_row("tokenizer.json", "https://huggingface.co/OpenNMT/nllb-200-distilled-1.3B-ct2-int8/resolve/main/tokenizer.json"),
        file_row("tokenizer_config.json", "https://huggingface.co/OpenNMT/nllb-200-distilled-1.3B-ct2-int8/resolve/main/tokenizer_config.json"),
    ]
}

/// The 3.3B model's files.
pub open spec fn large_model_files() -> Seq<ManagedTranslationFileSpec> {
    seq![
        file_row("config.json", "https://huggingface.co/OpenNMT/nllb-200-3.3B-ct2-int8/resolve/main/config.json"),
        file_row("generation_config.json", "https://huggingface.co/OpenNMT/nllb-200-3.3B-ct2-int8/resolve/main/generation_config.json"),
        file_row("model.bin", "https://huggingface.co/OpenNMT/nllb-200-3.3B-ct2-int8/resolve/main/model.bin"),
        file_row("shared_vocabulary.json", "https://huggingface.co/OpenNMT/nllb-200-3.3B-ct2-int8/resolve/main/shared_vocabulary.json"),
        file_row("special_tokens_map.json", "https://huggingface.co/OpenNMT/nllb-200-3.3B-ct2-int8/resolve/main/special_tokens_map.json"),
        file_row("tokenizer.json", "https://huggingface.co/OpenNMT/nllb-200-3.3B-ct2-int8/resolve/main/tokenizer.json"),
        file_row("tokenizer_config.json", "https://huggingface.co/OpenNMT/nllb-200-3.3B-ct2-int8/resolve/main/tokenizer_config.json"),
    ]
}

/// The model labels, in the order of `model_ids`.
pub open spec fn model_labels() -> Seq<&'static str> {
    seq!["Distilled 600M", "Distilled 1.3B", "3.3B"]
}

/// The files of the model at place `i`.
pub open spec fn model_files(i: int) -> Seq<ManagedTranslationFileSpec> {
    if i == 0 {
        small_model_files()
    } else if i == 1 {
        medium_model_files()
    } else {
        large_model_files()
    }
}

/// `spec` is the model at place `i` of the table, files and all.
pub open spec fn is_model_row(spec: TranslationModelSpec, i: int) -> bool {
    &&& spec.id == model_ids()[i]
    &&& spec.label == model_labels()[i]
    &&& spec.files@ == model_files(i)
}

fn file(relative_path: &'static str, download_url: &'static str) -> (f: ManagedTranslationFileSpec)
    ensures
        f == file_row(relative_path, download_url),
{
    ManagedTranslationFileSpec { relative_path, download_url }
}

/// The models and the files each one is downloaded as.
pub fn translation_model_specs() -> (specs: Vec<TranslationModelSpec>)
    ensures
        specs@.len() == 3,
        forall|i: int| 0 <= i < 3 ==> is_model_row(#[trigger] specs@[i], i),
{
    let small = vec![
        file("config.json", "https://huggingface.co/skywood/nllb-200-distilled-600M-ct2-int8/resolve/main/config.json"),
        file("model.bin", "https://huggingface.co/skywood/nllb-200-distilled-600M-ct2-int8/resolve/main/model.bin"),
        file("sentencepiece.bpe.model", "https://huggingface.co/skywood/nllb-200-distilled-600M-ct2-int8/resolve/main/sentencepiece.bpe.model"),
        file("shared_vocabulary.json", "https://huggingface.co/skywood/nllb-200-distilled-600M-ct2-int8/resolve/main/shared_vocabulary.json"),
        file("special_tokens_map.json", "https://huggingface.co/skywood/nllb-200-distilled-600M-ct2-int8/resolve/main/special_tokens_map.json"),
        file("tokenizer.json", "https://huggingface.co/skywood/nllb-200-distilled-600M-ct2-int8/resolve/main/tokenizer.json"),
        file("tokenizer_config.json", "https://huggingface.co/skywood/nllb-200-distilled-600M-ct2-int8/resolve/main/tokenizer_config.json"),
    ];
    assert(small@ =~= small_model_files());
    let medium = vec![
        file("config.json", "https://huggingface.co/OpenNMT/nllb-200-distilled-1.3B-ct2-int8/resolve/main/config.json"),
        file("generation_config.json", "https://huggingface.co/OpenNMT/nllb-200-distilled-1.3B-ct2-int8/resolve/main/generation_config.json"),
        file("model.bin", "https://huggingface.co/OpenNMT/nllb-200-distilled-1.3B-ct2-int8/resolve/main/model.bin"),
        file("shared_vocabulary.json", "https://huggingface.co/OpenNMT/nllb-200-distilled-1.3B-ct2-int8/resolve/main/shared_vocabulary.json"),
        file("special_tokens_map.json", "https://huggingface.co/OpenNMT/nllb-200-distilled-1.3B-ct2-int8/resolve/main/special_tokens_map.json"),
        file("tokenizer.json", "https://huggingface.co/OpenNMT/nllb-200-distilled-1.3B-ct2-int8/resolve/main/tokenizer.json"),
        file("tokenizer_config.json", "https://huggingface.co/OpenNMT/nllb-200-distilled-1.3B-ct2-int8/resolve/main/tokenizer_config.json"),
    ];
    assert(medium@ =~= medium_model_files());
    let large = vec![
        file("config.json", "https://huggingface.co/OpenNMT/nllb-200-3.3B-ct2-int8/resolve/main/config.json"),
        file("generation_config.json", "https://huggingface.co/OpenNMT/nllb-200-3.3B-ct2-int8/resolve/main/generation_config.json"),
        file("model.bin", "https://huggingface.co/OpenNMT/nllb-200-3.3B-ct2-int8/resolve/main/model.bin"),
        file("shared_vocabulary.json", "https://huggingface.co/OpenNMT/nllb-200-3.3B-ct2-int8/resolve/main/shared_vocabulary.json"),
        file("special_tokens_map.json", "https://huggingface.co/OpenNMT/nllb-200-3.3B-ct2-int8/resolve/main/special_tokens_map.json"),
        file("tokenizer.json", "https://huggingface.co/OpenNMT/nllb-200-3.3B-ct2-int8/resolve/main/tokenizer.json"),
        file("tokenizer_config.json", "https://huggingface.co/OpenNMT/nllb-200-3.3B-ct2-int8/resolve/main/tokenizer_config.json"),
    ];
    assert(large@ =~= large_model_files());
    let specs = vec![
        TranslationModelSpec { id: "distilled-600m-int8", label: "Distilled 600M", files: small },
        TranslationModelSpec { id: "distilled-1.3b-int8", label: "Distilled 1.3B", files: medium },
        TranslationModelSpec { id: "3.3b-int8", label: "3.3B", files: large },
    ];
    specs
}

pub fn default_translation_target_id() -> (id: &'static str)
    ensures
        id == "en",
{
    "en"
}

pub fn default_translation_model_id() -> (id: &'static str)
    ensures
        id == model_ids()[0],
{
    "distilled-600m-int8"
}

pub fn default_translation_model_choice() -> (id: String)
    ensures
        id@ == model_ids()[0]@,
{
    default_translation_model_id().to_owned()
}

pub fn default_translation_target_choice() -> (id: String)
    ensures
        id@ == "en"@,
{
    default_translation_target_id().to_owned()
}

/// Whether `name` names `wanted`, ignoring ASCII case and the whitespace around `wanted`.
pub open spec fn names(name: &'static str, wanted: Seq<char>) -> bool {
    lower_seq(name@) == lower_seq(trim(wanted))
}

/// The model `model_id` names, or the first model when it names none.
pub fn translation_model_spec(model_id: &str) -> (spec: TranslationModelSpec)
    ensures
        (exists|i: int|
            0 <= i < 3 && names(model_ids()[i], model_id@) && is_model_row(spec, i) && (forall|j: int|
                0 <= j < i ==> !names(#[trigger] model_ids()[j], model_id@))) || ((forall|j: int|
            0 <= j < 3 ==> !names(#[trigger] model_ids()[j], model_id@)) && is_model_row(spec, 0)),
{
    let wanted = trimmed(chars_of(model_id).as_slice());
    let mut specs = translation_model_specs();
    let mut i: usize = 0;
    while i < specs.len()
        invariant
            specs@.len() == 3,
            forall|k: int| 0 <= k < 3 ==> is_model_row(#[trigger] specs@[k], k),
            wanted@ == trim(model_id@),
            i <= 3,
            forall|j: int| 0 <= j < i ==> !names(#[trigger] model_ids()[j], model_id@),
        decreases specs.len() - i,
    {
        let id = chars_of(specs[i].id);
        if eq_ignore_ascii_case(id.as_slice(), wanted.as_slice()) {
            return specs.swap_remove(i);
        }
        i = i + 1;
    }
    specs.swap_remove(0)
}

/// Whether `spec`'s field `field` names `wanted`.
pub open spec fn lang_matches(field: &'static str, wanted: Seq<char>) -> bool {
    names(field, wanted)
}

/// The first language whose id names `language_id`.
pub fn translation_language_spec(language_id: &str) -> (r: Option<TranslationLanguageSpec>)
    ensures
        r matches Some(spec) ==> nllb_code_for(spec.id@) == Some(spec.nllb_code@),
        match r {
            Some(spec) => exists|i: int|
                0 <= i < language_table().len() && spec == language_table()[i] && names(
                    language_table()[i].id,
                    language_id@,
                ) && forall|j: int| 0 <= j < i ==> !names(#[trigger] language_table()[j].id, language_id@),
            None => forall|j: int|
                0 <= j < language_table().len() ==> !names(#[trigger] language_table()[j].id, language_id@),
        },
{
    let wanted = trimmed(chars_of(language_id).as_slice());
    let specs = translation_language_specs();
    let mut i: usize = 0;
    while i < specs.len()
        invariant
            specs@ == language_table(),
            wanted@ == trim(language_id@),
            i <= specs@.len(),
            forall|j: int| 0 <= j < i ==> !names(#[trigger] language_table()[j].id, language_id@),
        decreases specs.len() - i,
    {
        let id = chars_of(specs[i].id);
        if eq_ignore_ascii_case(id.as_slice(), wanted.as_slice()) {
            proof {
                law_each_language_carries_its_own_code();
                assert(nllb_code_for(language_table()[i as int].id@) == Some(language_table()[i as int].nllb_code@));
            }
            return Some(specs[i]);
        }
        i = i + 1;
    }
    None
}

/// The first language whose whisper code names `whisper_code`.
pub fn translation_language_from_whisper_code(whisper_code: &str) -> (r: Option<TranslationLanguageSpec>)
    ensures
        r matches Some(spec) ==> nllb_code_for(spec.id@) == Some(spec.nllb_code@),
        match r {
            Some(spec) => exists|i: int|
                0 <= i < language_table().len() && spec == language_table()[i] && names(
                    language_table()[i].whisper_code,
                    whisper_code@,
                ) && forall|j: int|
                    0 <= j < i ==> !names(#[trigger] language_table()[j].whisper_code, whisper_code@),
            None => forall|j: int|
                0 <= j < language_table().len() ==> !names(
                    #[trigger] language_table()[j].whisper_code,
                    whisper_code@,
                ),
        },
{
    let wanted = trimmed(chars_of(whisper_code).as_slice());
    let specs = translation_language_specs();
    let mut i: usize = 0;
    while i < specs.len()
        invariant
            specs@ == language_table(),
            wanted@ == trim(whisper_code@),
            i <= specs@.len(),
            forall|j: int|
                0 <= j < i ==> !names(#[trigger] language_table()[j].whisper_code, whisper_code@),
        decreases specs.len() - i,
    {
        let code = chars_of(specs[i].whisper_code);
        if eq_ignore_ascii_case(code.as_slice(), wanted.as_slice()) {
            proof {
                law_each_language_carries_its_own_code();
                assert(nllb_code_for(language_table()[i as int].id@) == Some(language_table()[i as int].nllb_code@));
            }
            return Some(specs[i]);
        }
        i = i + 1;
    }
    None
}

/// `<name>.translation.<target>.txt` beside the transcript, where `<name>` is the
/// transcript's file name less a `.transcript.txt` ending; in `.` when the transcript
/// path has no parent.
pub open spec fn translation_output_spec(transcript_path: Seq<char>, target_language: Seq<char>) -> Seq<char> {
    let name = file_name_of(transcript_path);
    let file = if name.len() == 0 { "recording.transcript.txt"@ } else { name };
    let suffix = ".transcript.txt"@;
    let base = if crate::text::ends_with(file, suffix) {
        file.take(file.len() - suffix.len())
    } else {
        file
    };
    let dir = if has_parent(transcript_path) { parent_of(transcript_path) } else { "."@ };
    join(dir, base + ".translation."@ + target_language + ".txt"@)
}

pub fn translation_output_path(transcript_path: &str, target_language: &str) -> (path: String)
    ensures
        path@ == translation_output_spec(transcript_path@, target_language@),
{
    proof {
        reveal_strlit("recording.transcript.txt");
        reveal_strlit(".transcript.txt");
        reveal_strlit(".translation.");
        reveal_strlit(".txt");
        reveal_strlit(".");
    }
    let path = chars_of(transcript_path);
    let name = crate::paths::file_name(path.as_slice());
    let file = if name.len() == 0 {
        chars_of("recording.transcript.txt")
    } else {
        name
    };
    let suffix = chars_of(".transcript.txt");
    let base = if crate::text::ends_with_exec(file.as_slice(), suffix.as_slice()) {
        crate::text::slice_to_vec(file.as_slice(), 0, file.len() - suffix.len())
    } else {
        file
    };
    let mut out_name = base;
    crate::text::push_str(&mut out_name, ".translation.");
    crate::text::push_str(&mut out_name, target_language);
    crate::text::push_str(&mut out_name, ".txt");
    let parent = if crate::paths::has_parent_exec(path.as_slice()) {
        crate::paths::parent(path.as_slice())
    } else {
        chars_of(".")
    };
    let joined = crate::paths::join_exec(parent.as_slice(), out_name.as_slice());
    string_of(joined.as_slice())
}

/// `.translation.` occurs in `.translation.` followed by `lang` only where it opens it:
/// no tag ends inside `lang` or runs across its start.
pub open spec fn tag_opens_only(lang: Seq<char>) -> bool {
    forall|j: int|
        0 < j <= lang.len() ==> !#[trigger] crate::text::occurs_at(".translation."@ + lang, ".translation."@, j)
}

/// The language written into a translation file's name reads back unchanged, wherever
/// the transcript lies, for a tag that is not empty, holds no separator, and does not
/// make up a second `.translation.` with the one before it.
pub proof fn law_a_translation_name_reads_back_its_language(transcript_path: Seq<char>, lang: Seq<char>)
    requires
        lang.len() > 0,
        forall|k: int| 0 <= k < lang.len() ==> !crate::paths::is_sep(#[trigger] lang[k]),
        tag_opens_only(lang),
    ensures
        crate::library::texts::translation_language_of(translation_output_spec(transcript_path, lang))
            == lang,
{
    reveal_strlit(".translation.");
    reveal_strlit(".txt");
    reveal_strlit(".transcript.txt");
    reveal_strlit("recording.transcript.txt");
    reveal_strlit(".");
    let tag = ".translation."@;
    let txt = ".txt"@;
    let suffix = ".transcript.txt"@;
    let t = crate::paths::trim_tail(transcript_path.skip(crate::paths::drive_len(transcript_path)));
    crate::paths::lemma_last_sep(t);
    let name = file_name_of(transcript_path);
    assert forall|k: int| 0 <= k < name.len() implies !crate::paths::is_sep(#[trigger] name[k]) by {
        assert(name[k] == t[crate::paths::last_sep(t) + 1 + k]);
    }
    reveal_strlit("..");
    let fallback = "recording.transcript.txt"@;
    let file = if name.len() == 0 { fallback } else { name };
    assert forall|k: int| 0 <= k < file.len() implies !crate::paths::is_sep(#[trigger] file[k]) by {
        if name.len() == 0 {
            assert(fallback[k] != '/' && fallback[k] != '\\');
        }
    }
    let base = if crate::text::ends_with(file, suffix) {
        file.take(file.len() - suffix.len())
    } else {
        file
    };
    assert forall|k: int| 0 <= k < base.len() implies !crate::paths::is_sep(#[trigger] base[k]) by {
        assert(base[k] == file[k]);
    }
    let out_name = base + tag + lang + txt;
    assert forall|k: int| 0 <= k < out_name.len() implies !crate::paths::is_sep(#[trigger] out_name[k]) by {
        if k < base.len() {
            assert(out_name[k] == base[k]);
        } else if k < base.len() + tag.len() {
            assert(out_name[k] == tag[k - base.len()]);
        } else if k < base.len() + tag.len() + lang.len() {
            assert(out_name[k] == lang[k - base.len() - tag.len()]);
        } else {
            assert(out_name[k] == txt[k - base.len() - tag.len() - lang.len()]);
        }
    }
    let dir = if has_parent(transcript_path) { parent_of(transcript_path) } else { "."@ };
    assert(translation_output_spec(transcript_path, lang) == join(dir, out_name));
    assert(out_name.last() == txt[3]);
    crate::paths::lemma_file_name_of_join(dir, out_name);
    // A drive the name would begin with can only come from the base.
    let d = crate::paths::drive_len(out_name);
    if d == 2 {
        if base.len() == 0 {
            assert(out_name[1] == tag[1]);
        } else if base.len() == 1 {
            assert(out_name[1] == tag[0]);
        }
    }
    assert(d <= base.len());
    let b2 = base.skip(d);
    assert(out_name.skip(d) =~= b2 + tag + lang + txt);
    lemma_name_reads_back(b2, lang);
}

/// A file name `<b>.translation.<lang>.txt` reads back `lang`.
proof fn lemma_name_reads_back(b: Seq<char>, lang: Seq<char>)
    requires
        lang.len() > 0,
        tag_opens_only(lang),
    ensures
        ({
            let tag = ".translation."@;
            let s = b + tag + lang;
            &&& crate::library::texts::without_txt(s + ".txt"@) == s
            &&& crate::library::texts::language_after(
                s,
                tag,
                crate::library::texts::last_at_or_before(s, tag, s.len() - tag.len()),
            ) == lang
        }),
{
    reveal_strlit(".translation.");
    reveal_strlit(".txt");
    let tag = ".translation."@;
    let txt = ".txt"@;
    let fname = b + tag + lang + txt;
    let s = b + tag + lang;
    assert(fname.subrange(fname.len() - txt.len(), fname.len() as int) =~= txt);
    assert(fname.take(fname.len() - txt.len()) =~= s);
    let n = b.len() as int;
    assert(s.subrange(n, n + tag.len()) =~= tag);
    assert forall|j: int| n < j <= s.len() - tag.len() implies !#[trigger] crate::text::occurs_at(s, tag, j) by {
        let x = tag + lang;
        assert(s.subrange(j, j + tag.len()) =~= x.subrange(j - n, j - n + tag.len()));
        assert(!crate::text::occurs_at(x, tag, j - n));
    }
    crate::library::texts::lemma_last_at_or_before_finds(s, tag, n, s.len() - tag.len());
    assert(s.skip(n + tag.len()) =~= lang);
}

} // verus!
