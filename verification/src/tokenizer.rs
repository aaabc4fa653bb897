//! Japanese text split into words with lindera and its IPADIC dictionary, each word with
//! the form it is listed under in a dictionary.
use vstd::prelude::*;

use crate::text::{chars_of, push_chars, push_str, seq_eq, string_of};

verus! {

/// The IPADIC field that holds a word's dictionary form.
pub const BASE_FORM_FIELD: &'static str = "base_form";

/// What IPADIC writes into a field it has no value for.
pub const UNKNOWN_FIELD_VALUE: &'static str = "*";

/// One analysed word: what appeared in the text, and what to look it up under.
#[derive(Debug, Clone, PartialEq, Eq)]
pub struct JapaneseToken {
    pub surface: String,
    pub base_form: String,
}

/// The form a word is counted under: its base form, unless IPADIC has none for it (no
/// field, an empty one, or `*`), in which case the word stands for itself.
pub open spec fn resolved_base_form(surface: Seq<char>, base_form: Option<Seq<char>>) -> Seq<char> {
    match base_form {
        Some(v) => if v != UNKNOWN_FIELD_VALUE@ && v.len() > 0 {
            v
        } else {
            surface
        },
        None => surface,
    }
}

pub fn resolve_base_form(surface: &str, base_form: Option<&str>) -> (out: String)
    ensures
        out@ == resolved_base_form(
            surface@,
            match base_form {
                Some(v) => Some(v@),
                None => None,
            },
        ),
{
    match base_form {
        Some(value) => {
            let v = chars_of(value);
            if !seq_eq(v.as_slice(), chars_of(UNKNOWN_FIELD_VALUE).as_slice()) && v.len() > 0 {
                value.to_string()
            } else {
                surface.to_string()
            }
        },
        None => surface.to_string(),
    }
}

#[verifier::external_type_specification]
#[verifier::external_body]
pub struct ExDictionary(lindera::dictionary::Dictionary);

#[verifier::external_type_specification]
#[verifier::external_body]
pub struct ExSegmenter(lindera::segmenter::Segmenter);

#[verifier::external_type_specification]
#[verifier::external_body]
pub struct ExToken<'a>(lindera::token::Token<'a>);

/// Calls lindera's `load_fs_dictionary` on the directory, with the error as its text. What
/// comes back depends on the files on disk, so nothing is promised of it.
#[verifier::external_body]
fn load_dictionary(path: &str) -> (r: Result<lindera::dictionary::Dictionary, String>) {
    lindera::dictionary::load_fs_dictionary(std::path::Path::new(path)).map_err(|error| error.to_string())
}

/// Calls lindera's `Segmenter::new` in normal mode with no user dictionary.
#[verifier::external_body]
fn segmenter_for(dictionary: lindera::dictionary::Dictionary) -> (s: lindera::segmenter::Segmenter) {
    lindera::segmenter::Segmenter::new(lindera::mode::Mode::Normal, dictionary, None)
}

/// `parts` are slices of `text`, in order and without overlap: the `k`-th is
/// `text[starts[k]..ends[k])`, and each ends at or before the next begins.
pub open spec fn slices_in_order(parts: Seq<Seq<char>>, text: Seq<char>) -> bool {
    exists|starts: Seq<int>, ends: Seq<int>|
        #![trigger starts.len(), ends.len()]
        {
            &&& starts.len() == parts.len()
            &&& ends.len() == parts.len()
            &&& forall|k: int|
                0 <= k < parts.len() ==> 0 <= #[trigger] starts[k] <= ends[k] <= text.len() && parts[k]
                    == text.subrange(starts[k], ends[k])
            &&& forall|j: int, k: int| 0 <= j < k < parts.len() ==> #[trigger] ends[j] <= #[trigger] starts[k]
        }
}

/// The texts of a list of strings.
pub open spec fn string_views(v: Seq<String>) -> Seq<Seq<char>> {
    v.map_values(|x: String| x@)
}

/// Calls lindera's `Segmenter::segment` on the text, borrowed, and reads each token's
/// `surface` out beside it. lindera's `segment_with_buffers` has no error path, and
/// builds every surface as the slice of the text between the token's absolute start and
/// end, sentence after sentence and token after token; that is what is claimed here.
/// Which characters the tokens cover is not claimed: lindera drops a token made only of
/// characters the dictionary's character definition puts in its `SPACE` class, and a
/// sentence the lattice finds no path through (a character class with no unknown-word
/// entry) gives no tokens at all. Both come from the dictionary files on disk, not from
/// the text. Which words it finds is lindera's answer as well.
#[verifier::external_body]
fn segment<'a>(segmenter: &'a lindera::segmenter::Segmenter, text: &'a str) -> (r: Result<
    (Vec<String>, Vec<lindera::token::Token<'a>>),
    String,
>)
    ensures
        r is Ok,
        r matches Ok((surfaces, tokens)) ==> surfaces@.len() == tokens@.len() && slices_in_order(
            string_views(surfaces@),
            text@,
        ),
{
    let tokens = segmenter.segment(std::borrow::Cow::Borrowed(text)).map_err(|error| error.to_string())?;
    let surfaces = tokens.iter().map(|token| token.surface.to_string()).collect();
    Ok((surfaces, tokens))
}

/// Calls lindera's `Token::get` for a field by name. What it holds comes from the
/// dictionary, so nothing is promised of it.
#[verifier::external_body]
fn token_field(token: &mut lindera::token::Token, field: &str) -> (r: Option<String>) {
    token.get(field).map(|value| value.to_string())
}

/// A dictionary directory loaded into a segmenter, or the sentence that says which
/// directory failed and why.
pub fn build_segmenter(dictionary_path: &str) -> (r: Result<lindera::segmenter::Segmenter, String>)
    ensures
        r matches Err(m) ==> exists|reason: Seq<char>|
            m@ == "The Japanese dictionary at "@ + dictionary_path@ + " could not be loaded: "@ + reason,
{
    match load_dictionary(dictionary_path) {
        Ok(dictionary) => Ok(segmenter_for(dictionary)),
        Err(error) => {
            let mut m = chars_of("The Japanese dictionary at ");
            push_str(&mut m, dictionary_path);
            push_str(&mut m, " could not be loaded: ");
            let ghost before = m@;
            push_str(&mut m, error.as_str());
            assert(m@ == "The Japanese dictionary at "@ + dictionary_path@ + " could not be loaded: "@ + error@);
            Err(string_of(m.as_slice()))
        },
    }
}

/// Whether a dictionary directory loads: everything lindera needs is read here.
pub fn dictionary_loads(dictionary_path: &str) -> (r: Result<(), String>)
    ensures
        r matches Err(m) ==> exists|reason: Seq<char>|
            m@ == "The Japanese dictionary at "@ + dictionary_path@ + " could not be loaded: "@ + reason,
{
    match build_segmenter(dictionary_path) {
        Ok(_) => Ok(()),
        Err(e) => Err(e),
    }
}

/// A word as lindera reports it: the text it covers, and its base-form field where the
/// dictionary has one.
pub open spec fn word_view(word: (String, Option<String>)) -> (Seq<char>, Option<Seq<char>>) {
    (
        word.0@,
        match word.1 {
            Some(v) => Some(v@),
            None => None,
        },
    )
}

/// `tokens` are `words`, one for one and in order, each under the form it is counted under.
pub open spec fn tokens_of_words(
    tokens: Seq<JapaneseToken>,
    words: Seq<(Seq<char>, Option<Seq<char>>)>,
) -> bool {
    &&& tokens.len() == words.len()
    &&& forall|i: int|
        0 <= i < words.len() ==> (#[trigger] tokens[i]).surface@ == words[i].0 && tokens[i].base_form@
            == resolved_base_form(words[i].0, words[i].1)
}

/// The tokens of the words lindera found: each word's surface, and the form it is counted
/// under.
pub fn tokens_from_words(words: &[(String, Option<String>)]) -> (tokens: Vec<JapaneseToken>)
    ensures
        tokens_of_words(tokens@, words@.map_values(|w: (String, Option<String>)| word_view(w))),
{
    let ghost wv = words@.map_values(|w: (String, Option<String>)| word_view(w));
    let mut out: Vec<JapaneseToken> = Vec::new();
    let mut i: usize = 0;
    while i < words.len()
        invariant
            i <= words@.len(),
            wv == words@.map_values(|w: (String, Option<String>)| word_view(w)),
            out@.len() == i,
            forall|k: int|
                0 <= k < i ==> (#[trigger] out@[k]).surface@ == wv[k].0 && out@[k].base_form@
                    == resolved_base_form(wv[k].0, wv[k].1),
        decreases words.len() - i,
    {
        let (surface, field) = &words[i];
        let base_form = match field {
            Some(v) => resolve_base_form(surface.as_str(), Some(v.as_str())),
            None => resolve_base_form(surface.as_str(), None),
        };
        out.push(JapaneseToken { surface: surface.clone(), base_form });
        proof {
            assert(wv[i as int] == word_view(words@[i as int]));
        }
        i = i + 1;
    }
    out
}

/// The surfaces of a list of tokens.
pub open spec fn surfaces_of(tokens: Seq<JapaneseToken>) -> Seq<Seq<char>> {
    tokens.map_values(|t: JapaneseToken| t.surface@)
}

/// What tokenizing `text` gives: words that are slices of the text, in order and without
/// overlap, each under its dictionary form where IPADIC has one and under itself where it
/// has none. Which words, and which forms, are lindera's answer.
pub open spec fn tokens_of_text(tokens: Seq<JapaneseToken>, text: Seq<char>) -> bool {
    &&& slices_in_order(surfaces_of(tokens), text)
    &&& exists|fields: Seq<Option<Seq<char>>>|
        #![trigger fields.len()]
        fields.len() == tokens.len() && forall|i: int|
            0 <= i < tokens.len() ==> (#[trigger] tokens[i]).base_form@ == resolved_base_form(
                tokens[i].surface@,
                fields[i],
            )
}

/// Splits Japanese text into words with a loaded segmenter, each with the form it is
/// looked up under: a word IPADIC has no base form for stands for itself, so no word is
/// ever counted as `*`. The words are slices of the text, in order and without overlap;
/// how much of the text they cover rests on the dictionary the segmenter was loaded from,
/// and is not claimed. What is done with lindera's words is `tokens_from_words`.
pub fn tokenize_with(text: &str, segmenter: &lindera::segmenter::Segmenter) -> (tokens: Vec<JapaneseToken>)
    ensures
        tokens_of_text(tokens@, text@),
        forall|i: int|
            0 <= i < tokens@.len() ==> #[trigger] tokens@[i].base_form@ == tokens@[i].surface@ || (
            tokens@[i].base_form@ != UNKNOWN_FIELD_VALUE@ && tokens@[i].base_form@.len() > 0),
{
    let (surfaces, mut raw) = match segment(segmenter, text) {
        Ok(found) => found,
        Err(_) => {
            assert(false);
            (Vec::new(), Vec::new())
        },
    };
    let mut words: Vec<(String, Option<String>)> = Vec::new();
    let mut i: usize = 0;
    while i < raw.len()
        invariant
            i <= raw@.len(),
            raw@.len() == surfaces@.len(),
            words@.len() == i,
            forall|k: int| 0 <= k < i ==> (#[trigger] words@[k]).0@ == surfaces@[k]@,
        decreases raw.len() - i,
    {
        let surface = surfaces[i].clone();
        let field = token_field(&mut raw[i], BASE_FORM_FIELD);
        words.push((surface, field));
        i = i + 1;
    }
    let tokens = tokens_from_words(words.as_slice());
    let ghost wv = words@.map_values(|w: (String, Option<String>)| word_view(w));
    proof {
        assert(surfaces_of(tokens@) =~= string_views(surfaces@)) by {
            assert forall|k: int| 0 <= k < tokens@.len() implies surfaces_of(tokens@)[k] == string_views(
                surfaces@,
            )[k] by {
                assert(tokens@[k].surface@ == wv[k].0);
                assert(wv[k] == word_view(words@[k]));
            }
        }
        let fields = Seq::new(tokens@.len(), |k: int| wv[k].1);
        assert forall|k: int| 0 <= k < tokens@.len() implies (#[trigger] tokens@[k]).base_form@
            == resolved_base_form(tokens@[k].surface@, fields[k]) by {
            assert(tokens@[k].surface@ == wv[k].0);
        }
        assert(fields.len() == tokens@.len());
    }
    assert forall|k: int| 0 <= k < tokens@.len() implies #[trigger] tokens@[k].base_form@
        == tokens@[k].surface@ || (tokens@[k].base_form@ != UNKNOWN_FIELD_VALUE@
        && tokens@[k].base_form@.len() > 0) by {
        assert(tokens@[k].surface@ == wv[k].0);
    }
    tokens
}

/// Splits Japanese text into words with the dictionary at `dictionary_path`. The
/// dictionary is loaded on each call; when it does not load, the sentence that says which
/// directory failed and why comes back.
pub fn tokenize_japanese(text: &str, dictionary_path: &str) -> (r: Result<Vec<JapaneseToken>, String>)
    ensures
        match r {
            Ok(tokens) => tokens_of_text(tokens@, text@),
            Err(m) => exists|reason: Seq<char>|
                m@ == "The Japanese dictionary at "@ + dictionary_path@ + " could not be loaded: "@ + reason,
        },
{
    match build_segmenter(dictionary_path) {
        Ok(segmenter) => Ok(tokenize_with(text, &segmenter)),
        Err(m) => Err(m),
    }
}

} // verus!
