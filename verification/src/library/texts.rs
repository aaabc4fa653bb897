//! What the names of a recording's text files say: a translation sidecar is named
//! `{stem}.translation.{lang}.txt`.
use vstd::prelude::*;

use crate::paths::{file_name, file_name_of};
use crate::text::{chars_of, ends_with, ends_with_exec, occurs_at, occurs_at_exec, string_of};

verus! {

/// The last place at or before `i` where `p` occurs in `s`.
pub open spec fn last_at_or_before(s: Seq<char>, p: Seq<char>, i: int) -> Option<int>
    decreases i + 1,
{
    if i < 0 {
        None
    } else if occurs_at(s, p, i) {
        Some(i)
    } else {
        last_at_or_before(s, p, i - 1)
    }
}

/// Searching back from `i` finds the occurrence at `k` when none lies between them.
pub proof fn lemma_last_at_or_before_finds(s: Seq<char>, p: Seq<char>, k: int, i: int)
    requires
        0 <= k <= i,
        occurs_at(s, p, k),
        forall|j: int| k < j <= i ==> !#[trigger] occurs_at(s, p, j),
    ensures
        last_at_or_before(s, p, i) == Some(k),
    decreases i - k,
{
    if i > k {
        lemma_last_at_or_before_finds(s, p, k, i - 1);
    }
}

/// What follows the tag found at `found` in `base`, where that is not empty; else `en`.
pub open spec fn language_after(base: Seq<char>, tag: Seq<char>, found: Option<int>) -> Seq<char> {
    match found {
        Some(i) => if base.len() - (i + tag.len()) > 0 {
            base.skip(i + tag.len())
        } else {
            "en"@
        },
        None => "en"@,
    }
}

/// A file name less its `.txt` ending.
pub open spec fn without_txt(name: Seq<char>) -> Seq<char> {
    if ends_with(name, ".txt"@) {
        name.take(name.len() - ".txt"@.len())
    } else {
        name
    }
}

/// The language a translation sidecar's name carries: what follows its last
/// `.translation.`, less a `.txt` ending; `en` where the name carries none.
pub open spec fn translation_language_of(path: Seq<char>) -> Seq<char> {
    let base = without_txt(file_name_of(path));
    let tag = ".translation."@;
    language_after(base, tag, last_at_or_before(base, tag, base.len() - tag.len()))
}

/// Pulls the `{lang}` out of a `{stem}.translation.{lang}.txt` sidecar name, defaulting to
/// `en` when the name carries no language.
pub fn parse_translation_language(path: &str) -> (language: String)
    ensures
        language@ == translation_language_of(path@),
{
    let all = chars_of(path);
    let name = file_name(all.as_slice());
    let txt = chars_of(".txt");
    let base = if ends_with_exec(name.as_slice(), txt.as_slice()) {
        crate::text::slice_to_vec(name.as_slice(), 0, name.len() - txt.len())
    } else {
        crate::text::slice_to_vec(name.as_slice(), 0, name.len())
    };
    proof {
        assert(name@.subrange(0, name@.len() as int) =~= name@);
        assert(base@ == without_txt(file_name_of(path@)));
    }
    let tag = chars_of(".translation.");
    let en = "en";
    if tag.len() > base.len() {
        return en.to_string();
    }
    let mut i: usize = base.len() - tag.len();
    loop
        invariant
            i + tag@.len() <= base@.len(),
            tag@ == ".translation."@,
            en@ == "en"@,
            translation_language_of(path@) == language_after(
                base@,
                tag@,
                last_at_or_before(base@, tag@, i as int),
            ),
        decreases i,
    {
        if occurs_at_exec(base.as_slice(), tag.as_slice(), i) {
            assert(i + tag.len() <= base.len());
            let start = i + tag.len();
            if base.len() - start > 0 {
                let language = crate::text::slice_to_vec(base.as_slice(), start, base.len());
                proof {
                    assert(language@ =~= base@.skip(start as int));
                }
                return string_of(language.as_slice());
            }
            return en.to_string();
        }
        if i == 0 {
            proof {
                assert(last_at_or_before(base@, tag@, -1) is None);
            }
            return en.to_string();
        }
        i = i - 1;
    }
}

} // verus!
