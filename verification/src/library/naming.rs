//! How library files are named: a title made safe for a file name, the stem a link import
//! lands under, and the names a transcript's files take beside their audio.
use vstd::prelude::*;

use crate::text::{
    chars_of, decimal, decimal_exec, is_ws, push_chars, push_str, string_of, trim, trim_end, trim_start,
    trimmed,
};

verus! {

/// Characters a Windows file name cannot hold.
pub open spec fn is_reserved_name_char(c: char) -> bool {
    c == '<' || c == '>' || c == ':' || c == '"' || c == '/' || c == '\\' || c == '|' || c == '?'
        || c == '*'
}

/// `char::is_control`: the C0 and C1 control characters.
pub open spec fn is_control(c: char) -> bool {
    (c as u32) < 0x20 || (0x7f <= (c as u32) && (c as u32) < 0xa0)
}

/// Each reserved or control character becomes a space.
pub open spec fn name_char(c: char) -> char {
    if is_reserved_name_char(c) || is_control(c) {
        ' '
    } else {
        c
    }
}

/// Every run of whitespace as one space.
pub open spec fn squeeze(s: Seq<char>) -> Seq<char>
    decreases s.len(),
{
    if s.len() == 0 {
        Seq::empty()
    } else {
        let r = squeeze(s.drop_last());
        let c = s.last();
        if is_ws(c) {
            if r.len() > 0 && r.last() == ' ' {
                r
            } else {
                r.push(' ')
            }
        } else {
            r.push(c)
        }
    }
}

/// A title as a file name: reserved and control characters read as spaces, whitespace runs
/// collapsed to one space, and none at either end.
pub open spec fn sanitized_name(s: Seq<char>) -> Seq<char> {
    trim(squeeze(s.map_values(|c: char| name_char(c))))
}

fn name_char_exec(c: char) -> (out: char)
    ensures
        out == name_char(c),
{
    let code = c as u32;
    if c == '<' || c == '>' || c == ':' || c == '"' || c == '/' || c == '\\' || c == '|' || c == '?'
        || c == '*' || code < 0x20 || (0x7f <= code && code < 0xa0) {
        ' '
    } else {
        c
    }
}

/// Makes a title safe to use as a file name.
pub fn sanitize_recording_name(name: &str) -> (out: String)
    ensures
        out@ == sanitized_name(name@),
{
    let chars = chars_of(name);
    let ghost mapped = name@.map_values(|c: char| name_char(c));
    let mut out: Vec<char> = Vec::new();
    let mut i: usize = 0;
    while i < chars.len()
        invariant
            i <= chars@.len(),
            chars@ == name@,
            mapped == name@.map_values(|c: char| name_char(c)),
            out@ == squeeze(mapped.take(i as int)),
        decreases chars.len() - i,
    {
        let c = name_char_exec(chars[i]);
        assert(mapped.take(i + 1).drop_last() =~= mapped.take(i as int));
        assert(mapped.take(i + 1).last() == c);
        if crate::text::is_ws_char(c) {
            if !(out.len() > 0 && out[out.len() - 1] == ' ') {
                out.push(' ');
            }
        } else {
            out.push(c);
        }
        i = i + 1;
    }
    assert(mapped.take(chars@.len() as int) =~= mapped);
    string_of(trimmed(out.as_slice()).as_slice())
}

/// Numbered names never repeat: two different attempts give two different stems.
pub proof fn law_numbered_stems_never_repeat(base: Seq<char>, a: nat, b: nat)
    requires
        a != b,
    ensures
        candidate_stem(base, a) != candidate_stem(base, b),
{
    crate::text::lemma_decimal_value(a);
    crate::text::lemma_decimal_value(b);
    if a > 0 && b > 0 {
        if candidate_stem(base, a) == candidate_stem(base, b) {
            let n: int = base.len() as int + 1;
            assert(candidate_stem(base, a).skip(n) =~= decimal(a));
            assert(candidate_stem(base, b).skip(n) =~= decimal(b));
        }
    } else if a == 0 {
        assert(candidate_stem(base, b).len() > base.len());
    } else {
        assert(candidate_stem(base, a).len() > base.len());
    }
}

/// A character a sanitized name can hold: a plain space, or one that is neither whitespace
/// nor a character a file name cannot hold.
pub open spec fn name_safe(c: char) -> bool {
    c == ' ' || (!is_ws(c) && !is_reserved_name_char(c) && !is_control(c))
}

/// Only safe characters, and never two spaces in a row.
pub open spec fn squeezed_safe(t: Seq<char>) -> bool {
    &&& forall|i: int| 0 <= i < t.len() ==> name_safe(#[trigger] t[i])
    &&& forall|i: int| 0 < i < t.len() ==> !(t[i - 1] == ' ' && #[trigger] t[i] == ' ')
}

proof fn lemma_squeeze_is_safe(s: Seq<char>)
    requires
        forall|i: int| 0 <= i < s.len() ==> is_ws(#[trigger] s[i]) || (!is_reserved_name_char(s[i])
            && !is_control(s[i])),
    ensures
        squeezed_safe(squeeze(s)),
    decreases s.len(),
{
    if s.len() > 0 {
        let d = s.drop_last();
        assert forall|i: int| 0 <= i < d.len() implies is_ws(#[trigger] d[i]) || (
        !is_reserved_name_char(d[i]) && !is_control(d[i])) by {
            assert(d[i] == s[i]);
        }
        lemma_squeeze_is_safe(d);
        let r = squeeze(d);
        let c = s.last();
        assert(is_ws(c) || (!is_reserved_name_char(c) && !is_control(c))) by {
            assert(c == s[s.len() - 1]);
        }
        let out = squeeze(s);
        if is_ws(c) && !(r.len() > 0 && r.last() == ' ') {
            assert(out == r.push(' '));
            assert forall|i: int| 0 < i < out.len() implies !(out[i - 1] == ' ' && #[trigger] out[i]
                == ' ') by {
                if i == out.len() - 1 {
                    assert(out[i - 1] == r.last());
                } else {
                    assert(out[i] == r[i] && out[i - 1] == r[i - 1]);
                }
            }
            assert forall|i: int| 0 <= i < out.len() implies name_safe(#[trigger] out[i]) by {
                if i < r.len() {
                    assert(out[i] == r[i]);
                }
            }
        } else if !is_ws(c) {
            assert(out == r.push(c));
            assert forall|i: int| 0 < i < out.len() implies !(out[i - 1] == ' ' && #[trigger] out[i]
                == ' ') by {
                if i < out.len() - 1 {
                    assert(out[i] == r[i] && out[i - 1] == r[i - 1]);
                }
            }
            assert forall|i: int| 0 <= i < out.len() implies name_safe(#[trigger] out[i]) by {
                if i < r.len() {
                    assert(out[i] == r[i]);
                }
            }
        }
    }
}

proof fn lemma_squeeze_keeps_safe(t: Seq<char>)
    requires
        squeezed_safe(t),
    ensures
        squeeze(t) == t,
    decreases t.len(),
{
    if t.len() > 0 {
        let d = t.drop_last();
        assert(squeezed_safe(d)) by {
            assert forall|i: int| 0 <= i < d.len() implies name_safe(#[trigger] d[i]) by {
                assert(d[i] == t[i]);
            }
            assert forall|i: int| 0 < i < d.len() implies !(d[i - 1] == ' ' && #[trigger] d[i]
                == ' ') by {
                assert(d[i] == t[i] && d[i - 1] == t[i - 1]);
            }
        }
        lemma_squeeze_keeps_safe(d);
        let c = t.last();
        assert(name_safe(t[t.len() - 1]));
        if is_ws(c) {
            assert(c == ' ');
            if d.len() > 0 {
                assert(!(t[t.len() - 2] == ' ' && t[t.len() - 1] == ' '));
                assert(d.last() == t[t.len() - 2]);
            }
        }
        assert(d.push(c) =~= t);
    }
}

proof fn lemma_trim_start_drops_a_prefix(s: Seq<char>)
    ensures
        exists|k: int|
            0 <= k <= s.len() && trim_start(s) == s.skip(k) && (k == s.len() || !is_ws(s[k])),
    decreases s.len(),
{
    if s.len() > 0 && is_ws(s[0]) {
        lemma_trim_start_drops_a_prefix(s.drop_first());
        let k = choose|k: int|
            0 <= k <= s.drop_first().len() && trim_start(s.drop_first()) == s.drop_first().skip(k)
                && (k == s.drop_first().len() || !is_ws(s.drop_first()[k]));
        assert(s.drop_first().skip(k) =~= s.skip(k + 1));
        if k < s.drop_first().len() {
            assert(s.drop_first()[k] == s[k + 1]);
        }
    } else {
        assert(s.skip(0) =~= s);
    }
}

proof fn lemma_trim_end_drops_a_suffix(s: Seq<char>)
    ensures
        exists|j: int| 0 <= j <= s.len() && trim_end(s) == s.take(j) && (j == 0 || !is_ws(s[j - 1])),
    decreases s.len(),
{
    if s.len() > 0 && is_ws(s.last()) {
        lemma_trim_end_drops_a_suffix(s.drop_last());
        let j = choose|j: int|
            0 <= j <= s.drop_last().len() && trim_end(s.drop_last()) == s.drop_last().take(j) && (j
                == 0 || !is_ws(s.drop_last()[j - 1]));
        assert(s.drop_last().take(j) =~= s.take(j));
        if j > 0 {
            assert(s.drop_last()[j - 1] == s[j - 1]);
        }
    } else {
        assert(s.take(s.len() as int) =~= s);
    }
}

/// Sanitizing a name that was already sanitized leaves it as it is.
pub proof fn law_a_sanitized_name_stays_as_it_is(s: Seq<char>)
    ensures
        sanitized_name(sanitized_name(s)) == sanitized_name(s),
{
    let mapped = s.map_values(|c: char| name_char(c));
    assert forall|i: int| 0 <= i < mapped.len() implies is_ws(#[trigger] mapped[i]) || (
    !is_reserved_name_char(mapped[i]) && !is_control(mapped[i])) by {}
    lemma_squeeze_is_safe(mapped);
    let q = squeeze(mapped);
    lemma_trim_start_drops_a_prefix(q);
    let k = choose|k: int|
        0 <= k <= q.len() && trim_start(q) == q.skip(k) && (k == q.len() || !is_ws(q[k]));
    let u = q.skip(k);
    lemma_trim_end_drops_a_suffix(u);
    let j = choose|j: int| 0 <= j <= u.len() && trim_end(u) == u.take(j) && (j == 0 || !is_ws(u[j - 1]));
    let t = u.take(j);
    assert(t == sanitized_name(s));
    assert(squeezed_safe(t)) by {
        assert forall|i: int| 0 <= i < t.len() implies name_safe(#[trigger] t[i]) by {
            assert(t[i] == q[i + k]);
        }
        assert forall|i: int| 0 < i < t.len() implies !(t[i - 1] == ' ' && #[trigger] t[i] == ' ') by {
            assert(t[i] == q[i + k] && t[i - 1] == q[i - 1 + k]);
        }
    }
    assert(t.map_values(|c: char| name_char(c)) =~= t) by {
        assert forall|i: int| 0 <= i < t.len() implies name_char(t[i]) == t[i] by {
            assert(name_safe(t[i]));
        }
    }
    lemma_squeeze_keeps_safe(t);
    if t.len() > 0 {
        assert(t[0] == q[k]);
        assert(!is_ws(t[0]));
        assert(trim_start(t) == t);
        assert(!is_ws(t.last()));
        assert(trim_end(t) == t);
    } else {
        assert(trim_start(t) == t);
        assert(trim_end(t) == t);
    }
}

/// The stem a link import lands under: `title [id]`, either half alone when the other
/// sanitizes away, and `youtube` when both do.
pub open spec fn youtube_stem(title: Seq<char>, id: Seq<char>) -> Seq<char> {
    let t = sanitized_name(title);
    let i = sanitized_name(id);
    if t.len() > 0 && i.len() > 0 {
        t + " ["@ + i + "]"@
    } else if t.len() > 0 {
        t
    } else if i.len() > 0 {
        i
    } else {
        "youtube"@
    }
}

pub fn youtube_output_stem(title: &str, id: &str) -> (out: String)
    ensures
        out@ == youtube_stem(title@, id@),
{
    proof {
        reveal_strlit(" [");
        reveal_strlit("]");
    }
    let t = sanitize_recording_name(title);
    let i = sanitize_recording_name(id);
    let tc = chars_of(t.as_str());
    let ic = chars_of(i.as_str());
    if tc.len() > 0 && ic.len() > 0 {
        let mut out = tc;
        push_str(&mut out, " [");
        push_chars(&mut out, ic.as_slice());
        push_str(&mut out, "]");
        string_of(out.as_slice())
    } else if tc.len() > 0 {
        t
    } else if ic.len() > 0 {
        i
    } else {
        "youtube".to_string()
    }
}

/// The first `n` characters of `s`.
pub open spec fn prefix(s: Seq<char>, n: nat) -> Seq<char> {
    if s.len() <= n {
        s
    } else {
        s.take(n as int)
    }
}

/// A new recording is named after its transcript: the text with whitespace collapsed, its
/// first ten characters, made safe for a file name; a title that comes out empty is an
/// error.
pub open spec fn transcript_title(text: Seq<char>) -> Option<Seq<char>> {
    let t = sanitized_name(prefix(trim(squeeze(text)), 10));
    if t.len() == 0 {
        None
    } else {
        Some(t)
    }
}

/// Whitespace runs of a squeezed text are single plain spaces.
pub open spec fn squeezed_shape(t: Seq<char>) -> bool {
    &&& forall|i: int| 0 <= i < t.len() && is_ws(#[trigger] t[i]) ==> t[i] == ' '
    &&& forall|i: int| 0 < i < t.len() ==> !(t[i - 1] == ' ' && #[trigger] t[i] == ' ')
}

proof fn lemma_squeeze_shape(s: Seq<char>)
    ensures
        squeezed_shape(squeeze(s)),
    decreases s.len(),
{
    if s.len() > 0 {
        let d = s.drop_last();
        lemma_squeeze_shape(d);
        let r = squeeze(d);
        let c = s.last();
        let out = squeeze(s);
        if is_ws(c) && r.len() > 0 && r.last() == ' ' {
        } else {
            let x = if is_ws(c) { ' ' } else { c };
            assert(out == r.push(x));
            assert forall|i: int| 0 <= i < out.len() && is_ws(#[trigger] out[i]) implies out[i] == ' ' by {
                if i < r.len() {
                    assert(out[i] == r[i]);
                }
            }
            assert forall|i: int| 0 < i < out.len() implies !(out[i - 1] == ' ' && #[trigger] out[i] == ' ') by {
                if i < r.len() {
                    assert(out[i] == r[i] && out[i - 1] == r[i - 1]);
                } else {
                    assert(out[i - 1] == r.last());
                }
            }
        }
    }
}

/// A recording named after its transcript is named after the transcript's opening: the
/// title is the first ten characters of the whitespace-collapsed text (all of it when it is
/// shorter), made safe for a file name.
pub proof fn law_a_transcript_title_is_its_opening(text: Seq<char>)
    ensures
        ({
            let c = trim(squeeze(text));
            let n = if c.len() < 10 { c.len() as int } else { 10 };
            &&& transcript_title(text) is Some ==> transcript_title(text)->Some_0 == sanitized_name(c.take(n))
            &&& transcript_title(text) is None ==> sanitized_name(c.take(n)).len() == 0
        }),
{
    let c = trim(squeeze(text));
    if c.len() <= 10 {
        assert(c.take(c.len() as int) =~= c);
    }
}

/// A transcript whose collapsed text opens with ten characters a file name can hold, the
/// last of them not a space, is named exactly those ten characters.
pub proof fn law_a_plain_opening_is_the_title(text: Seq<char>)
    requires
        trim(squeeze(text)).len() >= 10,
        forall|i: int|
            0 <= i < 10 ==> !is_reserved_name_char(#[trigger] trim(squeeze(text))[i]) && !is_control(
                trim(squeeze(text))[i],
            ),
        !is_ws(trim(squeeze(text))[9]),
    ensures
        transcript_title(text) == Some(trim(squeeze(text)).take(10)),
{
    let q = squeeze(text);
    let c = trim(q);
    let p = c.take(10);
    lemma_squeeze_shape(text);
    lemma_trim_start_drops_a_prefix(q);
    let k = choose|k: int| 0 <= k <= q.len() && trim_start(q) == q.skip(k) && (k == q.len() || !is_ws(q[k]));
    let u = q.skip(k);
    lemma_trim_end_drops_a_suffix(u);
    let j = choose|j: int| 0 <= j <= u.len() && trim_end(u) == u.take(j) && (j == 0 || !is_ws(u[j - 1]));
    assert(c == u.take(j));
    assert(c.len() == j && j <= q.len() - k);
    assert forall|i: int| 0 <= i < c.len() implies c[i] == q[k + i] && k + i < q.len() by {}
    assert(!is_ws(c[0])) by {
        assert(c[0] == q[k]);
    }
    assert(squeezed_safe(p)) by {
        assert forall|i: int| 0 <= i < p.len() implies name_safe(#[trigger] p[i]) by {
            assert(p[i] == c[i]);
            assert(c[i] == q[k + i] && 0 <= k + i < q.len());
            assert(squeezed_shape(q));
            if is_ws(q[k + i]) {
                assert(q[k + i] == ' ');
            }
        }
        assert forall|i: int| 0 < i < p.len() implies !(p[i - 1] == ' ' && #[trigger] p[i] == ' ') by {
            assert(p[i] == q[k + i] && p[i - 1] == q[k + i - 1]);
            assert(0 < k + i < q.len());
            assert(squeezed_shape(q));
            assert(!(q[k + i - 1] == ' ' && q[k + i] == ' '));
        }
    }
    let mapped = p.map_values(|ch: char| name_char(ch));
    assert(mapped =~= p) by {
        assert forall|i: int| 0 <= i < p.len() implies mapped[i] == p[i] by {
            assert(p[i] == c[i]);
        }
    }
    lemma_squeeze_keeps_safe(p);
    assert(!is_ws(p[0]) && !is_ws(p[9]));
    assert(trim_start(p) == p);
    assert(trim_end(p) == p) by {
        assert(p.last() == p[9]);
    }
    assert(sanitized_name(p) == p);
    assert(prefix(c, 10) == p);
}

pub fn derive_transcript_stem(transcript: &str) -> (r: Result<String, String>)
    ensures
        match r {
            Ok(s) => transcript_title(transcript@) == Some(s@),
            Err(m) => transcript_title(transcript@) is None && m@ == "The generated transcript title was empty."@,
        },
{
    let chars = chars_of(transcript);
    let mut out: Vec<char> = Vec::new();
    let mut i: usize = 0;
    while i < chars.len()
        invariant
            i <= chars@.len(),
            chars@ == transcript@,
            out@ == squeeze(transcript@.take(i as int)),
        decreases chars.len() - i,
    {
        let c = chars[i];
        assert(transcript@.take(i + 1).drop_last() =~= transcript@.take(i as int));
        if crate::text::is_ws_char(c) {
            if !(out.len() > 0 && out[out.len() - 1] == ' ') {
                out.push(' ');
            }
        } else {
            out.push(c);
        }
        i = i + 1;
    }
    assert(transcript@.take(chars@.len() as int) =~= transcript@);
    let collapsed = trimmed(out.as_slice());
    let short = if collapsed.len() <= 10 {
        collapsed
    } else {
        crate::text::slice_to_vec(collapsed.as_slice(), 0, 10)
    };
    let name = sanitize_recording_name(string_of(short.as_slice()).as_str());
    if chars_of(name.as_str()).len() == 0 {
        return Err("The generated transcript title was empty.".to_string());
    }
    Ok(name)
}

/// The `attempt`-th candidate for a name: the base itself, then `base_1`, `base_2`, ...
pub open spec fn candidate_stem(base: Seq<char>, attempt: nat) -> Seq<char> {
    if attempt == 0 {
        base
    } else {
        base + seq!['_'] + decimal(attempt)
    }
}

pub fn candidate_stem_exec(base: &str, attempt: u64) -> (out: String)
    ensures
        out@ == candidate_stem(base@, attempt as nat),
{
    if attempt == 0 {
        return base.to_string();
    }
    let mut out = chars_of(base);
    out.push('_');
    let digits = decimal_exec(attempt);
    push_chars(&mut out, digits.as_slice());
    string_of(out.as_slice())
}

/// The `attempt`-th path a new file in `directory` may take: `{stem}{suffix}`, then
/// `{stem}_1{suffix}`, ..., with `recording` standing in for an empty stem. The first of
/// these that is not taken on disk is the one used.
pub open spec fn unique_path_candidate_spec(directory: Seq<char>, file_stem: Seq<char>, suffix: Seq<char>, attempt: nat) -> Seq<char> {
    let stem = if file_stem.len() == 0 { "recording"@ } else { file_stem };
    crate::paths::join(directory, candidate_stem(stem, attempt) + suffix)
}

pub fn unique_path_candidate(directory: &str, file_stem: &str, suffix: &str, attempt: u64) -> (out: String)
    ensures
        out@ == unique_path_candidate_spec(directory@, file_stem@, suffix@, attempt as nat),
{
    let stem = if chars_of(file_stem).len() == 0 {
        "recording"
    } else {
        file_stem
    };
    let mut name = chars_of(candidate_stem_exec(stem, attempt).as_str());
    push_str(&mut name, suffix);
    let joined = crate::paths::join_exec(chars_of(directory).as_slice(), name.as_slice());
    string_of(joined.as_slice())
}

/// A file beside a recording, named `<stem>.<tag>.<suffix>`.
pub open spec fn tagged_sibling(stem: Seq<char>, tag: Seq<char>, suffix: Seq<char>) -> Seq<char> {
    stem + seq!['.'] + tag + seq!['.'] + suffix
}

pub fn tagged_sibling_name(stem: &str, tag: &str, suffix: &str) -> (out: String)
    ensures
        out@ == tagged_sibling(stem@, tag@, suffix@),
{
    let mut out = chars_of(stem);
    out.push('.');
    push_str(&mut out, tag);
    out.push('.');
    push_str(&mut out, suffix);
    string_of(out.as_slice())
}

} // verus!
