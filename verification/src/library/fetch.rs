//! Importing from a link with yt-dlp: which links are accepted, the arguments a fetch runs
//! with, reading what yt-dlp printed, and the sentence each kind of failure is answered
//! with.
use vstd::prelude::*;

use crate::command::{arg_views, push_arg};
use crate::library::naming::candidate_stem;
use crate::media::diagnostics::{indicates_no_audio, stderr_indicates_no_audio};
use crate::paths::{extension, extension_of, join};
use crate::text::{
    chars_of, contains, contains_exec, eq_ignore_ascii_case, find_first, first_at, lemma_first_at,
    lines, lines_exec, lower_seq, lowercase, occurs_at, parse_uint, parse_uint_exec, push_chars,
    push_str, slice_to_vec, split_once, split_once_exec, starts_with, starts_with_exec, string_of,
    trim, trimmed,
};

verus! {

pub const YTDLP_REQUIRED_MESSAGE: &'static str = "yt-dlp is required to import from a link; install it in Setup.";

pub const YOUTUBE_FFMPEG_REQUIRED_MESSAGE: &'static str = "FFmpeg is required to import from a link; install it in Setup.";

pub const LIVESTREAM_REJECTED_MESSAGE: &'static str = "This is a live or upcoming stream, so it can't be imported.";

pub const OVERSIZE_REJECTED_MESSAGE: &'static str = "This video is too large to import; the limit is 2 GB.";

pub const NO_AUDIO_REJECTED_MESSAGE: &'static str = "This video has no sound, so there is nothing to import.";

pub const JS_RUNTIME_REJECTED_MESSAGE: &'static str = "YouTube couldn't be read this time \u{2014} it asked for a JavaScript runtime to unlock this video. This is usually temporary, so try the import again. Installing Deno or Node.js makes it reliable.";

/// Whether any of `needles` occurs in `s`.
pub open spec fn contains_any(s: Seq<char>, needles: Seq<Seq<char>>) -> bool {
    exists|i: int| 0 <= i < needles.len() && contains(s, #[trigger] needles[i])
}

/// yt-dlp's wordings for a live or upcoming stream.
pub open spec fn livestream_needles() -> Seq<Seq<char>> {
    seq![
        "has not passed filter"@,
        "does not pass filter"@,
        "is not live"@,
        "premieres in"@,
        "live event will begin"@,
    ]
}

/// yt-dlp's wordings for a download over the size cap.
pub open spec fn oversize_needles() -> Seq<Seq<char>> {
    seq!["larger than max-filesize"@, "larger than --max-filesize"@]
}

/// yt-dlp's wordings for a missing JavaScript runtime.
pub open spec fn js_runtime_needles() -> Seq<Seq<char>> {
    seq![
        "javascript runtime"@,
        "javascript interpreter"@,
        "js runtime"@,
        "failed to extract nsig"@,
        "nsig extraction failed"@,
        "unable to run the javascript"@,
    ]
}

/// Whether any needle occurs in `hay`, checked one by one.
fn contains_any_exec(hay: &[char], needles: &Vec<Vec<char>>, Ghost(nv): Ghost<Seq<Seq<char>>>) -> (b: bool)
    requires
        needles@.len() == nv.len(),
        forall|i: int| 0 <= i < nv.len() ==> #[trigger] needles@[i]@ == nv[i],
    ensures
        b == contains_any(hay@, nv),
{
    let mut i: usize = 0;
    while i < needles.len()
        invariant
            i <= needles@.len(),
            needles@.len() == nv.len(),
            forall|k: int| 0 <= k < nv.len() ==> #[trigger] needles@[k]@ == nv[k],
            forall|k: int| 0 <= k < i ==> !contains(hay@, #[trigger] nv[k]),
        decreases needles.len() - i,
    {
        if contains_exec(hay, needles[i].as_slice()) {
            assert(contains(hay@, nv[i as int]));
            return true;
        }
        i = i + 1;
    }
    false
}

fn words(list: &[&str], Ghost(nv): Ghost<Seq<Seq<char>>>) -> (out: Vec<Vec<char>>)
    requires
        list@.len() == nv.len(),
        forall|i: int| 0 <= i < nv.len() ==> #[trigger] list@[i]@ == nv[i],
    ensures
        out@.len() == nv.len(),
        forall|i: int| 0 <= i < nv.len() ==> #[trigger] out@[i]@ == nv[i],
{
    let mut out: Vec<Vec<char>> = Vec::new();
    let mut i: usize = 0;
    while i < list.len()
        invariant
            i <= list@.len(),
            list@.len() == nv.len(),
            forall|k: int| 0 <= k < nv.len() ==> #[trigger] list@[k]@ == nv[k],
            out@.len() == i,
            forall|k: int| 0 <= k < i ==> #[trigger] out@[k]@ == nv[k],
        decreases list.len() - i,
    {
        out.push(chars_of(list[i]));
        i = i + 1;
    }
    out
}

/// Whether yt-dlp's stderr says the link is a live or upcoming stream, in any ASCII case.
pub open spec fn indicates_livestream(stderr: Seq<char>) -> bool {
    contains_any(lower_seq(stderr), livestream_needles())
}

pub fn stderr_indicates_livestream(stderr: &str) -> (b: bool)
    ensures
        b == indicates_livestream(stderr@),
{
    let list: [&str; 5] = [
        "has not passed filter",
        "does not pass filter",
        "is not live",
        "premieres in",
        "live event will begin",
    ];
    let ghost nv = livestream_needles();
    assert(list@[0]@ == nv[0] && list@[1]@ == nv[1] && list@[2]@ == nv[2] && list@[3]@ == nv[3]
        && list@[4]@ == nv[4]);
    let needles = words(&list, Ghost(nv));
    let lower = lowercase(chars_of(stderr).as_slice());
    contains_any_exec(lower.as_slice(), &needles, Ghost(nv))
}

/// Whether yt-dlp's stderr says the download is over the size cap, in any ASCII case.
pub open spec fn indicates_oversize(stderr: Seq<char>) -> bool {
    contains_any(lower_seq(stderr), oversize_needles())
}

pub fn stderr_indicates_oversize(stderr: &str) -> (b: bool)
    ensures
        b == indicates_oversize(stderr@),
{
    let list: [&str; 2] = ["larger than max-filesize", "larger than --max-filesize"];
    let ghost nv = oversize_needles();
    assert(list@[0]@ == nv[0] && list@[1]@ == nv[1]);
    let needles = words(&list, Ghost(nv));
    let lower = lowercase(chars_of(stderr).as_slice());
    contains_any_exec(lower.as_slice(), &needles, Ghost(nv))
}

/// The lines of yt-dlp's stderr that say why the run failed: trimmed, and starting with
/// `ERROR:`. Warnings precede every run and explain none.
pub open spec fn fatal_lines(stderr: Seq<char>) -> Seq<Seq<char>> {
    fatal_of(lines(stderr))
}

pub open spec fn fatal_of(ls: Seq<Seq<char>>) -> Seq<Seq<char>>
    decreases ls.len(),
{
    if ls.len() == 0 {
        Seq::empty()
    } else {
        let rest = fatal_of(ls.drop_last());
        let t = trim(ls.last());
        if starts_with(t, "ERROR:"@) {
            rest.push(t)
        } else {
            rest
        }
    }
}

pub fn fatal_stderr_lines(stderr: &str) -> (out: Vec<Vec<char>>)
    ensures
        out@.map_values(|l: Vec<char>| l@) == fatal_lines(stderr@),
{
    proof {
        reveal_strlit("ERROR:");
    }
    let ls = lines_exec(chars_of(stderr).as_slice());
    let ghost lv = lines(stderr@);
    let marker = chars_of("ERROR:");
    let mut out: Vec<Vec<char>> = Vec::new();
    let mut i: usize = 0;
    while i < ls.len()
        invariant
            i <= ls@.len(),
            ls@.len() == lv.len(),
            marker@ == "ERROR:"@,
            forall|k: int| 0 <= k < ls@.len() ==> #[trigger] ls@[k]@ == lv[k],
            out@.map_values(|l: Vec<char>| l@) == fatal_of(lv.take(i as int)),
        decreases ls.len() - i,
    {
        assert(lv.take(i + 1).drop_last() =~= lv.take(i as int));
        let t = trimmed(ls[i].as_slice());
        let ghost before = out@;
        if starts_with_exec(t.as_slice(), marker.as_slice()) {
            out.push(t);
            assert(out@.map_values(|l: Vec<char>| l@) =~= before.map_values(|l: Vec<char>| l@).push(
                trim(lv[i as int]),
            ));
        }
        i = i + 1;
    }
    assert(lv.take(ls@.len() as int) =~= lv);
    out
}

/// Whether a fatal line of yt-dlp's stderr names a missing JavaScript runtime, in any
/// ASCII case.
pub open spec fn indicates_js_runtime(stderr: Seq<char>) -> bool {
    let f = fatal_lines(stderr);
    exists|i: int| 0 <= i < f.len() && contains_any(lower_seq(#[trigger] f[i]), js_runtime_needles())
}

pub fn stderr_indicates_js_runtime(stderr: &str) -> (b: bool)
    ensures
        b == indicates_js_runtime(stderr@),
{
    let list: [&str; 6] = [
        "javascript runtime",
        "javascript interpreter",
        "js runtime",
        "failed to extract nsig",
        "nsig extraction failed",
        "unable to run the javascript",
    ];
    let ghost nv = js_runtime_needles();
    assert(list@[0]@ == nv[0] && list@[1]@ == nv[1] && list@[2]@ == nv[2] && list@[3]@ == nv[3]
        && list@[4]@ == nv[4] && list@[5]@ == nv[5]);
    let needles = words(&list, Ghost(nv));
    let fatal = fatal_stderr_lines(stderr);
    let ghost fv = fatal_lines(stderr@);
    let mut i: usize = 0;
    while i < fatal.len()
        invariant
            i <= fatal@.len(),
            fv == fatal_lines(stderr@),
            nv == js_runtime_needles(),
            fatal@.map_values(|l: Vec<char>| l@) == fv,
            needles@.len() == nv.len(),
            forall|k: int| 0 <= k < nv.len() ==> #[trigger] needles@[k]@ == nv[k],
            forall|k: int| 0 <= k < i ==> !contains_any(lower_seq(#[trigger] fv[k]), nv),
        decreases fatal.len() - i,
    {
        assert(fv[i as int] == fatal@[i as int]@);
        let lower = lowercase(fatal[i].as_slice());
        if contains_any_exec(lower.as_slice(), &needles, Ghost(nv)) {
            assert(fatal@.map_values(|l: Vec<char>| l@).len() == fatal@.len());
            assert(0 <= i < fv.len());
            assert(contains_any(lower_seq(fv[i as int]), nv));
            assert(contains_any(lower_seq(fatal_lines(stderr@)[i as int]), js_runtime_needles()));
            assert(indicates_js_runtime(stderr@));
            return true;
        }
        i = i + 1;
    }
    false
}

/// What the metadata probe printed for a link: `live_status<TAB>title<TAB>id`.
#[derive(Debug, Clone)]
pub struct VideoMetadata {
    pub live_status: String,
    pub title: String,
    pub id: String,
}

/// `str::rsplit_once` on a character: the parts around its last occurrence.
pub open spec fn rsplit_once_char(s: Seq<char>, c: char) -> Option<(Seq<char>, Seq<char>)> {
    let i = crate::paths::last_of(s, c);
    if i < 0 {
        None
    } else {
        Some((s.take(i), s.skip(i + 1)))
    }
}

/// The probe line read from both ends: the status before the first tab, the id after the
/// last, and the title, tabs and all, between them; each trimmed.
pub open spec fn probe_fields(line: Seq<char>) -> (Seq<char>, Seq<char>, Seq<char>) {
    let (status, rest) = match split_once(line, seq!['\t']) {
        Some(p) => p,
        None => (line, Seq::empty()),
    };
    let (title, id) = match rsplit_once_char(rest, '\t') {
        Some(p) => p,
        None => (rest, Seq::empty()),
    };
    (trim(status), trim(title), trim(id))
}

pub fn parse_probe_metadata_line(line: &str) -> (m: VideoMetadata)
    ensures
        (m.live_status@, m.title@, m.id@) == probe_fields(line@),
{
    let l = chars_of(line);
    let tab: [char; 1] = ['\t'];
    assert(tab@ =~= seq!['\t']);
    let (status, rest) = match split_once_exec(l.as_slice(), &tab) {
        Some(p) => p,
        None => (slice_to_vec(l.as_slice(), 0, l.len()), Vec::new()),
    };
    assert(l@.subrange(0, l@.len() as int) =~= l@);
    proof {
        crate::paths::lemma_last_of(rest@, '\t');
    }
    let (title, id) = match crate::paths::last_of_exec(rest.as_slice(), '\t') {
        Some(i) => {
            let len = rest.len();
            (slice_to_vec(rest.as_slice(), 0, i), slice_to_vec(rest.as_slice(), i + 1, len))
        },
        None => (slice_to_vec(rest.as_slice(), 0, rest.len()), Vec::new()),
    };
    assert(rest@.subrange(0, rest@.len() as int) =~= rest@);
    VideoMetadata {
        live_status: string_of(trimmed(status.as_slice()).as_slice()),
        title: string_of(trimmed(title.as_slice()).as_slice()),
        id: string_of(trimmed(id.as_slice()).as_slice()),
    }
}

/// How many entries a run announced: `[download] Downloading item 2 of 3` is 3.
pub open spec fn item_total(line: Seq<char>) -> Option<usize> {
    let prefix = "[download] Downloading item "@;
    if !starts_with(line, prefix) {
        None
    } else {
        match split_once(line.skip(prefix.len() as int), " of "@) {
            None => None,
            Some((_, total)) => match parse_uint(trim(total), usize::MAX as nat) {
                Some(n) => Some(n as usize),
                None => None,
            },
        }
    }
}

pub fn parse_ytdlp_item_total(line: &str) -> (r: Option<usize>)
    ensures
        r == item_total(line@),
{
    proof {
        reveal_strlit("[download] Downloading item ");
    }
    let l = chars_of(line);
    let prefix = chars_of("[download] Downloading item ");
    if !starts_with_exec(l.as_slice(), prefix.as_slice()) {
        return None;
    }
    let rest = slice_to_vec(l.as_slice(), prefix.len(), l.len());
    assert(rest@ =~= l@.skip(prefix@.len() as int));
    let (_, total) = match split_once_exec(rest.as_slice(), chars_of(" of ").as_slice()) {
        Some(p) => p,
        None => return None,
    };
    match parse_uint_exec(trimmed(total.as_slice()).as_slice(), usize::MAX as u64) {
        Some(n) => Some(n as usize),
        None => None,
    }
}

/// Every `%` doubled, so yt-dlp reads the text as a literal.
pub open spec fn escape_percent(s: Seq<char>) -> Seq<char>
    decreases s.len(),
{
    if s.len() == 0 {
        Seq::empty()
    } else if s.last() == '%' {
        escape_percent(s.drop_last()) + seq!['%', '%']
    } else {
        escape_percent(s.drop_last()).push(s.last())
    }
}

/// yt-dlp's `-o` value for a precomputed path: the path with its percents doubled, then
/// the playlist index (when there is one) and the extension.
pub open spec fn output_template(directory: Seq<char>, stem: Seq<char>) -> Seq<char> {
    escape_percent(join(directory, stem)) + "%(playlist_index& {}|)s.%(ext)s"@
}

pub fn ytdlp_output_template(output_directory: &str, unique_stem: &str) -> (out: String)
    ensures
        out@ == output_template(output_directory@, unique_stem@),
{
    let path = crate::paths::join_exec(chars_of(output_directory).as_slice(), chars_of(unique_stem).as_slice());
    let mut out: Vec<char> = Vec::new();
    let mut i: usize = 0;
    while i < path.len()
        invariant
            i <= path@.len(),
            out@ == escape_percent(path@.take(i as int)),
        decreases path.len() - i,
    {
        assert(path@.take(i + 1).drop_last() =~= path@.take(i as int));
        if path[i] == '%' {
            out.push('%');
            out.push('%');
            assert(out@ =~= escape_percent(path@.take(i as int)) + seq!['%', '%']);
        } else {
            out.push(path[i]);
        }
        i = i + 1;
    }
    assert(path@.take(path@.len() as int) =~= path@);
    push_str(&mut out, "%(playlist_index& {}|)s.%(ext)s");
    string_of(out.as_slice())
}

/// Whether the probe's `live_status` names a stream: live now, upcoming, or just ended.
pub open spec fn is_stream_status(status: Seq<char>) -> bool {
    status == "is_live"@ || status == "is_upcoming"@ || status == "post_live"@
}

pub fn live_status_is_stream(live_status: &str) -> (b: bool)
    ensures
        b == is_stream_status(live_status@),
{
    let s = chars_of(live_status);
    crate::text::seq_eq(s.as_slice(), chars_of("is_live").as_slice())
        || crate::text::seq_eq(s.as_slice(), chars_of("is_upcoming").as_slice())
        || crate::text::seq_eq(s.as_slice(), chars_of("post_live").as_slice())
}

/// Why a fetch failed, decided from yt-dlp's own output while that output is intact.
#[derive(Debug, Clone, PartialEq, Eq)]
pub enum FetchFailure {
    JsRuntime,
    Livestream,
    Oversize,
    NoAudio,
    Other(String),
}

impl FetchFailure {
    /// The sentence the user reads for this failure.
    pub fn message(self) -> (m: String)
        ensures
            m@ == (match self {
                FetchFailure::JsRuntime => JS_RUNTIME_REJECTED_MESSAGE@,
                FetchFailure::Livestream => LIVESTREAM_REJECTED_MESSAGE@,
                FetchFailure::Oversize => OVERSIZE_REJECTED_MESSAGE@,
                FetchFailure::NoAudio => NO_AUDIO_REJECTED_MESSAGE@,
                FetchFailure::Other(message) => message@,
            }),
    {
        match self {
            FetchFailure::JsRuntime => JS_RUNTIME_REJECTED_MESSAGE.to_string(),
            FetchFailure::Livestream => LIVESTREAM_REJECTED_MESSAGE.to_string(),
            FetchFailure::Oversize => OVERSIZE_REJECTED_MESSAGE.to_string(),
            FetchFailure::NoAudio => NO_AUDIO_REJECTED_MESSAGE.to_string(),
            FetchFailure::Other(message) => message,
        }
    }
}

/// The most characters of a failed run's output shown to the user.
pub const FAILURE_DETAIL_CHARS: usize = 600;

/// What is worth showing of a failed run's output: its fatal lines when it has any, else
/// the whole output; past 600 characters, the last 600, since yt-dlp ends with the line
/// that explains the run.
pub open spec fn detail_of(stderr: Seq<char>) -> Seq<char> {
    let fatal = crate::text::joined(fatal_lines(stderr), seq!['\n']);
    let source = if fatal.len() == 0 {
        stderr
    } else {
        fatal
    };
    if source.len() <= 600 {
        source
    } else {
        source.skip(source.len() - 600)
    }
}

pub fn failure_detail(stderr: &str) -> (out: String)
    ensures
        out@ == detail_of(stderr@),
{
    let fatal = fatal_stderr_lines(stderr);
    let nl: [char; 1] = ['\n'];
    assert(nl@ =~= seq!['\n']);
    let joined = crate::text::join_exec(&fatal, &nl);
    let source = if joined.len() == 0 {
        chars_of(stderr)
    } else {
        joined
    };
    if source.len() <= FAILURE_DETAIL_CHARS {
        string_of(source.as_slice())
    } else {
        let len = source.len();
        let tail = slice_to_vec(source.as_slice(), len - FAILURE_DETAIL_CHARS, len);
        assert(tail@ =~= source@.skip(source@.len() - 600));
        string_of(tail.as_slice())
    }
}

/// `str::replace`: every non-overlapping occurrence of `p`, left to right, replaced by `w`;
/// an empty `p` puts `w` before each character and at the end.
pub open spec fn replace_all(s: Seq<char>, p: Seq<char>, w: Seq<char>) -> Seq<char>
    decreases s.len(),
{
    if p.len() == 0 {
        interleave(s, w)
    } else {
        let i = first_at(s, p);
        if i < 0 || i + p.len() > s.len() {
            s
        } else {
            s.take(i) + w + replace_all(s.skip(i + p.len()), p, w)
        }
    }
}

pub open spec fn interleave(s: Seq<char>, w: Seq<char>) -> Seq<char>
    decreases s.len(),
{
    if s.len() == 0 {
        w
    } else {
        w + seq![s[0]] + interleave(s.drop_first(), w)
    }
}

pub fn replace_exec(s: &[char], p: &[char], w: &[char]) -> (out: Vec<char>)
    ensures
        out@ == replace_all(s@, p@, w@),
{
    let mut out: Vec<char> = Vec::new();
    let mut at: usize = 0;
    if p.len() == 0 {
        assert(s@.skip(0) =~= s@);
        while at < s.len()
            invariant
                at <= s@.len(),
                p@.len() == 0,
                out@ + interleave(s@.skip(at as int), w@) == interleave(s@, w@),
            decreases s.len() - at,
        {
            let ghost before = out@;
            assert(s@.skip(at as int).drop_first() =~= s@.skip(at + 1));
            push_chars(&mut out, w);
            out.push(s[at]);
            assert(out@ + interleave(s@.skip(at + 1), w@) =~= before + interleave(s@.skip(at as int), w@));
            at = at + 1;
        }
        push_chars(&mut out, w);
        assert(s@.skip(at as int) =~= Seq::<char>::empty());
        return out;
    }
    assert(s@.skip(0) =~= s@);
    while at <= s.len()
        invariant
            at <= s@.len(),
            p@.len() > 0,
            out@ + replace_all(s@.skip(at as int), p@, w@) == replace_all(s@, p@, w@),
        decreases s.len() - at,
    {
        let rest = slice_to_vec(s, at, s.len());
        assert(rest@ =~= s@.skip(at as int));
        proof {
            lemma_first_at(rest@, p@);
        }
        match find_first(rest.as_slice(), p) {
            Some(i) => {
                let ghost before = out@;
                let piece = slice_to_vec(rest.as_slice(), 0, i);
                push_chars(&mut out, piece.as_slice());
                push_chars(&mut out, w);
                assert(rest@.skip(i + p@.len()) =~= s@.skip(at + i + p@.len()));
                assert(piece@ =~= rest@.take(i as int));
                assert(out@ + replace_all(s@.skip(at + i + p@.len()), p@, w@) =~= before
                    + replace_all(rest@, p@, w@));
                at = at + i + p.len();
            },
            None => {
                push_chars(&mut out, rest.as_slice());
                return out;
            },
        }
    }
    out
}

/// yt-dlp's stderr with the link and the output stem blanked out, since yt-dlp quotes both
/// back and a title must never be read as the reason a run failed.
pub open spec fn without_inputs(stderr: Seq<char>, url: Seq<char>, stem: Seq<char>) -> Seq<char> {
    let stripped = replace_all(stderr, url, seq![' ']);
    if stem.len() == 0 {
        stripped
    } else {
        replace_all(stripped, stem, seq![' '])
    }
}

pub fn without_reflected_inputs(stderr: &str, url: &str, stem: &str) -> (out: String)
    ensures
        out@ == without_inputs(stderr@, url@, stem@),
{
    let space: [char; 1] = [' '];
    assert(space@ =~= seq![' ']);
    let stripped = replace_exec(chars_of(stderr).as_slice(), chars_of(url).as_slice(), &space);
    let st = chars_of(stem);
    if st.len() == 0 {
        return string_of(stripped.as_slice());
    }
    string_of(replace_exec(stripped.as_slice(), st.as_slice(), &space).as_slice())
}

/// The sentence for an entry of a link that produced no file.
pub open spec fn entry_failure(classifiable: Seq<char>, stderr: Seq<char>) -> Seq<char> {
    if indicates_no_audio(classifiable) {
        NO_AUDIO_REJECTED_MESSAGE@
    } else if indicates_livestream(classifiable) {
        LIVESTREAM_REJECTED_MESSAGE@
    } else if indicates_oversize(classifiable) {
        OVERSIZE_REJECTED_MESSAGE@
    } else {
        let detail = detail_of(stderr);
        if detail.len() == 0 {
            "A video in this link could not be fetched."@
        } else {
            "A video in this link could not be fetched: "@ + detail
        }
    }
}

pub fn entry_failure_message(classifiable: &str, stderr: &str) -> (m: String)
    ensures
        m@ == entry_failure(classifiable@, stderr@),
{
    if stderr_indicates_no_audio(classifiable) {
        NO_AUDIO_REJECTED_MESSAGE.to_string()
    } else if stderr_indicates_livestream(classifiable) {
        LIVESTREAM_REJECTED_MESSAGE.to_string()
    } else if stderr_indicates_oversize(classifiable) {
        OVERSIZE_REJECTED_MESSAGE.to_string()
    } else {
        let detail = failure_detail(stderr);
        let d = chars_of(detail.as_str());
        if d.len() == 0 {
            "A video in this link could not be fetched.".to_string()
        } else {
            let mut out = chars_of("A video in this link could not be fetched: ");
            push_chars(&mut out, d.as_slice());
            string_of(out.as_slice())
        }
    }
}

/// Why a fetch that produced no file failed: on a failed exit, a stream, then no audio,
/// then a missing JavaScript runtime, else yt-dlp's own detail; on a clean exit, a stream,
/// then the size cap, then no audio, else that no audio file came out.
pub open spec fn fetch_failure(exited_cleanly: bool, classifiable: Seq<char>, stderr: Seq<char>) -> (
    u8,
    Seq<char>,
) {
    if !exited_cleanly {
        if indicates_livestream(classifiable) {
            (1, Seq::empty())
        } else if indicates_no_audio(classifiable) {
            (3, Seq::empty())
        } else if indicates_js_runtime(classifiable) {
            (0, Seq::empty())
        } else {
            let detail = detail_of(stderr);
            (
                4,
                if detail.len() == 0 {
                    "yt-dlp could not download this video."@
                } else {
                    "yt-dlp could not download this video: "@ + detail
                },
            )
        }
    } else if indicates_livestream(classifiable) {
        (1, Seq::empty())
    } else if indicates_oversize(classifiable) {
        (2, Seq::empty())
    } else if indicates_no_audio(classifiable) {
        (3, Seq::empty())
    } else {
        (4, "yt-dlp finished but did not produce an audio file."@)
    }
}

/// A failure as the number of its kind (in declaration order) and, for `Other`, its text.
pub open spec fn failure_view(f: FetchFailure) -> (u8, Seq<char>) {
    match f {
        FetchFailure::JsRuntime => (0, Seq::empty()),
        FetchFailure::Livestream => (1, Seq::empty()),
        FetchFailure::Oversize => (2, Seq::empty()),
        FetchFailure::NoAudio => (3, Seq::empty()),
        FetchFailure::Other(m) => (4, m@),
    }
}

pub fn classify_fetch_failure(exited_cleanly: bool, classifiable: &str, stderr: &str) -> (f: FetchFailure)
    ensures
        failure_view(f) == fetch_failure(exited_cleanly, classifiable@, stderr@),
{
    if !exited_cleanly {
        if stderr_indicates_livestream(classifiable) {
            return FetchFailure::Livestream;
        }
        if stderr_indicates_no_audio(classifiable) {
            return FetchFailure::NoAudio;
        }
        if stderr_indicates_js_runtime(classifiable) {
            return FetchFailure::JsRuntime;
        }
        let detail = failure_detail(stderr);
        let d = chars_of(detail.as_str());
        return FetchFailure::Other(
            if d.len() == 0 {
                "yt-dlp could not download this video.".to_string()
            } else {
                let mut out = chars_of("yt-dlp could not download this video: ");
                push_chars(&mut out, d.as_slice());
                string_of(out.as_slice())
            },
        );
    }
    if stderr_indicates_livestream(classifiable) {
        FetchFailure::Livestream
    } else if stderr_indicates_oversize(classifiable) {
        FetchFailure::Oversize
    } else if stderr_indicates_no_audio(classifiable) {
        FetchFailure::NoAudio
    } else {
        FetchFailure::Other("yt-dlp finished but did not produce an audio file.".to_string())
    }
}

/// `remainder` without a leading ` <digits>` playlist index; as it is when there is none.
pub open spec fn strip_index(remainder: Seq<char>) -> Seq<char> {
    if remainder.len() > 0 && remainder[0] == ' ' {
        let rest = remainder.drop_first();
        let n = crate::media::whisper::leading_run(rest, false);
        if n == 0 {
            remainder
        } else {
            rest.skip(n as int)
        }
    } else {
        remainder
    }
}

/// Whether `name` is a file the import owning `stem` produced or part-produced: the stem,
/// an optional ` <digits>` index, then an extension.
pub open spec fn own_artifact(name: Seq<char>, stem: Seq<char>) -> bool {
    starts_with(name, stem) && {
        let r = strip_index(name.skip(stem.len() as int));
        r.len() > 0 && r[0] == '.'
    }
}

fn strip_index_exec(remainder: &[char]) -> (out: Vec<char>)
    ensures
        out@ == strip_index(remainder@),
{
    if remainder.len() > 0 && remainder[0] == ' ' {
        let rest = slice_to_vec(remainder, 1, remainder.len());
        assert(rest@ =~= remainder@.drop_first());
        let n = crate::media::whisper::leading_run_exec(rest.as_slice(), false);
        if n == 0 {
            slice_to_vec(remainder, 0, remainder.len())
        } else {
            proof {
                crate::media::whisper::lemma_leading_run_bound(rest@, false);
            }
            slice_to_vec(rest.as_slice(), n, rest.len())
        }
    } else {
        slice_to_vec(remainder, 0, remainder.len())
    }
}

pub fn is_own_import_artifact(name: &str, stem: &str) -> (b: bool)
    ensures
        b == own_artifact(name@, stem@),
{
    let n = chars_of(name);
    let s = chars_of(stem);
    if !starts_with_exec(n.as_slice(), s.as_slice()) {
        return false;
    }
    let rest = slice_to_vec(n.as_slice(), s.len(), n.len());
    assert(rest@ =~= n@.skip(s@.len() as int));
    let r = strip_index_exec(rest.as_slice());
    r.len() > 0 && r[0] == '.'
}

/// The playlist index an artifact's name carries after the stem; 0 when it carries none or
/// it does not fit a `u32`.
pub open spec fn artifact_index(name: Seq<char>, stem: Seq<char>) -> u32 {
    if starts_with(name, stem) && name.len() > stem.len() && name[stem.len() as int] == ' ' {
        let rest = name.skip(stem.len() + 1int);
        match parse_uint(rest.take(crate::media::whisper::leading_run(rest, false) as int), u32::MAX as nat) {
            Some(v) => v as u32,
            None => 0,
        }
    } else {
        0
    }
}

pub fn artifact_playlist_index(name: &str, stem: &str) -> (i: u32)
    ensures
        i == artifact_index(name@, stem@),
{
    let n = chars_of(name);
    let s = chars_of(stem);
    if !starts_with_exec(n.as_slice(), s.as_slice()) || !(n.len() > s.len() && n[s.len()] == ' ') {
        return 0;
    }
    let rest = slice_to_vec(n.as_slice(), s.len() + 1, n.len());
    assert(rest@ =~= n@.skip(s@.len() + 1int));
    let k = crate::media::whisper::leading_run_exec(rest.as_slice(), false);
    proof {
        crate::media::whisper::lemma_leading_run_bound(rest@, false);
    }
    let digits = slice_to_vec(rest.as_slice(), 0, k);
    assert(digits@ =~= rest@.take(k as int));
    match parse_uint_exec(digits.as_slice(), u32::MAX as u64) {
        Some(v) => v as u32,
        None => 0,
    }
}

/// Whether a file is the MP3 a fetch set out to produce: its extension is `mp3`, in any
/// ASCII case.
pub open spec fn produced_audio(path: Seq<char>) -> bool {
    match extension_of(path) {
        Some(e) => lower_seq(e) == lower_seq("mp3"@),
        None => false,
    }
}

pub fn is_produced_audio(path: &str) -> (b: bool)
    ensures
        b == produced_audio(path@),
{
    match extension(chars_of(path).as_slice()) {
        Some(e) => eq_ignore_ascii_case(e.as_slice(), chars_of("mp3").as_slice()),
        None => false,
    }
}

/// A link as the user may enter it: trimmed, non-empty, `http://` or `https://` in any
/// ASCII case, then a host.
pub open spec fn url_check(raw: Seq<char>) -> Result<Seq<char>, Seq<char>> {
    let t = trim(raw);
    if t.len() == 0 {
        Err("Enter a link to import."@)
    } else {
        let lower = lower_seq(t);
        let rest = if starts_with(lower, "https://"@) {
            Some(lower.skip(8))
        } else if starts_with(lower, "http://"@) {
            Some(lower.skip(7))
        } else {
            None
        };
        match rest {
            None => Err("The import URL must start with http:// or https://."@),
            Some(r) => if r.len() == 0 || r[0] == '/' || r[0] == '?' || r[0] == '#' {
                Err("That import URL is missing a host."@)
            } else {
                Ok(t)
            },
        }
    }
}

pub fn validate_import_url(raw: &str) -> (r: Result<String, String>)
    ensures
        match r {
            Ok(u) => url_check(raw@) == Ok::<Seq<char>, Seq<char>>(u@),
            Err(m) => url_check(raw@) == Err::<Seq<char>, Seq<char>>(m@),
        },
{
    proof {
        reveal_strlit("https://");
        reveal_strlit("http://");
    }
    let t = trimmed(chars_of(raw).as_slice());
    if t.len() == 0 {
        return Err("Enter a link to import.".to_string());
    }
    let lower = lowercase(t.as_slice());
    let https = chars_of("https://");
    let http = chars_of("http://");
    let rest = if starts_with_exec(lower.as_slice(), https.as_slice()) {
        slice_to_vec(lower.as_slice(), 8, lower.len())
    } else if starts_with_exec(lower.as_slice(), http.as_slice()) {
        slice_to_vec(lower.as_slice(), 7, lower.len())
    } else {
        return Err("The import URL must start with http:// or https://.".to_string());
    };
    if rest.len() == 0 || rest[0] == '/' || rest[0] == '?' || rest[0] == '#' {
        return Err("That import URL is missing a host.".to_string());
    }
    Ok(string_of(t.as_slice()))
}

/// The yt-dlp arguments of a fetch: no config, one video, no live streams, at most 2 GB,
/// audio extracted to 128 kbit/s constant-bitrate MP3, ffmpeg's location when known, a
/// progress line yt-dlp prints for every update, the output template, and the link sealed
/// behind `--`.
pub open spec fn fetch_args_spec(template: Seq<char>, ffmpeg_location: Option<Seq<char>>, url: Seq<char>) -> Seq<Seq<char>> {
    seq![
        "--ignore-config"@,
        "--no-config-locations"@,
        "--no-playlist"@,
        "--match-filter"@,
        "!is_live"@,
        "--max-filesize"@,
        "2G"@,
        "-x"@,
        "--audio-format"@,
        "mp3"@,
        "--audio-quality"@,
        "128K"@,
    ] + (match ffmpeg_location {
        Some(l) => seq!["--ffmpeg-location"@, l],
        None => Seq::empty(),
    }) + seq![
        "--progress-template"@,
        "YTDLP_PCT %(progress._percent_str)s\n"@,
        "-o"@,
        template,
        "--"@,
        url,
    ]
}

pub fn ytdlp_fetch_args(output_template: &str, ffmpeg_location: Option<&str>, url: &str) -> (args: Vec<String>)
    ensures
        arg_views(args@) == fetch_args_spec(
            output_template@,
            match ffmpeg_location {
                Some(l) => Some(l@),
                None => None,
            },
            url@,
        ),
{
    let mut args: Vec<String> = Vec::new();
    push_arg(&mut args, "--ignore-config");
    push_arg(&mut args, "--no-config-locations");
    push_arg(&mut args, "--no-playlist");
    push_arg(&mut args, "--match-filter");
    push_arg(&mut args, "!is_live");
    push_arg(&mut args, "--max-filesize");
    push_arg(&mut args, "2G");
    push_arg(&mut args, "-x");
    push_arg(&mut args, "--audio-format");
    push_arg(&mut args, "mp3");
    push_arg(&mut args, "--audio-quality");
    push_arg(&mut args, "128K");
    let ghost head = arg_views(args@);
    match ffmpeg_location {
        Some(location) => {
            push_arg(&mut args, "--ffmpeg-location");
            push_arg(&mut args, location);
        },
        None => {},
    }
    let ghost mid = arg_views(args@);
    push_arg(&mut args, "--progress-template");
    push_arg(&mut args, "YTDLP_PCT %(progress._percent_str)s\n");
    push_arg(&mut args, "-o");
    push_arg(&mut args, output_template);
    push_arg(&mut args, "--");
    push_arg(&mut args, url);
    proof {
        let loc = match ffmpeg_location {
            Some(l) => seq!["--ffmpeg-location"@, l@],
            None => Seq::<Seq<char>>::empty(),
        };
        assert(mid =~= head + loc);
        assert(arg_views(args@) =~= fetch_args_spec(
            output_template@,
            match ffmpeg_location {
                Some(l) => Some(l@),
                None => None,
            },
            url@,
        ));
    }
    args
}

/// The most bytes of stderr a fetch keeps.
pub const STDERR_TAIL_BYTES: u128 = 8192;

/// What one kept line costs: its UTF-8 length, as `str::len` reports it, and its newline.
pub open spec fn line_bytes(l: Seq<char>) -> int {
    (vstd::utf8::encode_utf8(l).len() as usize) as int + 1
}

pub open spec fn total_bytes(ls: Seq<Seq<char>>) -> int
    decreases ls.len(),
{
    if ls.len() == 0 {
        0
    } else {
        line_bytes(ls[0]) + total_bytes(ls.drop_first())
    }
}

/// The lines a bounded buffer keeps: the oldest are dropped while the rest exceed the cap,
/// but the newest line is always kept, however long.
pub open spec fn keep_tail(ls: Seq<Seq<char>>) -> Seq<Seq<char>>
    decreases ls.len(),
{
    if ls.len() > 1 && total_bytes(ls) > STDERR_TAIL_BYTES {
        keep_tail(ls.drop_first())
    } else {
        ls
    }
}

proof fn lemma_total_push(ls: Seq<Seq<char>>, l: Seq<char>)
    ensures
        total_bytes(ls.push(l)) == total_bytes(ls) + line_bytes(l),
    decreases ls.len(),
{
    if ls.len() > 0 {
        assert(ls.push(l).drop_first() =~= ls.drop_first().push(l));
        assert(ls.push(l)[0] == ls[0]);
        lemma_total_push(ls.drop_first(), l);
    } else {
        assert(ls.push(l).drop_first() =~= Seq::<Seq<char>>::empty());
        assert(ls.push(l)[0] == l);
        assert(total_bytes(Seq::<Seq<char>>::empty()) == 0);
    }
}

proof fn lemma_total_nonneg(ls: Seq<Seq<char>>)
    ensures
        total_bytes(ls) >= 0,
        ls.len() == 1 ==> total_bytes(ls) == line_bytes(ls[0]),
    decreases ls.len(),
{
    if ls.len() > 0 {
        lemma_total_nonneg(ls.drop_first());
    }
}

/// yt-dlp's stderr, bounded at the front: a chatty extractor can never fill the buffer,
/// and the last line, the one that says what failed, is never the one dropped.
pub struct StderrTail {
    lines: Vec<String>,
    bytes: u128,
}

impl StderrTail {
    pub closed spec fn view_lines(&self) -> Seq<Seq<char>> {
        self.lines@.map_values(|l: String| l@)
    }

    pub closed spec fn wf(&self) -> bool {
        &&& self.bytes == total_bytes(self.view_lines())
        &&& (self.view_lines().len() <= 1 || total_bytes(self.view_lines()) <= STDERR_TAIL_BYTES)
    }

    pub fn new() -> (t: StderrTail)
        ensures
            t.wf(),
            t.view_lines() == Seq::<Seq<char>>::empty(),
    {
        let t = StderrTail { lines: Vec::new(), bytes: 0 };
        assert(t.view_lines() =~= Seq::<Seq<char>>::empty());
        t
    }

    pub fn push(&mut self, line: String)
        requires
            old(self).wf(),
        ensures
            final(self).wf(),
            final(self).view_lines() == keep_tail(old(self).view_lines().push(line@)),
    {
        let ghost full = self.view_lines().push(line@);
        proof {
            lemma_total_push(self.view_lines(), line@);
        }
        proof {
            lemma_total_nonneg(self.view_lines());
        }
        let n = line.as_str().len() as u128;
        assert(self.bytes <= 0x1_0000_0000_0000_0000u128 + 8192);
        self.bytes = self.bytes + n + 1;
        self.lines.push(line);
        assert(self.view_lines() =~= full);
        while self.bytes > STDERR_TAIL_BYTES && self.lines.len() > 1
            invariant
                self.bytes == total_bytes(self.view_lines()),
                keep_tail(self.view_lines()) == keep_tail(full),
            decreases self.lines.len(),
        {
            let ghost before = self.view_lines();
            proof {
                lemma_total_nonneg(before.drop_first());
            }
            let dropped = self.lines.remove(0);
            assert(self.view_lines() =~= before.drop_first());
            assert(dropped@ == before[0]);
            let d = dropped.as_str().len() as u128;
            self.bytes = self.bytes - (d + 1);
        }
    }

    /// The kept lines, joined by newlines.
    pub fn text(&self) -> (out: String)
        ensures
            out@ == crate::text::joined(self.view_lines(), seq!['\n']),
    {
        let mut chars: Vec<Vec<char>> = Vec::new();
        let mut i: usize = 0;
        while i < self.lines.len()
            invariant
                i <= self.lines@.len(),
                chars@.map_values(|p: Vec<char>| p@) == self.view_lines().take(i as int),
            decreases self.lines.len() - i,
        {
            let ghost before = chars@;
            assert(self.view_lines().take(i + 1) =~= self.view_lines().take(i as int).push(
                self.lines@[i as int]@,
            ));
            chars.push(chars_of(self.lines[i].as_str()));
            assert(chars@.map_values(|p: Vec<char>| p@) =~= self.view_lines().take(i + 1));
            i = i + 1;
        }
        assert(self.view_lines().take(self.lines@.len() as int) =~= self.view_lines());
        let nl: [char; 1] = ['\n'];
        assert(nl@ =~= seq!['\n']);
        string_of(crate::text::join_exec(&chars, &nl).as_slice())
    }
}

/// `str::to_lowercase`: the full Unicode lowercase mapping of each character.
pub uninterp spec fn unicode_lowercase(s: Seq<char>) -> Seq<char>;

/// Lowercases text as `str::to_lowercase` does.
#[verifier::external_body]
fn fold_case(s: &str) -> (out: String)
    ensures
        out@ == unicode_lowercase(s@),
{
    s.to_lowercase()
}

/// Names as character sequences.
pub open spec fn names_view(v: Seq<String>) -> Seq<Seq<char>> {
    v.map_values(|n: String| n@)
}

/// Whether a name already on disk belongs to an import under the folded candidate.
pub open spec fn stem_taken(existing: Seq<Seq<char>>, base: Seq<char>, attempt: nat) -> bool {
    exists|i: int|
        0 <= i < existing.len() && own_artifact(
            unicode_lowercase(#[trigger] existing[i]),
            unicode_lowercase(candidate_stem(base, attempt)),
        )
}

/// The base an import's stem is picked from: the title stem, or `youtube` when it is empty.
pub open spec fn import_base(base: Seq<char>) -> Seq<char> {
    if base.len() == 0 {
        "youtube"@
    } else {
        base
    }
}

/// Picks a stem no file already in the recordings folder could belong to, comparing names
/// case-insensitively since the folder's file system does: the first of `base`, `base_1`,
/// `base_2`, ... whose folded form no existing name is an artifact of. `None` only if every
/// attempt a `u64` can count is taken.
pub fn pick_import_stem(existing_names: &Vec<String>, base_stem: &str) -> (r: Option<String>)
    ensures
        match r {
            Some(stem) => exists|k: nat|
                stem@ == candidate_stem(import_base(base_stem@), k) && !stem_taken(
                    names_view(existing_names@),
                    import_base(base_stem@),
                    k,
                ) && forall|j: nat|
                    j < k ==> #[trigger] stem_taken(
                        names_view(existing_names@),
                        import_base(base_stem@),
                        j,
                    ),
            None => forall|j: nat|
                j < u64::MAX ==> #[trigger] stem_taken(
                    names_view(existing_names@),
                    import_base(base_stem@),
                    j,
                ),
        },
{
    proof {
        reveal_strlit("youtube");
    }
    let ghost ev = names_view(existing_names@);
    let base = if chars_of(base_stem).len() == 0 {
        "youtube".to_string()
    } else {
        base_stem.to_string()
    };
    let ghost bv = import_base(base_stem@);
    assert(base@ == bv);
    let mut folded: Vec<String> = Vec::new();
    let mut i: usize = 0;
    while i < existing_names.len()
        invariant
            i <= existing_names@.len(),
            folded@.len() == i,
            forall|k: int| 0 <= k < i ==> #[trigger] folded@[k]@ == unicode_lowercase(existing_names@[k]@),
        decreases existing_names.len() - i,
    {
        folded.push(fold_case(existing_names[i].as_str()));
        i = i + 1;
    }
    let mut attempt: u64 = 0;
    while attempt < u64::MAX
        invariant
            base@ == bv,
            bv == import_base(base_stem@),
            ev == names_view(existing_names@),
            folded@.len() == existing_names@.len(),
            forall|k: int| 0 <= k < folded@.len() ==> #[trigger] folded@[k]@ == unicode_lowercase(existing_names@[k]@),
            forall|j: nat| j < attempt ==> #[trigger] stem_taken(ev, bv, j),
        decreases u64::MAX - attempt,
    {
        let candidate = crate::library::naming::candidate_stem_exec(base.as_str(), attempt);
        let key = fold_case(candidate.as_str());
        let mut k: usize = 0;
        let mut taken = false;
        while k < folded.len()
            invariant
                k <= folded@.len(),
                folded@.len() == existing_names@.len(),
                ev == names_view(existing_names@),
                forall|m: int| 0 <= m < folded@.len() ==> #[trigger] folded@[m]@ == unicode_lowercase(existing_names@[m]@),
                key@ == unicode_lowercase(candidate_stem(bv, attempt as nat)),
                taken == exists|m: int|
                    0 <= m < k && own_artifact(unicode_lowercase(#[trigger] ev[m]), key@),
            decreases folded.len() - k,
        {
            assert(ev[k as int] == existing_names@[k as int]@);
            if is_own_import_artifact(folded[k].as_str(), key.as_str()) {
                taken = true;
            }
            k = k + 1;
        }
        if !taken {
            assert(!stem_taken(ev, bv, attempt as nat));
            let ghost k = attempt as nat;
            assert(candidate@ == candidate_stem(import_base(base_stem@), k) && !stem_taken(
                names_view(existing_names@),
                import_base(base_stem@),
                k,
            ) && forall|j: nat|
                j < k ==> #[trigger] stem_taken(names_view(existing_names@), import_base(base_stem@), j));
            return Some(candidate);
        }
        assert(stem_taken(ev, bv, attempt as nat));
        attempt = attempt + 1;
    }
    None
}

} // verus!
