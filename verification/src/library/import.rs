//! Importing media files the user already has: which formats whisper reads as they are,
//! which are converted to MP3 first, and the ffmpeg and ffprobe invocations that do it.
use vstd::prelude::*;

use crate::command::{arg_views, push_arg};
use crate::paths::{extension, extension_of, file_name_of, join, join_exec, parent, parent_of};
use crate::media::whisper::{vad_seconds, vad_seconds_of, Rounding};
use crate::text::{chars_of, lines, lines_exec, lower_seq, lowercase, seq_eq, string_of, trim, trimmed};

verus! {

/// What an imported file needs before it can land in the library.
#[derive(Debug, Clone, Copy, PartialEq, Eq, Structural)]
pub enum ImportPlan {
    Passthrough,
    ConvertToMp3,
    Unsupported,
}

/// Formats whisper reads as they are.
pub open spec fn passthrough_extensions() -> Seq<Seq<char>> {
    seq!["wav"@, "mp3"@, "flac"@, "ogg"@]
}

/// Formats converted to MP3 on import.
pub open spec fn convert_extensions() -> Seq<Seq<char>> {
    seq!["m4a"@, "opus"@, "mp4"@, "webm"@, "aac"@, "mkv"@, "mov"@, "m4v"@, "wma"@, "aiff"@]
}

/// `s` without any leading `.`.
pub open spec fn strip_leading_dots(s: Seq<char>) -> Seq<char>
    decreases s.len(),
{
    if s.len() > 0 && s[0] == '.' {
        strip_leading_dots(s.drop_first())
    } else {
        s
    }
}

/// The plan for a bare extension: surrounding whitespace and leading dots dropped, in any
/// ASCII case.
pub open spec fn plan_for(extension: Seq<char>) -> ImportPlan {
    let key = lower_seq(strip_leading_dots(trim(extension)));
    if passthrough_extensions().contains(key) {
        ImportPlan::Passthrough
    } else if convert_extensions().contains(key) {
        ImportPlan::ConvertToMp3
    } else {
        ImportPlan::Unsupported
    }
}

fn strip_leading_dots_exec(s: &[char]) -> (out: Vec<char>)
    ensures
        out@ == strip_leading_dots(s@),
{
    let mut i: usize = 0;
    assert(s@.skip(0) =~= s@);
    while i < s.len() && s[i] == '.'
        invariant
            i <= s@.len(),
            strip_leading_dots(s@) == strip_leading_dots(s@.skip(i as int)),
        decreases s.len() - i,
    {
        assert(s@.skip(i as int).drop_first() =~= s@.skip(i + 1));
        i = i + 1;
    }
    let out = crate::text::slice_to_vec(s, i, s.len());
    assert(out@ =~= s@.skip(i as int));
    out
}

fn str_is(key: &[char], word: &str) -> (b: bool)
    ensures
        b == (key@ == word@),
{
    seq_eq(key, chars_of(word).as_slice())
}

/// Classifies a bare extension (no dot, any case) into an import plan.
pub fn classify_extension(extension: &str) -> (plan: ImportPlan)
    ensures
        plan == plan_for(extension@),
{
    let key = lowercase(strip_leading_dots_exec(trimmed(chars_of(extension).as_slice()).as_slice()).as_slice());
    let k = key.as_slice();
    let ghost pv = passthrough_extensions();
    let ghost cv = convert_extensions();
    if str_is(k, "wav") || str_is(k, "mp3") || str_is(k, "flac") || str_is(k, "ogg") {
        proof {
            assert(pv[0] == "wav"@ && pv[1] == "mp3"@ && pv[2] == "flac"@ && pv[3] == "ogg"@);
            if key@ == "wav"@ {
                assert(pv[0] == key@);
            } else if key@ == "mp3"@ {
                assert(pv[1] == key@);
            } else if key@ == "flac"@ {
                assert(pv[2] == key@);
            } else {
                assert(pv[3] == key@);
            }
        }
        ImportPlan::Passthrough
    } else if str_is(k, "m4a") || str_is(k, "opus") || str_is(k, "mp4") || str_is(k, "webm")
        || str_is(k, "aac") || str_is(k, "mkv") || str_is(k, "mov") || str_is(k, "m4v")
        || str_is(k, "wma") || str_is(k, "aiff") {
        proof {
            assert(!pv.contains(key@));
            let i: int = if key@ == cv[0] {
                0
            } else if key@ == cv[1] {
                1
            } else if key@ == cv[2] {
                2
            } else if key@ == cv[3] {
                3
            } else if key@ == cv[4] {
                4
            } else if key@ == cv[5] {
                5
            } else if key@ == cv[6] {
                6
            } else if key@ == cv[7] {
                7
            } else if key@ == cv[8] {
                8
            } else {
                9
            };
            assert(cv[i] == key@);
        }
        ImportPlan::ConvertToMp3
    } else {
        proof {
            assert(!pv.contains(key@));
            assert(!cv.contains(key@));
        }
        ImportPlan::Unsupported
    }
}

/// The plan for a file by its extension; a file without one is unsupported.
pub open spec fn plan_for_path(path: Seq<char>) -> ImportPlan {
    match extension_of(path) {
        Some(e) => plan_for(e),
        None => ImportPlan::Unsupported,
    }
}

pub fn classify_path(path: &str) -> (plan: ImportPlan)
    ensures
        plan == plan_for_path(path@),
{
    match extension(chars_of(path).as_slice()) {
        Some(e) => classify_extension(string_of(e.as_slice()).as_str()),
        None => ImportPlan::Unsupported,
    }
}

/// The sentence a rejected format is answered with, naming every format that imports.
pub fn supported_extensions_sentence() -> (s: String)
    ensures
        s@ == "Import one of: wav, mp3, flac, ogg, m4a, opus, mp4, webm, aac, mkv, mov, m4v, wma, aiff."@,
{
    "Import one of: wav, mp3, flac, ogg, m4a, opus, mp4, webm, aac, mkv, mov, m4v, wma, aiff.".to_string()
}

/// A file an import will take: its path less the whitespace around it, its file name, and
/// what it needs before it lands in the library.
#[derive(Debug)]
pub struct ImportSource {
    pub path: String,
    pub file_name: String,
    pub plan: ImportPlan,
}

/// The path an import reads from: the one given, less the whitespace around it; an empty
/// one is refused.
pub fn import_source_path(raw_path: &str) -> (r: Result<String, String>)
    ensures
        match r {
            Ok(path) => trim(raw_path@).len() > 0 && path@ == trim(raw_path@),
            Err(m) => trim(raw_path@).len() == 0 && m@ == "That import path is empty."@,
        },
{
    let t = trimmed(chars_of(raw_path).as_slice());
    if t.len() == 0 {
        Err("That import path is empty.".to_string())
    } else {
        Ok(string_of(t.as_slice()))
    }
}

/// What an import answers a source path with, given whether it could be read and whether
/// it is a file: a path that cannot be read, a folder, a path with no file name and a
/// format that does not import are each refused with their own sentence, in that order.
pub fn check_import_source(path: &str, readable: bool, is_file: bool) -> (r: Result<ImportSource, String>)
    ensures
        !readable ==> r is Err && r->Err_0@ == "That file could not be read. It may have been moved or deleted."@,
        readable && !is_file ==> r is Err && r->Err_0@ == "Only files can be imported, not folders."@,
        readable && is_file && file_name_of(path@).len() == 0 ==> r is Err && r->Err_0@
            == "That file name could not be read."@,
        readable && is_file && file_name_of(path@).len() > 0 && plan_for_path(path@) == ImportPlan::Unsupported
            ==> r is Err && r->Err_0@ == file_name_of(path@)
            + " is not a supported audio or video file. "@
            + "Import one of: wav, mp3, flac, ogg, m4a, opus, mp4, webm, aac, mkv, mov, m4v, wma, aiff."@,
        readable && is_file && file_name_of(path@).len() > 0 && plan_for_path(path@) != ImportPlan::Unsupported
            ==> r is Ok && r->Ok_0.path@ == path@ && r->Ok_0.file_name@ == file_name_of(path@)
            && r->Ok_0.plan == plan_for_path(path@),
{
    if !readable {
        return Err("That file could not be read. It may have been moved or deleted.".to_string());
    }
    if !is_file {
        return Err("Only files can be imported, not folders.".to_string());
    }
    let name = crate::paths::file_name(chars_of(path).as_slice());
    if name.len() == 0 {
        return Err("That file name could not be read.".to_string());
    }
    let plan = classify_path(path);
    if plan == ImportPlan::Unsupported {
        let mut m = name.clone();
        crate::text::push_str(&mut m, " is not a supported audio or video file. ");
        let sentence = supported_extensions_sentence();
        crate::text::push_str(&mut m, sentence.as_str());
        return Err(string_of(m.as_slice()));
    }
    Ok(ImportSource { path: path.to_string(), file_name: string_of(name.as_slice()), plan })
}

/// A target that turns out to be the source itself is refused.
pub fn check_import_target(file_name: &str, same_file: bool) -> (r: Result<(), String>)
    ensures
        same_file ==> r is Err && r->Err_0@ == file_name@ + " is already in the recordings folder."@,
        !same_file ==> r is Ok,
{
    if same_file {
        let mut m = chars_of(file_name);
        crate::text::push_str(&mut m, " is already in the recordings folder.");
        Err(string_of(m.as_slice()))
    } else {
        Ok(())
    }
}

/// An import that wrote nothing is refused.
pub fn check_import_output(file_name: &str, bytes_written: u64) -> (r: Result<(), String>)
    ensures
        bytes_written == 0 ==> r is Err && r->Err_0@ == file_name@ + " produced an empty audio file."@,
        bytes_written > 0 ==> r is Ok,
{
    if bytes_written == 0 {
        let mut m = chars_of(file_name);
        crate::text::push_str(&mut m, " produced an empty audio file.");
        Err(string_of(m.as_slice()))
    } else {
        Ok(())
    }
}

/// What a format that needs converting is answered with when ffmpeg is missing.
pub const FFMPEG_REQUIRED_MESSAGE: &'static str = "FFmpeg is required to import this format; install it in Setup.";

/// The ffmpeg arguments that transcode a container's first audio stream, and only that, to
/// 128 kbit/s MP3.
pub open spec fn convert_args_spec(input: Seq<char>, output: Seq<char>) -> Seq<Seq<char>> {
    seq![
        "-y"@,
        "-nostdin"@,
        "-hide_banner"@,
        "-loglevel"@,
        "error"@,
        "-i"@,
        input,
        "-map"@,
        "0:a:0"@,
        "-vn"@,
        "-codec:a"@,
        "libmp3lame"@,
        "-b:a"@,
        "128k"@,
        output,
    ]
}

pub fn convert_ffmpeg_args(input: &str, output: &str) -> (args: Vec<String>)
    ensures
        arg_views(args@) == convert_args_spec(input@, output@),
{
    let mut args: Vec<String> = Vec::new();
    push_arg(&mut args, "-y");
    push_arg(&mut args, "-nostdin");
    push_arg(&mut args, "-hide_banner");
    push_arg(&mut args, "-loglevel");
    push_arg(&mut args, "error");
    push_arg(&mut args, "-i");
    push_arg(&mut args, input);
    push_arg(&mut args, "-map");
    push_arg(&mut args, "0:a:0");
    push_arg(&mut args, "-vn");
    push_arg(&mut args, "-codec:a");
    push_arg(&mut args, "libmp3lame");
    push_arg(&mut args, "-b:a");
    push_arg(&mut args, "128k");
    push_arg(&mut args, output);
    assert(arg_views(args@) =~= convert_args_spec(input@, output@));
    args
}

/// ffprobe beside ffmpeg, with ffmpeg's extension (`ffprobe.exe` next to `ffmpeg.exe`).
pub open spec fn ffprobe_path(ffmpeg: Seq<char>) -> Seq<char> {
    let name = match extension_of(ffmpeg) {
        Some(e) => "ffprobe."@ + e,
        None => "ffprobe"@,
    };
    let dir = parent_of(ffmpeg);
    if dir.len() > 0 {
        join(dir, name)
    } else {
        name
    }
}

pub fn ffprobe_path_for(ffmpeg_executable: &str) -> (out: String)
    ensures
        out@ == ffprobe_path(ffmpeg_executable@),
{
    let f = chars_of(ffmpeg_executable);
    let name = match extension(f.as_slice()) {
        Some(e) => {
            let mut n = chars_of("ffprobe.");
            crate::text::push_chars(&mut n, e.as_slice());
            n
        },
        None => chars_of("ffprobe"),
    };
    let dir = parent(f.as_slice());
    if dir.len() > 0 {
        string_of(join_exec(dir.as_slice(), name.as_slice()).as_slice())
    } else {
        string_of(name.as_slice())
    }
}

/// Whether decimal text names more than zero: some character of it is a digit other than `0`.
pub open spec fn names_more_than_zero(value: Seq<char>) -> bool {
    exists|k: int| 0 <= k < value.len() && value[k] != '0' && value[k] != '.'
}

/// The duration ffprobe prints, as the first line of its output in seconds, to the nearest
/// millisecond; `None` where that line is no decimal number or names no time at all.
pub open spec fn ffprobe_duration(stdout: Seq<char>) -> Option<u64> {
    let first = lines(trim(stdout));
    if first.len() == 0 {
        None
    } else {
        match vad_seconds(first[0], Rounding::Nearest) {
            Some(ms) => if names_more_than_zero(trim(first[0])) {
                Some(ms)
            } else {
                None
            },
            None => None,
        }
    }
}

/// The duration in milliseconds that ffprobe's `format=duration` output names.
pub fn parse_ffprobe_duration_ms(stdout: &str) -> (r: Option<u64>)
    ensures
        r == ffprobe_duration(stdout@),
{
    let all = chars_of(stdout);
    let t = trimmed(all.as_slice());
    let ls = lines_exec(t.as_slice());
    if ls.len() == 0 {
        return None;
    }
    let line = &ls[0];
    let ms = match vad_seconds_of(line.as_slice(), Rounding::Nearest) {
        Some(ms) => ms,
        None => return None,
    };
    let v = trimmed(line.as_slice());
    assert(line@ == lines(trim(stdout@))[0]);
    assert(vad_seconds(lines(trim(stdout@))[0], Rounding::Nearest) == Some(ms));
    assert(lines(trim(stdout@)).len() > 0);
    assert(v@ == trim(lines(trim(stdout@))[0]));
    let mut i: usize = 0;
    while i < v.len()
        invariant
            i <= v@.len(),
            forall|k: int| 0 <= k < i ==> (v@[k] == '0' || v@[k] == '.'),
            lines(trim(stdout@)).len() > 0,
            v@ == trim(lines(trim(stdout@))[0]),
            vad_seconds(lines(trim(stdout@))[0], Rounding::Nearest) == Some(ms),
        decreases v.len() - i,
    {
        if v[i] != '0' && v[i] != '.' {
            assert(v@[i as int] != '0' && v@[i as int] != '.');
            assert(names_more_than_zero(v@));
            return Some(ms);
        }
        i = i + 1;
    }
    assert(!names_more_than_zero(v@));
    None
}

} // verus!
