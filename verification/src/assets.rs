//! The helper tools the app downloads and manages (whisper's runtime aside): where each is
//! installed, where its binary may sit, how its version is read from what it prints, and the
//! small caches that keep detection from spawning a process on every refresh.
use vstd::prelude::*;

use crate::command::{arg_views, push_arg};
use crate::paths::join;
use crate::text::{
    chars_of, ends_with, ends_with_exec, lower_seq, lines, lines_exec, split_exec, split_on,
    string_of, trim, trimmed,
};

verus! {

/// The IPADIC dictionary release the app installs.
pub const IPADIC_DICTIONARY_VERSION: &'static str = "4.0.0";

/// Paths as character sequences.
pub open spec fn paths_view(v: Seq<String>) -> Seq<Seq<char>> {
    v.map_values(|p: String| p@)
}

/// `path` appended unless it is already listed.
pub open spec fn push_unique(list: Seq<Seq<char>>, path: Seq<char>) -> Seq<Seq<char>> {
    if list.contains(path) {
        list
    } else {
        list.push(path)
    }
}

/// Appends a candidate unless it is already listed.
pub fn push_candidate(candidates: &mut Vec<String>, candidate: String)
    ensures
        paths_view(final(candidates)@) == push_unique(paths_view(old(candidates)@), candidate@),
{
    let mut i: usize = 0;
    while i < candidates.len()
        invariant
            i <= candidates@.len(),
            candidates@ == old(candidates)@,
            forall|k: int| 0 <= k < i ==> #[trigger] candidates@[k]@ != candidate@,
        decreases candidates.len() - i,
    {
        if candidates[i] == candidate {
            assert(paths_view(candidates@)[i as int] == candidate@);
            return;
        }
        i = i + 1;
    }
    proof {
        if paths_view(candidates@).contains(candidate@) {
            let k = choose|k: int| 0 <= k < paths_view(candidates@).len() && paths_view(candidates@)[k] == candidate@;
            assert(candidates@[k]@ == candidate@);
        }
    }
    candidates.push(candidate);
    assert(paths_view(candidates@) =~= paths_view(old(candidates)@).push(candidate@));
}

fn joined_path(base: &str, name: &str) -> (out: String)
    ensures
        out@ == join(base@, name@),
{
    crate::paths::join_str(base, name)
}

/// Where the app installs alass: `<assets>/alass`.
pub fn managed_alass_install_directory(asset_directory: &str) -> (out: String)
    ensures
        out@ == join(asset_directory@, "alass"@),
{
    joined_path(asset_directory, "alass")
}

/// Where the app installs mpv: `<assets>/mpv`.
pub fn managed_mpv_install_directory(asset_directory: &str) -> (out: String)
    ensures
        out@ == join(asset_directory@, "mpv"@),
{
    joined_path(asset_directory, "mpv")
}

/// Where the app installs yt-dlp: `<assets>/yt-dlp`.
pub fn managed_ytdlp_install_directory(asset_directory: &str) -> (out: String)
    ensures
        out@ == join(asset_directory@, "yt-dlp"@),
{
    joined_path(asset_directory, "yt-dlp")
}

/// Where the app installs ffmpeg: `<assets>/ffmpeg-runtime/latest`.
pub fn managed_ffmpeg_install_directory(asset_directory: &str) -> (out: String)
    ensures
        out@ == join(join(asset_directory@, "ffmpeg-runtime"@), "latest"@),
{
    let root = joined_path(asset_directory, "ffmpeg-runtime");
    joined_path(root.as_str(), "latest")
}

/// Where the app installs the dictionary, pinned to its release:
/// `<assets>/lindera-ipadic/<version>`.
pub fn managed_dictionary_install_directory(asset_directory: &str) -> (out: String)
    ensures
        out@ == join(join(asset_directory@, "lindera-ipadic"@), IPADIC_DICTIONARY_VERSION@),
{
    let root = joined_path(asset_directory, "lindera-ipadic");
    joined_path(root.as_str(), IPADIC_DICTIONARY_VERSION)
}

/// The alass binary lands flat in its install directory, with or without `.exe`.
pub fn collect_managed_alass_candidates(asset_directory: &str) -> (c: Vec<String>)
    ensures
        paths_view(c@) == seq![
            join(join(asset_directory@, "alass"@), "alass-cli.exe"@),
            join(join(asset_directory@, "alass"@), "alass-cli"@),
        ],
{
    let dir = managed_alass_install_directory(asset_directory);
    let mut c: Vec<String> = Vec::new();
    c.push(joined_path(dir.as_str(), "alass-cli.exe"));
    c.push(joined_path(dir.as_str(), "alass-cli"));
    assert(paths_view(c@) =~= seq![
        join(join(asset_directory@, "alass"@), "alass-cli.exe"@),
        join(join(asset_directory@, "alass"@), "alass-cli"@),
    ]);
    c
}

/// The yt-dlp binary lands flat, as `yt-dlp.exe` or `yt-dlp`, listed once each.
pub fn collect_managed_ytdlp_candidates(asset_directory: &str) -> (c: Vec<String>)
    ensures
        paths_view(c@) == push_unique(
            push_unique(Seq::empty(), join(join(asset_directory@, "yt-dlp"@), "yt-dlp.exe"@)),
            join(join(asset_directory@, "yt-dlp"@), "yt-dlp"@),
        ),
{
    let dir = managed_ytdlp_install_directory(asset_directory);
    let mut c: Vec<String> = Vec::new();
    assert(paths_view(c@) =~= Seq::<Seq<char>>::empty());
    push_candidate(&mut c, joined_path(dir.as_str(), "yt-dlp.exe"));
    push_candidate(&mut c, joined_path(dir.as_str(), "yt-dlp"));
    c
}

/// mpv unpacks from an archive, so its binary may sit in the install directory or one
/// level down; each place is listed once.
pub fn collect_managed_mpv_candidates(asset_directory: &str) -> (c: Vec<String>)
    ensures
        paths_view(c@) == push_unique(
            push_unique(
                push_unique(Seq::empty(), join(join(asset_directory@, "mpv"@), "mpv.exe"@)),
                join(join(asset_directory@, "mpv"@), "mpv"@),
            ),
            join(join(join(asset_directory@, "mpv"@), "mpv"@), "mpv.exe"@),
        ),
{
    let dir = managed_mpv_install_directory(asset_directory);
    let mut c: Vec<String> = Vec::new();
    assert(paths_view(c@) =~= Seq::<Seq<char>>::empty());
    push_candidate(&mut c, joined_path(dir.as_str(), "mpv.exe"));
    push_candidate(&mut c, joined_path(dir.as_str(), "mpv"));
    let nested = joined_path(dir.as_str(), "mpv");
    push_candidate(&mut c, joined_path(nested.as_str(), "mpv.exe"));
    c
}

/// The archive entry that is the alass binary: the first whose name, with `\` read as `/`,
/// ends in `bin/alass-cli.exe`.
pub open spec fn is_alass_entry(name: Seq<char>) -> bool {
    ends_with(name.map_values(|c: char| if c == '\\' { '/' } else { c }), "bin/alass-cli.exe"@)
}

pub open spec fn first_alass_entry(names: Seq<Seq<char>>) -> Option<Seq<char>>
    decreases names.len(),
{
    if names.len() == 0 {
        None
    } else if is_alass_entry(names[0]) {
        Some(names[0])
    } else {
        first_alass_entry(names.drop_first())
    }
}

fn is_alass_entry_exec(name: &str) -> (b: bool)
    ensures
        b == is_alass_entry(name@),
{
    let chars = chars_of(name);
    let mut normalized: Vec<char> = Vec::new();
    let mut i: usize = 0;
    while i < chars.len()
        invariant
            i <= chars@.len(),
            chars@ == name@,
            normalized@ == name@.take(i as int).map_values(|c: char| if c == '\\' { '/' } else { c }),
        decreases chars.len() - i,
    {
        let c = chars[i];
        normalized.push(if c == '\\' {
            '/'
        } else {
            c
        });
        assert(name@.take(i + 1).map_values(|c: char| if c == '\\' { '/' } else { c }) =~= name@.take(
            i as int,
        ).map_values(|c: char| if c == '\\' { '/' } else { c }).push(
            if c == '\\' {
                '/'
            } else {
                c
            },
        ));
        i = i + 1;
    }
    assert(name@.take(name@.len() as int) =~= name@);
    ends_with_exec(normalized.as_slice(), chars_of("bin/alass-cli.exe").as_slice())
}

/// Picks the alass binary out of the release archive's entry names.
pub fn alass_archive_entry(names: &[String]) -> (r: Option<String>)
    ensures
        match r {
            Some(n) => first_alass_entry(paths_view(names@)) == Some(n@),
            None => first_alass_entry(paths_view(names@)) is None,
        },
{
    let ghost nv = paths_view(names@);
    let mut i: usize = 0;
    assert(nv.skip(0) =~= nv);
    while i < names.len()
        invariant
            i <= names@.len(),
            nv == paths_view(names@),
            first_alass_entry(nv) == first_alass_entry(nv.skip(i as int)),
        decreases names.len() - i,
    {
        assert(nv.skip(i as int)[0] == names@[i as int]@);
        if is_alass_entry_exec(names[i].as_str()) {
            return Some(names[i].clone());
        }
        assert(nv.skip(i as int).drop_first() =~= nv.skip(i + 1));
        i = i + 1;
    }
    None
}

/// The alass arguments: framerate guessing off, the reference video, the subtitles to
/// correct, and the output last.
pub fn alass_args(video: &str, incorrect_subtitles: &str, output: &str) -> (args: Vec<String>)
    ensures
        arg_views(args@) == seq![
            "--disable-fps-guessing"@,
            "--speed-optimization"@,
            "0"@,
            video@,
            incorrect_subtitles@,
            output@,
        ],
{
    let mut args: Vec<String> = Vec::new();
    push_arg(&mut args, "--disable-fps-guessing");
    push_arg(&mut args, "--speed-optimization");
    push_arg(&mut args, "0");
    push_arg(&mut args, video);
    push_arg(&mut args, incorrect_subtitles);
    push_arg(&mut args, output);
    assert(arg_views(args@) =~= seq![
        "--disable-fps-guessing"@,
        "--speed-optimization"@,
        "0"@,
        video@,
        incorrect_subtitles@,
        output@,
    ]);
    args
}

/// The words of a line: runs of non-whitespace.
pub open spec fn words(line: Seq<char>) -> Seq<Seq<char>> {
    let s = trim(crate::library::naming::squeeze(line));
    if s.len() == 0 {
        Seq::empty()
    } else {
        split_on(s, ' ')
    }
}

/// The first line with something on it, trimmed.
pub open spec fn first_nonblank(ls: Seq<Seq<char>>) -> Option<Seq<char>>
    decreases ls.len(),
{
    if ls.len() == 0 {
        None
    } else if trim(ls[0]).len() > 0 {
        Some(trim(ls[0]))
    } else {
        first_nonblank(ls.drop_first())
    }
}

/// The version in a `--version` banner: on the first non-blank line, the second word (the
/// first is the tool's name), or the third when the second is `version`; a lone word is the
/// version itself. Whatever is picked must hold a digit, or there is no version.
pub open spec fn banner_version(stdout: Seq<char>) -> Option<Seq<char>> {
    match first_nonblank(lines(stdout)) {
        None => None,
        Some(line) => match version_candidate(words(line)) {
            Some(c) => if holds_digit(c) {
                Some(c)
            } else {
                None
            },
            None => None,
        },
    }
}

/// The word a banner's version is read from.
pub open spec fn version_candidate(w: Seq<Seq<char>>) -> Option<Seq<char>> {
    if w.len() == 0 {
        None
    } else if w.len() == 1 {
        Some(w[0])
    } else if lower_seq(w[1]) == "version"@ {
        if w.len() >= 3 {
            Some(w[2])
        } else {
            None
        }
    } else {
        Some(w[1])
    }
}

pub open spec fn holds_digit(c: Seq<char>) -> bool {
    exists|i: int| 0 <= i < c.len() && crate::text::is_digit(#[trigger] c[i])
}

fn squeeze_exec(s: &[char]) -> (out: Vec<char>)
    ensures
        out@ == crate::library::naming::squeeze(s@),
{
    let mut out: Vec<char> = Vec::new();
    let mut i: usize = 0;
    while i < s.len()
        invariant
            i <= s@.len(),
            out@ == crate::library::naming::squeeze(s@.take(i as int)),
        decreases s.len() - i,
    {
        assert(s@.take(i + 1).drop_last() =~= s@.take(i as int));
        let c = s[i];
        if crate::text::is_ws_char(c) {
            if !(out.len() > 0 && out[out.len() - 1] == ' ') {
                out.push(' ');
            }
        } else {
            out.push(c);
        }
        i = i + 1;
    }
    assert(s@.take(s@.len() as int) =~= s@);
    out
}

fn has_digit(c: &[char]) -> (b: bool)
    ensures
        b == exists|i: int| 0 <= i < c@.len() && crate::text::is_digit(#[trigger] c@[i]),
{
    let mut i: usize = 0;
    while i < c.len()
        invariant
            i <= c@.len(),
            forall|k: int| 0 <= k < i ==> !crate::text::is_digit(#[trigger] c@[k]),
        decreases c.len() - i,
    {
        if '0' <= c[i] && c[i] <= '9' {
            assert(crate::text::is_digit(c@[i as int]));
            return true;
        }
        i = i + 1;
    }
    false
}

fn first_nonblank_exec(ls: &Vec<Vec<char>>, Ghost(lv): Ghost<Seq<Seq<char>>>) -> (r: Option<Vec<char>>)
    requires
        ls@.len() == lv.len(),
        forall|k: int| 0 <= k < lv.len() ==> #[trigger] ls@[k]@ == lv[k],
    ensures
        match r {
            Some(l) => first_nonblank(lv) == Some(l@),
            None => first_nonblank(lv) is None,
        },
{
    let mut i: usize = 0;
    assert(lv.skip(0) =~= lv);
    while i < ls.len()
        invariant
            i <= ls@.len(),
            ls@.len() == lv.len(),
            forall|k: int| 0 <= k < lv.len() ==> #[trigger] ls@[k]@ == lv[k],
            first_nonblank(lv) == first_nonblank(lv.skip(i as int)),
        decreases ls.len() - i,
    {
        assert(lv.skip(i as int)[0] == lv[i as int]);
        let t = trimmed(ls[i].as_slice());
        if t.len() > 0 {
            return Some(t);
        }
        assert(lv.skip(i as int).drop_first() =~= lv.skip(i + 1));
        i = i + 1;
    }
    None
}

/// Reads the version out of a tool's `--version` banner.
pub fn version_from_banner(stdout: &str) -> (r: Option<String>)
    ensures
        match r {
            Some(v) => banner_version(stdout@) == Some(v@),
            None => banner_version(stdout@) is None,
        },
{
    proof {
        reveal_strlit("version");
    }
    let ls = lines_exec(chars_of(stdout).as_slice());
    let line = match first_nonblank_exec(&ls, Ghost(lines(stdout@))) {
        Some(l) => l,
        None => return None,
    };
    let s = trimmed(squeeze_exec(line.as_slice()).as_slice());
    if s.len() == 0 {
        return None;
    }
    let w = split_exec(s.as_slice(), ' ');
    let ghost wv = words(line@);
    assert(wv == split_on(s@, ' '));
    assert(w@.len() == wv.len());
    assert(forall|k: int| 0 <= k < w@.len() ==> #[trigger] w@[k]@ == wv[k]);
    if w.len() == 0 {
        return None;
    }
    let candidate: &Vec<char> = if w.len() == 1 {
        &w[0]
    } else if crate::text::seq_eq(crate::text::lowercase(w[1].as_slice()).as_slice(), chars_of("version").as_slice()) {
        if w.len() >= 3 {
            &w[2]
        } else {
            return None;
        }
    } else {
        &w[1]
    };
    assert(w.len() == 1 ==> candidate@ == wv[0]);
    assert(w.len() > 1 ==> lower_seq(wv[1]) == "version"@ ==> candidate@ == wv[2]);
    assert(w.len() > 1 ==> lower_seq(wv[1]) != "version"@ ==> candidate@ == wv[1]);
    assert(first_nonblank(lines(stdout@)) == Some(line@));
    let d = has_digit(candidate.as_slice());
    assert(d == holds_digit(candidate@));
    assert(version_candidate(wv) == Some(candidate@));
    if d {
        Some(string_of(candidate.as_slice()))
    } else {
        None
    }
}

} // verus!
