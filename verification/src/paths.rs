//! Paths as text, the way Windows reads them: `\` and `/` both separate components.
use vstd::prelude::*;

verus! {

pub open spec fn is_sep(c: char) -> bool {
    c == '\\' || c == '/'
}

/// Where the last separator in `p` is, or -1.
pub open spec fn last_sep(p: Seq<char>) -> int
    decreases p.len(),
{
    if p.len() == 0 {
        -1
    } else if is_sep(p.last()) {
        p.len() - 1
    } else {
        last_sep(p.drop_last())
    }
}

pub proof fn lemma_last_sep(p: Seq<char>)
    ensures
        -1 <= last_sep(p) < p.len(),
        last_sep(p) >= 0 ==> is_sep(p[last_sep(p)]),
        forall|k: int| last_sep(p) < k < p.len() ==> !is_sep(#[trigger] p[k]),
    decreases p.len(),
{
    if p.len() > 0 && !is_sep(p.last()) {
        lemma_last_sep(p.drop_last());
        assert forall|k: int| last_sep(p) < k < p.len() implies !is_sep(#[trigger] p[k]) by {
            if k < p.len() - 1 {
                assert(p[k] == p.drop_last()[k]);
            }
        }
    }
}

/// `p` without what `Path` does not count as a last component of its own: separators it
/// ends with, and a `.` that follows a separator.
pub open spec fn trim_tail(p: Seq<char>) -> Seq<char>
    decreases p.len(),
{
    if p.len() > 0 && is_sep(p.last()) {
        trim_tail(p.drop_last())
    } else if p.len() >= 2 && p.last() == '.' && is_sep(p[p.len() - 2]) {
        trim_tail(p.drop_last())
    } else {
        p
    }
}

pub proof fn lemma_trim_tail(p: Seq<char>)
    ensures
        trim_tail(p).len() <= p.len(),
        trim_tail(p) =~= p.take(trim_tail(p).len() as int),
    decreases p.len(),
{
    if p.len() > 0 && is_sep(p.last()) {
        lemma_trim_tail(p.drop_last());
    } else if p.len() >= 2 && p.last() == '.' && is_sep(p[p.len() - 2]) {
        lemma_trim_tail(p.drop_last());
    }
}

pub open spec fn is_ascii_letter(c: char) -> bool {
    ('a' <= c && c <= 'z') || ('A' <= c && c <= 'Z')
}

/// How long the drive a path begins with is, as `Path` reads a prefix such as `C:`: two
/// characters, or none.
pub open spec fn drive_len(p: Seq<char>) -> int {
    if p.len() >= 2 && p[1] == ':' && is_ascii_letter(p[0]) {
        2
    } else {
        0
    }
}

/// The last component of a path with no drive: separators that end it, and a `.` after
/// one, are no component of their own; a last component of `.` or `..` is no file name.
pub open spec fn name_in(r: Seq<char>) -> Seq<char> {
    let t = trim_tail(r);
    let n = t.skip(last_sep(t) + 1);
    if n == "."@ || n == ".."@ {
        Seq::empty()
    } else {
        n
    }
}

/// Everything before the last component of a path with no drive, less the separators
/// between them: the root separator itself when the path is rooted there, and nothing when
/// the last component is the only one.
pub open spec fn parent_in(r: Seq<char>) -> Seq<char> {
    let t = trim_tail(r);
    let i = last_sep(t);
    if i < 0 {
        Seq::empty()
    } else if trim_tail(t.take(i)).len() == 0 {
        t.take(1)
    } else {
        trim_tail(t.take(i))
    }
}

/// The last component, as `Path::file_name` finds it after the drive; empty where there
/// is none.
pub open spec fn file_name_of(p: Seq<char>) -> Seq<char> {
    name_in(p.skip(drive_len(p)))
}

/// Whether `Path::parent` gives a path at all: not for the empty path, nor for a drive or
/// a root alone.
pub open spec fn has_parent(p: Seq<char>) -> bool {
    trim_tail(p.skip(drive_len(p))).len() > 0
}

/// `Path::parent`: the drive, then everything before the last component.
pub open spec fn parent_of(p: Seq<char>) -> Seq<char> {
    p.take(drive_len(p)) + parent_in(p.skip(drive_len(p)))
}

/// `Path::join` as Windows has it: a name with a drive replaces the base; a name from the
/// root keeps only the base's drive; otherwise the name follows the base, after a `\`
/// unless the base is empty, ends in a separator or is a bare drive such as `C:`.
pub open spec fn join(base: Seq<char>, name: Seq<char>) -> Seq<char> {
    if drive_len(name) == 2 {
        name
    } else if name.len() > 0 && is_sep(name[0]) {
        base.take(drive_len(base)) + name
    } else if base.len() == 0 || is_sep(base.last()) || (drive_len(base) == 2 && base.len() == 2) {
        base + name
    } else {
        base + seq!['\\'] + name
    }
}

/// The last separator of `pre + name` is the one `pre` ends with, when `name` holds none.
proof fn lemma_last_sep_before_name(pre: Seq<char>, name: Seq<char>)
    requires
        pre.len() == 0 || is_sep(pre.last()),
        forall|k: int| 0 <= k < name.len() ==> !is_sep(#[trigger] name[k]),
    ensures
        last_sep(pre + name) == pre.len() - 1,
    decreases name.len(),
{
    if name.len() == 0 {
        assert(pre + name =~= pre);
    } else {
        assert((pre + name).last() == name[name.len() - 1]);
        assert((pre + name).drop_last() =~= pre + name.drop_last());
        assert forall|k: int| 0 <= k < name.drop_last().len() implies !is_sep(#[trigger] name.drop_last()[k]) by {
            assert(name.drop_last()[k] == name[k]);
        }
        lemma_last_sep_before_name(pre, name.drop_last());
    }
}

/// A path without separators or drive, not ending in `.`, is its own last component.
proof fn lemma_name_in_plain(q: Seq<char>, name: Seq<char>)
    requires
        name.len() > 0,
        name.last() != '.',
        forall|k: int| 0 <= k < name.len() ==> !is_sep(#[trigger] name[k]),
        q.len() == 0 || is_sep(q.last()),
    ensures
        name_in(q + name) == name,
{
    let r = q + name;
    assert(r.last() == name[name.len() - 1]);
    assert(trim_tail(r) == r);
    lemma_last_sep_before_name(q, name);
    assert(r.skip(q.len() as int) =~= name);
    reveal_strlit(".");
    reveal_strlit("..");
    if name == "."@ || name == ".."@ {
        assert(name.last() == '.');
    }
}

/// A name without separators that does not end in `.`, put under any base, is the file name
/// of what comes out, less any drive it begins with.
pub proof fn lemma_file_name_of_join(base: Seq<char>, name: Seq<char>)
    requires
        name.len() > 0,
        name.last() != '.',
        forall|k: int| 0 <= k < name.len() ==> !is_sep(#[trigger] name[k]),
    ensures
        file_name_of(join(base, name)) == name.skip(drive_len(name)),
{
    let j = join(base, name);
    if drive_len(name) == 2 {
        let r = name.skip(2);
        if r.len() == 0 {
            assert(trim_tail(r) == r);
            assert(r.skip(last_sep(r) + 1) =~= r);
            reveal_strlit(".");
            reveal_strlit("..");
        } else {
            assert(r.last() == name.last());
            assert forall|k: int| 0 <= k < r.len() implies !is_sep(#[trigger] r[k]) by {
                assert(r[k] == name[k + 2]);
            }
            assert(Seq::<char>::empty() + r =~= r);
            lemma_name_in_plain(Seq::empty(), r);
        }
    } else {
        assert(!is_sep(name[0]));
        let pre = if base.len() == 0 || is_sep(base.last()) || (drive_len(base) == 2 && base.len() == 2) {
            base
        } else {
            base + seq!['\\']
        };
        assert(j =~= pre + name);
        let d = drive_len(j);
        if base.len() >= 2 {
            assert(j[0] == base[0] && j[1] == base[1]);
            assert(d == drive_len(base));
        } else if base.len() == 1 {
            assert(j[1] == pre[1] || j[1] == name[0]);
            if pre.len() == 1 {
                assert(j[0] == base[0]);
                if is_sep(base[0]) {
                    assert(!is_ascii_letter(j[0]));
                }
            } else {
                assert(j[1] == '\\');
            }
            assert(d == 0);
        } else {
            assert(j =~= name);
            assert(d == 0);
        }
        let q = pre.skip(d);
        assert(j.skip(d) =~= q + name);
        if q.len() > 0 {
            assert(q.last() == pre.last());
        }
        assert(name.skip(0) =~= name);
        lemma_name_in_plain(q, name);
    }
}

/// `str::rfind` for the separators.
pub fn last_sep_exec(p: &[char]) -> (r: Option<usize>)
    ensures
        match r {
            Some(i) => i as int == last_sep(p@) && i < p@.len(),
            None => last_sep(p@) == -1,
        },
{
    proof {
        lemma_last_sep(p@);
    }
    let mut k = p.len();
    assert(p@.take(k as int) =~= p@);
    while k > 0
        invariant
            k <= p@.len(),
            last_sep(p@) == last_sep(p@.take(k as int)),
        decreases k,
    {
        assert(p@.take(k as int).last() == p@[k - 1]);
        if p[k - 1] == '\\' || p[k - 1] == '/' {
            return Some(k - 1);
        }
        assert(p@.take(k as int).drop_last() =~= p@.take(k - 1));
        k = k - 1;
    }
    assert(p@.take(0) =~= Seq::<char>::empty());
    None
}

/// The length of `trim_tail(p)`.
pub fn trim_tail_exec(p: &[char]) -> (n: usize)
    ensures
        n == trim_tail(p@).len(),
{
    proof {
        lemma_trim_tail(p@);
    }
    let mut k = p.len();
    assert(p@.take(k as int) =~= p@);
    while k > 0 && (p[k - 1] == '\\' || p[k - 1] == '/' || (k >= 2 && p[k - 1] == '.' && (p[k - 2]
        == '\\' || p[k - 2] == '/')))
        invariant
            k <= p@.len(),
            trim_tail(p@) == trim_tail(p@.take(k as int)),
        decreases k,
    {
        assert(p@.take(k as int).last() == p@[k - 1]);
        if k >= 2 {
            assert(p@.take(k as int)[k - 2] == p@[k - 2]);
        }
        assert(p@.take(k as int).drop_last() =~= p@.take(k - 1));
        k = k - 1;
    }
    if k > 0 {
        assert(p@.take(k as int).last() == p@[k - 1]);
        if k >= 2 {
            assert(p@.take(k as int)[k - 2] == p@[k - 2]);
        }
    }
    k
}

fn is_dot_name(n: &[char]) -> (b: bool)
    ensures
        b == (n@ == "."@ || n@ == ".."@),
{
    proof {
        reveal_strlit(".");
        reveal_strlit("..");
    }
    if n.len() == 1 && n[0] == '.' {
        assert(n@ =~= "."@);
        true
    } else if n.len() == 2 && n[0] == '.' && n[1] == '.' {
        assert(n@ =~= ".."@);
        true
    } else {
        proof {
            if n@ == "."@ {
                assert(n@[0] == '.');
            }
            if n@ == ".."@ {
                assert(n@[0] == '.' && n@[1] == '.');
            }
        }
        false
    }
}

/// The length of the drive `p` begins with.
pub fn drive_len_exec(p: &[char]) -> (n: usize)
    ensures
        n as int == drive_len(p@),
{
    if p.len() >= 2 && p[1] == ':' && (('a' <= p[0] && p[0] <= 'z') || ('A' <= p[0] && p[0] <= 'Z')) {
        2
    } else {
        0
    }
}

fn name_in_exec(r: &[char]) -> (out: Vec<char>)
    ensures
        out@ == name_in(r@),
{
    let n = trim_tail_exec(r);
    proof {
        lemma_trim_tail(r@);
    }
    let t = crate::text::slice_to_vec(r, 0, n);
    assert(t@ =~= trim_tail(r@));
    proof {
        lemma_last_sep(t@);
    }
    let start = match last_sep_exec(t.as_slice()) {
        Some(i) => {
            assert(i < t.len());
            i + 1
        },
        None => 0,
    };
    let out = crate::text::slice_to_vec(t.as_slice(), start, t.len());
    assert(out@ =~= t@.skip(last_sep(t@) + 1));
    if is_dot_name(out.as_slice()) {
        Vec::new()
    } else {
        out
    }
}

fn parent_in_exec(r: &[char]) -> (out: Vec<char>)
    ensures
        out@ == parent_in(r@),
{
    let n = trim_tail_exec(r);
    proof {
        lemma_trim_tail(r@);
    }
    let t = crate::text::slice_to_vec(r, 0, n);
    assert(t@ =~= trim_tail(r@));
    proof {
        lemma_last_sep(t@);
    }
    match last_sep_exec(t.as_slice()) {
        None => Vec::new(),
        Some(i) => {
            let head = crate::text::slice_to_vec(t.as_slice(), 0, i);
            assert(head@ =~= t@.take(i as int));
            let m = trim_tail_exec(head.as_slice());
            if m == 0 {
                crate::text::slice_to_vec(t.as_slice(), 0, 1)
            } else {
                proof {
                    lemma_trim_tail(head@);
                }
                let out = crate::text::slice_to_vec(head.as_slice(), 0, m);
                assert(out@ =~= trim_tail(head@));
                out
            }
        },
    }
}

pub fn file_name(p: &[char]) -> (out: Vec<char>)
    ensures
        out@ == file_name_of(p@),
{
    let d = drive_len_exec(p);
    let r = crate::text::slice_to_vec(p, d, p.len());
    assert(r@ =~= p@.skip(d as int));
    name_in_exec(r.as_slice())
}

pub fn has_parent_exec(p: &[char]) -> (b: bool)
    ensures
        b == has_parent(p@),
{
    let d = drive_len_exec(p);
    let r = crate::text::slice_to_vec(p, d, p.len());
    assert(r@ =~= p@.skip(d as int));
    trim_tail_exec(r.as_slice()) > 0
}

pub fn parent(p: &[char]) -> (out: Vec<char>)
    ensures
        out@ == parent_of(p@),
{
    let d = drive_len_exec(p);
    let r = crate::text::slice_to_vec(p, d, p.len());
    assert(r@ =~= p@.skip(d as int));
    let mut out = crate::text::slice_to_vec(p, 0, d);
    assert(out@ =~= p@.take(d as int));
    let rest = parent_in_exec(r.as_slice());
    crate::text::push_chars(&mut out, rest.as_slice());
    out
}

pub fn join_exec(base: &[char], name: &[char]) -> (out: Vec<char>)
    ensures
        out@ == join(base@, name@),
{
    if drive_len_exec(name) == 2 {
        return crate::text::slice_to_vec(name, 0, name.len());
    }
    let mut out = if name.len() > 0 && (name[0] == '\\' || name[0] == '/') {
        let d = drive_len_exec(base);
        crate::text::slice_to_vec(base, 0, d)
    } else {
        let mut b = crate::text::slice_to_vec(base, 0, base.len());
        if !(base.len() == 0 || base[base.len() - 1] == '\\' || base[base.len() - 1] == '/' || (
        drive_len_exec(base) == 2 && base.len() == 2)) {
            b.push('\\');
        }
        b
    };
    crate::text::push_chars(&mut out, name);
    assert(base@.subrange(0, base@.len() as int) =~= base@);
    assert(name@.subrange(0, name@.len() as int) =~= name@);
    if base.len() > 0 {
        assert(base@.last() == base@[base@.len() - 1]);
    }
    out
}

/// `name` under `base`, as text.
pub fn join_str(base: &str, name: &str) -> (out: String)
    ensures
        out@ == join(base@, name@),
{
    let b = crate::text::chars_of(base);
    let n = crate::text::chars_of(name);
    let joined = join_exec(b.as_slice(), n.as_slice());
    crate::text::string_of(joined.as_slice())
}

/// Where the last `c` in `s` is, or -1.
pub open spec fn last_of(s: Seq<char>, c: char) -> int
    decreases s.len(),
{
    if s.len() == 0 {
        -1
    } else if s.last() == c {
        s.len() - 1
    } else {
        last_of(s.drop_last(), c)
    }
}

pub proof fn lemma_last_of(s: Seq<char>, c: char)
    ensures
        -1 <= last_of(s, c) < s.len(),
        last_of(s, c) >= 0 ==> s[last_of(s, c)] == c,
    decreases s.len(),
{
    if s.len() > 0 && s.last() != c {
        lemma_last_of(s.drop_last(), c);
    }
}

pub fn last_of_exec(s: &[char], c: char) -> (r: Option<usize>)
    ensures
        match r {
            Some(i) => i as int == last_of(s@, c) && i < s@.len(),
            None => last_of(s@, c) == -1,
        },
{
    let mut k = s.len();
    assert(s@.take(k as int) =~= s@);
    while k > 0
        invariant
            k <= s@.len(),
            last_of(s@, c) == last_of(s@.take(k as int), c),
        decreases k,
    {
        if s[k - 1] == c {
            return Some(k - 1);
        }
        assert(s@.take(k as int).drop_last() =~= s@.take(k - 1));
        k = k - 1;
    }
    None
}

/// `Path::extension`: what follows the last `.` of the file name, unless that dot opens
/// the name or the name is `..`.
pub open spec fn extension_of(p: Seq<char>) -> Option<Seq<char>> {
    let n = file_name_of(p);
    let d = last_of(n, '.');
    if d <= 0 || n == ".."@ {
        None
    } else {
        Some(n.skip(d + 1))
    }
}

/// `Path::file_stem`: the file name without its extension.
pub open spec fn stem_of(p: Seq<char>) -> Seq<char> {
    let n = file_name_of(p);
    let d = last_of(n, '.');
    if d <= 0 || n == ".."@ {
        n
    } else {
        n.take(d)
    }
}

fn is_dot_dot(n: &[char]) -> (b: bool)
    ensures
        b == (n@ == ".."@),
{
    proof {
        reveal_strlit("..");
    }
    n.len() == 2 && n[0] == '.' && n[1] == '.' && {
        assert(n@ =~= ".."@);
        true
    }
}

pub fn extension(p: &[char]) -> (r: Option<Vec<char>>)
    ensures
        match r {
            Some(e) => extension_of(p@) == Some(e@),
            None => extension_of(p@) is None,
        },
{
    let n = file_name(p);
    proof {
        lemma_last_of(n@, '.');
    }
    match last_of_exec(n.as_slice(), '.') {
        Some(d) => if d == 0 || is_dot_dot(n.as_slice()) {
            None
        } else {
            let len = n.len();
            assert(d < len);
            Some(crate::text::slice_to_vec(n.as_slice(), d + 1, len))
        },
        None => None,
    }
}

pub fn stem(p: &[char]) -> (out: Vec<char>)
    ensures
        out@ == stem_of(p@),
{
    let n = file_name(p);
    proof {
        lemma_last_of(n@, '.');
    }
    match last_of_exec(n.as_slice(), '.') {
        Some(d) => if d == 0 || is_dot_dot(n.as_slice()) {
            n
        } else {
            crate::text::slice_to_vec(n.as_slice(), 0, d)
        },
        None => n,
    }
}

} // verus!
