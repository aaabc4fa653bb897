//! Which recordings a batch action works on: the ones the page asked for by path, or, when
//! it asked for none, every recording the action applies to.
use vstd::prelude::*;

use crate::text::{chars_of, seq_eq};

verus! {

/// The first place at or after `from` where `library` holds `path`.
pub open spec fn first_at_or_after(library: Seq<Seq<char>>, path: Seq<char>, from: int) -> Option<int>
    decreases library.len() - from,
{
    if from < 0 || from >= library.len() {
        None
    } else if library[from] == path {
        Some(from)
    } else {
        first_at_or_after(library, path, from + 1)
    }
}

/// Every recording the action applies to, in library order.
pub open spec fn applicable(qualifies: Seq<bool>, n: int) -> Seq<usize>
    decreases n,
{
    if n <= 0 {
        Seq::empty()
    } else if qualifies[n - 1] {
        applicable(qualifies, n - 1).push((n - 1) as usize)
    } else {
        applicable(qualifies, n - 1)
    }
}

/// For each requested path in turn, the first recording with that path; a path the library
/// does not hold is skipped.
pub open spec fn requested(library: Seq<Seq<char>>, paths: Seq<Seq<char>>) -> Seq<usize>
    decreases paths.len(),
{
    if paths.len() == 0 {
        Seq::empty()
    } else {
        let rest = requested(library, paths.drop_last());
        match first_at_or_after(library, paths.last(), 0) {
            Some(i) => rest.push(i as usize),
            None => rest,
        }
    }
}

/// The recordings a batch works on, by their place in the library.
pub open spec fn selection(
    library: Seq<Seq<char>>,
    qualifies: Seq<bool>,
    paths: Seq<Seq<char>>,
) -> Seq<usize> {
    if paths.len() == 0 {
        applicable(qualifies, library.len() as int)
    } else {
        requested(library, paths)
    }
}

pub open spec fn views(s: Seq<String>) -> Seq<Seq<char>> {
    s.map_values(|x: String| x@)
}

fn same_path(a: &str, b: &str) -> (r: bool)
    ensures
        r == (a@ == b@),
{
    let x = chars_of(a);
    let y = chars_of(b);
    seq_eq(x.as_slice(), y.as_slice())
}

fn find_path(library: &[String], path: &str) -> (r: Option<usize>)
    ensures
        match r {
            Some(i) => first_at_or_after(views(library@), path@, 0) == Some(i as int),
            None => first_at_or_after(views(library@), path@, 0) is None,
        },
{
    let ghost lib = views(library@);
    let mut i: usize = 0;
    while i < library.len()
        invariant
            i <= library@.len(),
            lib == views(library@),
            first_at_or_after(lib, path@, 0) == first_at_or_after(lib, path@, i as int),
        decreases library.len() - i,
    {
        assert(lib[i as int] == library@[i as int]@);
        if same_path(library[i].as_str(), path) {
            return Some(i);
        }
        i = i + 1;
    }
    None
}

/// The places in the library of the recordings a batch works on. `library` holds each
/// recording's file path and `qualifies` whether the action applies to it when the page
/// names no recording; `paths` are the ones the page named.
pub fn select_recordings(library: &[String], qualifies: &[bool], paths: &[String]) -> (picked: Vec<
    usize,
>)
    requires
        qualifies@.len() == library@.len(),
    ensures
        picked@ == selection(views(library@), qualifies@, views(paths@)),
        forall|k: int| 0 <= k < picked@.len() ==> #[trigger] picked@[k] < library@.len(),
{
    let ghost lib = views(library@);
    let mut picked: Vec<usize> = Vec::new();
    if paths.len() == 0 {
        let mut i: usize = 0;
        while i < library.len()
            invariant
                i <= library@.len(),
                qualifies@.len() == library@.len(),
                picked@ == applicable(qualifies@, i as int),
                forall|k: int| 0 <= k < picked@.len() ==> #[trigger] picked@[k] < i,
            decreases library.len() - i,
        {
            if qualifies[i] {
                picked.push(i);
            }
            i = i + 1;
        }
        return picked;
    }
    let ghost want = views(paths@);
    let mut j: usize = 0;
    while j < paths.len()
        invariant
            j <= paths@.len(),
            lib == views(library@),
            want == views(paths@),
            picked@ == requested(lib, want.take(j as int)),
            forall|k: int| 0 <= k < picked@.len() ==> #[trigger] picked@[k] < library@.len(),
        decreases paths.len() - j,
    {
        proof {
            assert(want.take(j + 1).drop_last() =~= want.take(j as int));
            assert(want.take(j + 1).last() == paths@[j as int]@);
        }
        match find_path(library, paths[j].as_str()) {
            Some(i) => {
                proof {
                    lemma_first_in_range(lib, paths@[j as int]@, 0);
                }
                picked.push(i);
            },
            None => {},
        }
        j = j + 1;
    }
    assert(want.take(paths@.len() as int) =~= want);
    picked
}

proof fn lemma_first_in_range(library: Seq<Seq<char>>, path: Seq<char>, from: int)
    ensures
        first_at_or_after(library, path, from) matches Some(i) ==> 0 <= from <= i < library.len(),
    decreases library.len() - from,
{
    if 0 <= from < library.len() && library[from] != path {
        lemma_first_in_range(library, path, from + 1);
    }
}

} // verus!
