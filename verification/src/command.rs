//! The argument lists handed to the external tools this crate drives, as sequences of
//! strings.
use vstd::prelude::*;

use crate::text::string_of;

verus! {

/// The arguments as character sequences.
pub open spec fn arg_views(args: Seq<String>) -> Seq<Seq<char>> {
    args.map_values(|a: String| a@)
}

/// Appends one argument.
pub fn push_arg(args: &mut Vec<String>, a: &str)
    ensures
        arg_views(final(args)@) == arg_views(old(args)@).push(a@),
{
    args.push(a.to_string());
    assert(arg_views(args@) =~= arg_views(old(args)@).push(a@));
}

/// Appends one argument given as characters.
pub fn push_arg_chars(args: &mut Vec<String>, a: &[char])
    ensures
        arg_views(final(args)@) == arg_views(old(args)@).push(a@),
{
    args.push(string_of(a));
    assert(arg_views(args@) =~= arg_views(old(args)@).push(a@));
}

} // verus!
