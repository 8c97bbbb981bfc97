//! Collects the tracked files of a repository, filters them through glob
//! exclusion rules, renders each as a line-numbered block, and composes a
//! single text document together with recent commit history.

pub mod compose;
pub mod filter;
pub mod numfmt;
pub mod pipeline;
pub mod render;
pub mod select;
pub mod types;

use vstd::prelude::*;

verus! {

/// The delimiter that separates a line number from the line's content.
pub open spec fn spec_delim() -> Seq<char> {
    seq![' ', '\u{2502}', ' ']
}

/// The delimiter glyph between line number and content.
pub fn delim_str() -> (r: &'static str)
    ensures
        r@ == spec_delim(),
{
    proof {
        reveal_strlit(" \u{2502} ");
    }
    let r: &'static str = " \u{2502} ";
    proof {
        assert(r@ =~= spec_delim());
    }
    r
}

} // verus!
