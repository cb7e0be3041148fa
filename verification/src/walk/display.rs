//! How a path is spelled in a diagnostic.

use crate::text::{join, join_slash, views};
use vstd::prelude::*;

verus! {

/// A path's components with forward slashes between them.
pub open spec fn displayed(components: Seq<Seq<char>>) -> Seq<char> {
    join_slash(components)
}

/// Paths in diagnostics always read with forward slashes, on every platform.
pub fn display(components: &[String]) -> (res: String)
    ensures
        res@ == displayed(views(components@)),
{
    let res = join(components, "/");
    proof {
        reveal_strlit("/");
        assert("/"@ == seq!['/']);
    }
    res
}

} // verus!
