//! Where a check considers itself to be.

use vstd::prelude::*;

verus! {

/// The index of the first marked candidate, if any.
pub open spec fn first_marked(marked: Seq<bool>, n: int) -> Option<int>
    decreases n,
{
    if n <= 0 {
        None
    } else {
        match first_marked(marked, n - 1) {
            Some(i) => Some(i),
            None => if marked[n - 1] {
                Some(n - 1)
            } else {
                None
            },
        }
    }
}

/// The project root among the directories from the starting directory
/// upwards (`ancestors[0]` is the start itself): the nearest one holding the
/// config file, as `holds_config` reports, or the start when none does.
pub fn find_project_root(ancestors: &Vec<String>, holds_config: &Vec<bool>) -> (res: String)
    requires
        ancestors.len() >= 1,
        holds_config.len() == ancestors.len(),
    ensures
        res@ == match first_marked(holds_config@, ancestors.len() as int) {
            Some(i) => ancestors@[i]@,
            None => ancestors@[0]@,
        },
{
    let mut i: usize = 0;
    while i < ancestors.len()
        invariant
            holds_config.len() == ancestors.len(),
            i <= ancestors.len(),
            first_marked(holds_config@, i as int) is None,
        decreases ancestors.len() - i,
    {
        if holds_config[i] {
            proof {
                lemma_first_marked_stays(holds_config@, i as int + 1, ancestors.len() as int);
            }
            return ancestors[i].clone();
        }
        i += 1;
    }
    ancestors[0].clone()
}

proof fn lemma_first_marked_stays(marked: Seq<bool>, n: int, m: int)
    requires
        0 < n <= m,
        first_marked(marked, n) is Some,
    ensures
        first_marked(marked, m) == first_marked(marked, n),
    decreases m - n,
{
    if m > n {
        lemma_first_marked_stays(marked, n, m - 1);
    }
}

} // verus!
