//! A scoped rule waiver.

use crate::rules::Rule;
use vstd::prelude::*;

verus! {

/// A glob, and the rules that do not apply beneath it.
///
/// Not a path allowlist: an exception names which rules stop applying, so
/// waiving one thing never silently waives the rest. `reason` is required so
/// that every waiver carries the argument for its own existence.
#[derive(Debug, Clone)]
pub struct Exception {
    pub path: String,
    pub waive: Vec<Rule>,
    pub reason: String,
}

pub struct ExceptionView {
    pub path: Seq<char>,
    pub waive: Seq<Rule>,
    pub reason: Seq<char>,
}

impl View for Exception {
    type V = ExceptionView;

    open spec fn view(&self) -> ExceptionView {
        ExceptionView { path: self.path@, waive: self.waive@, reason: self.reason@ }
    }
}

/// Same scope, same effect — the reason is prose and does not count.
pub open spec fn same_exception(a: ExceptionView, b: ExceptionView) -> bool {
    a.path == b.path && a.waive == b.waive
}

/// A copy of a list of rules.
pub fn copy_rules(rules: &Vec<Rule>) -> (res: Vec<Rule>)
    ensures
        res@ == rules@,
{
    let mut res: Vec<Rule> = Vec::new();
    let mut i: usize = 0;
    while i < rules.len()
        invariant
            i <= rules.len(),
            res@ == rules@.take(i as int),
        decreases rules.len() - i,
    {
        res.push(rules[i]);
        i += 1;
        assert(res@ =~= rules@.take(i as int));
    }
    assert(rules@.take(rules.len() as int) == rules@);
    res
}

fn same_rules(a: &Vec<Rule>, b: &Vec<Rule>) -> (res: bool)
    ensures
        res == (a@ == b@),
{
    if a.len() != b.len() {
        return false;
    }
    let mut i: usize = 0;
    while i < a.len()
        invariant
            a.len() == b.len(),
            i <= a.len(),
            forall|j: int| 0 <= j < i ==> a@[j] == b@[j],
        decreases a.len() - i,
    {
        if a[i] != b[i] {
            return false;
        }
        i += 1;
    }
    assert(a@ =~= b@);
    true
}

impl Exception {
    /// Same scope, same effect — the `reason` is prose and does not count.
    pub fn same(&self, other: &Exception) -> (res: bool)
        ensures
            res == same_exception(self@, other@),
    {
        self.path == other.path && same_rules(&self.waive, &other.waive)
    }

    /// A copy of this exception.
    pub fn duplicate(&self) -> (res: Exception)
        ensures
            res@ == self@,
    {
        Exception {
            path: self.path.clone(),
            waive: copy_rules(&self.waive),
            reason: self.reason.clone(),
        }
    }
}

} // verus!
