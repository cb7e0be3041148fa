//! The rules waived for one path, and the resulting active/inactive answer.

use super::Rule;
use vstd::prelude::*;

verus! {

/// The rules waived for one path. Order and repetition carry no meaning:
/// only which rules occur.
#[derive(Debug, Clone)]
pub struct Waivers(pub Vec<Rule>);

/// A rule is active unless it was waived directly, or transitively lost what
/// it depends on.
pub open spec fn rule_active(waived: Set<Rule>, rule: Rule) -> bool {
    &&& !waived.contains(rule)
    &&& match rule.dependency() {
        Some(dep) => !waived.contains(dep),
        None => true,
    }
}

impl View for Waivers {
    type V = Set<Rule>;

    open spec fn view(&self) -> Set<Rule> {
        self.0@.to_set()
    }
}

impl Default for Waivers {
    fn default() -> (res: Waivers)
        ensures
            res@ == Set::<Rule>::empty(),
    {
        let res = Waivers(Vec::new());
        assert(res@ =~= Set::<Rule>::empty());
        res
    }
}

impl Waivers {
    /// Whether `rule` was waived directly.
    pub fn waives(&self, rule: Rule) -> (res: bool)
        ensures
            res == self@.contains(rule),
    {
        let mut i: usize = 0;
        while i < self.0.len()
            invariant
                i <= self.0.len(),
                forall|j: int| 0 <= j < i ==> self.0@[j] != rule,
            decreases self.0.len() - i,
        {
            if self.0[i] == rule {
                assert(self.0@.contains(rule));
                return true;
            }
            i += 1;
        }
        false
    }

    /// A rule is active unless it was waived directly, or transitively lost
    /// what it depends on.
    pub fn active(&self, rule: Rule) -> (res: bool)
        ensures
            res == rule_active(self@, rule),
    {
        if self.waives(rule) {
            return false;
        }
        match rule.depends_on() {
            Some(dep) => !self.waives(dep),
            None => true,
        }
    }
}

/// Waiving the export rule lifts every rule that depends on it, whatever
/// else is waived: nothing is left to derive a filename from or to hold to a
/// budget.
pub proof fn lemma_waiving_a_rule_deactivates_its_dependants(waived: Set<Rule>, rule: Rule)
    requires
        waived.contains(rule),
    ensures
        forall|other: Rule| #[trigger] other.dependency() == Some(rule) ==> !rule_active(waived, other),
{
}

/// Waiving a rule touches only that rule and what depends on it: every
/// other rule — among them what the waived rule itself depends on — stays
/// exactly as active as it was.
pub proof fn lemma_waiving_touches_only_the_rule_and_its_dependants(
    waived: Set<Rule>,
    rule: Rule,
    other: Rule,
)
    requires
        other != rule,
        other.dependency() != Some(rule),
    ensures
        rule_active(waived.insert(rule), other) == rule_active(waived, other),
{
}

/// With nothing waived, every rule is active.
pub proof fn lemma_nothing_is_waived_by_default(rule: Rule)
    ensures
        rule_active(Set::empty(), rule),
{
}

} // verus!
