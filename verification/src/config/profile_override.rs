//! One language's section of a user's config file.

use crate::text::copy_strings;
use super::{Casing, Exception, ExceptionView, Profile, ProfileView};
use super::exception::same_exception;
use vstd::prelude::*;

verus! {

/// Every field optional: a config file says only what it changes.
#[derive(Debug, Clone)]
pub struct ProfileOverride {
    pub one_per_file: Option<Vec<String>>,
    pub max_file_lines: Option<usize>,
    pub max_folder_depth: Option<usize>,
    pub name_case: Option<Casing>,
    pub exceptions: Vec<Exception>,
}

pub struct ProfileOverrideView {
    pub one_per_file: Option<Seq<Seq<char>>>,
    pub max_file_lines: Option<usize>,
    pub max_folder_depth: Option<usize>,
    pub name_case: Option<Casing>,
    pub exceptions: Seq<ExceptionView>,
}

impl View for ProfileOverride {
    type V = ProfileOverrideView;

    open spec fn view(&self) -> ProfileOverrideView {
        ProfileOverrideView {
            one_per_file: match self.one_per_file {
                Some(v) => Some(v@.map_values(|s: String| s@)),
                None => None,
            },
            max_file_lines: self.max_file_lines,
            max_folder_depth: self.max_folder_depth,
            name_case: self.name_case,
            exceptions: self.exceptions@.map_values(|e: Exception| e@),
        }
    }
}

/// Whether `kept` already holds an exception with the same scope and effect.
pub open spec fn holds_same(kept: Seq<ExceptionView>, e: ExceptionView) -> bool {
    exists|i: int| 0 <= i < kept.len() && same_exception(#[trigger] kept[i], e)
}

/// `added` appended to `kept` in order, skipping each one whose scope and
/// effect is already present.
pub open spec fn append_new(kept: Seq<ExceptionView>, added: Seq<ExceptionView>) -> Seq<ExceptionView>
    decreases added.len(),
{
    if added.len() == 0 {
        kept
    } else {
        let before = append_new(kept, added.drop_last());
        if holds_same(before, added.last()) {
            before
        } else {
            before.push(added.last())
        }
    }
}

/// A profile with an override applied: scalars replace; exceptions append.
pub open spec fn overridden(over: ProfileOverrideView, profile: ProfileView) -> ProfileView {
    ProfileView {
        one_per_file: match over.one_per_file {
            Some(v) => v,
            None => profile.one_per_file,
        },
        max_file_lines: match over.max_file_lines {
            Some(v) => v,
            None => profile.max_file_lines,
        },
        max_folder_depth: match over.max_folder_depth {
            Some(v) => v,
            None => profile.max_folder_depth,
        },
        name_case: match over.name_case {
            Some(v) => v,
            None => profile.name_case,
        },
        exceptions: append_new(profile.exceptions, over.exceptions),
    }
}

fn holds(kept: &Vec<Exception>, e: &Exception) -> (res: bool)
    ensures
        res == holds_same(kept@.map_values(|x: Exception| x@), e@),
{
    let ghost views = kept@.map_values(|x: Exception| x@);
    let mut i: usize = 0;
    while i < kept.len()
        invariant
            views == kept@.map_values(|x: Exception| x@),
            i <= kept.len(),
            forall|j: int| 0 <= j < i ==> !same_exception(#[trigger] views[j], e@),
        decreases kept.len() - i,
    {
        if kept[i].same(e) {
            assert(same_exception(views[i as int], e@));
            return true;
        }
        i += 1;
    }
    false
}

impl ProfileOverride {
    /// Scalars replace; exceptions append, each at most once.
    pub fn apply_to(&self, profile: &mut Profile)
        ensures
            final(profile)@ == overridden(self@, old(profile)@),
    {
        if let Some(one_per_file) = &self.one_per_file {
            profile.one_per_file = copy_strings(one_per_file);
        }
        if let Some(max_file_lines) = self.max_file_lines {
            profile.max_file_lines = max_file_lines;
        }
        if let Some(max_folder_depth) = self.max_folder_depth {
            profile.max_folder_depth = max_folder_depth;
        }
        if let Some(name_case) = self.name_case {
            profile.name_case = name_case;
        }
        // A file seeded with the defaults already contains them verbatim;
        // appending them again would double every entry.
        let ghost kept = old(profile)@.exceptions;
        let ghost added = self@.exceptions;
        let mut i: usize = 0;
        while i < self.exceptions.len()
            invariant
                added == self.exceptions@.map_values(|e: Exception| e@),
                i <= self.exceptions.len(),
                profile@.exceptions == append_new(kept, added.take(i as int)),
                profile@.one_per_file == overridden(self@, old(profile)@).one_per_file,
                profile.max_file_lines == overridden(self@, old(profile)@).max_file_lines,
                profile.max_folder_depth == overridden(self@, old(profile)@).max_folder_depth,
                profile.name_case == overridden(self@, old(profile)@).name_case,
            decreases self.exceptions.len() - i,
        {
            let exception = &self.exceptions[i];
            assert(added.take(i + 1).drop_last() == added.take(i as int));
            assert(added.take(i + 1).last() == exception@);
            if !holds(&profile.exceptions, exception) {
                let copy = exception.duplicate();
                profile.exceptions.push(copy);
                assert(profile@.exceptions =~= append_new(kept, added.take(i as int)).push(
                    exception@,
                ));
            }
            i += 1;
        }
        assert(added.take(self.exceptions.len() as int) == added);
    }
}

/// Scalars replace: each setting an override gives is the profile's
/// setting afterwards, and each it leaves out keeps the profile's own.
pub proof fn lemma_override_scalars_replace(over: ProfileOverrideView, profile: ProfileView)
    ensures
        over.max_folder_depth matches Some(v) ==> overridden(over, profile).max_folder_depth == v,
        over.max_folder_depth is None ==> overridden(over, profile).max_folder_depth == profile.max_folder_depth,
        over.max_file_lines matches Some(v) ==> overridden(over, profile).max_file_lines == v,
        over.max_file_lines is None ==> overridden(over, profile).max_file_lines == profile.max_file_lines,
        over.name_case matches Some(c) ==> overridden(over, profile).name_case == c,
        over.name_case is None ==> overridden(over, profile).name_case == profile.name_case,
        over.one_per_file matches Some(v) ==> overridden(over, profile).one_per_file == v,
        over.one_per_file is None ==> overridden(over, profile).one_per_file == profile.one_per_file,
{
}

/// An override that sets nothing and adds no exception leaves a profile as
/// it was.
pub proof fn lemma_empty_override_changes_nothing(over: ProfileOverrideView, profile: ProfileView)
    requires
        over.one_per_file is None,
        over.max_file_lines is None,
        over.max_folder_depth is None,
        over.name_case is None,
        over.exceptions.len() == 0,
    ensures
        overridden(over, profile) == profile,
{
}

/// Applying an override keeps every exception the profile already had, in
/// place: exceptions are only ever appended.
pub proof fn lemma_override_keeps_existing_exceptions(
    over: ProfileOverrideView,
    profile: ProfileView,
)
    ensures
        overridden(over, profile).exceptions.len() >= profile.exceptions.len(),
        overridden(over, profile).exceptions.take(profile.exceptions.len() as int)
            == profile.exceptions,
{
    lemma_append_new_extends(profile.exceptions, over.exceptions);
}

/// After an override, each of its exceptions is present by scope and effect.
pub proof fn lemma_override_installs_its_exceptions(
    over: ProfileOverrideView,
    profile: ProfileView,
    i: int,
)
    requires
        0 <= i < over.exceptions.len(),
    ensures
        holds_same(overridden(over, profile).exceptions, over.exceptions[i]),
{
    lemma_append_new_holds_added(profile.exceptions, over.exceptions, i);
}

/// Applying the same override twice is applying it once: a config file
/// seeded with the defaults does not double them.
pub proof fn lemma_override_is_idempotent(over: ProfileOverrideView, profile: ProfileView)
    ensures
        overridden(over, overridden(over, profile)) == overridden(over, profile),
{
    let once = append_new(profile.exceptions, over.exceptions);
    assert forall|i: int| 0 <= i < over.exceptions.len() implies holds_same(
        once,
        #[trigger] over.exceptions[i],
    ) by {
        lemma_append_new_holds_added(profile.exceptions, over.exceptions, i);
    }
    lemma_append_new_of_present(once, over.exceptions);
}

/// An override introduces no two exceptions with the same scope and effect
/// into a profile that had none.
pub proof fn lemma_override_keeps_exceptions_distinct(
    over: ProfileOverrideView,
    profile: ProfileView,
)
    requires
        distinct_exceptions(profile.exceptions),
    ensures
        distinct_exceptions(overridden(over, profile).exceptions),
{
    lemma_append_new_distinct(profile.exceptions, over.exceptions);
}

/// No two exceptions share scope and effect.
pub open spec fn distinct_exceptions(s: Seq<ExceptionView>) -> bool {
    forall|i: int, j: int|
        0 <= i < j < s.len() ==> !same_exception(#[trigger] s[i], #[trigger] s[j])
}

proof fn lemma_append_new_extends(kept: Seq<ExceptionView>, added: Seq<ExceptionView>)
    ensures
        append_new(kept, added).len() >= kept.len(),
        append_new(kept, added).take(kept.len() as int) == kept,
    decreases added.len(),
{
    if added.len() > 0 {
        lemma_append_new_extends(kept, added.drop_last());
        let before = append_new(kept, added.drop_last());
        assert(before.push(added.last()).take(kept.len() as int) == before.take(
            kept.len() as int,
        ));
    }
}

proof fn lemma_holds_same_grows(kept: Seq<ExceptionView>, e: ExceptionView, x: ExceptionView)
    requires
        holds_same(kept, e),
    ensures
        holds_same(kept.push(x), e),
{
    let i = choose|i: int| 0 <= i < kept.len() && same_exception(#[trigger] kept[i], e);
    assert(kept.push(x)[i] == kept[i]);
}

proof fn lemma_append_new_holds_added(kept: Seq<ExceptionView>, added: Seq<ExceptionView>, i: int)
    requires
        0 <= i < added.len(),
    ensures
        holds_same(append_new(kept, added), added[i]),
    decreases added.len(),
{
    let before = append_new(kept, added.drop_last());
    if i == added.len() - 1 {
        if !holds_same(before, added.last()) {
            let n = before.len() as int;
            assert(before.push(added.last())[n] == added.last());
            assert(same_exception(before.push(added.last())[n], added[i]));
        }
    } else {
        lemma_append_new_holds_added(kept, added.drop_last(), i);
        assert(added.drop_last()[i] == added[i]);
        if !holds_same(before, added.last()) {
            lemma_holds_same_grows(before, added[i], added.last());
        }
    }
}

proof fn lemma_append_new_of_present(kept: Seq<ExceptionView>, added: Seq<ExceptionView>)
    requires
        forall|i: int| 0 <= i < added.len() ==> holds_same(kept, #[trigger] added[i]),
    ensures
        append_new(kept, added) == kept,
    decreases added.len(),
{
    if added.len() > 0 {
        assert forall|i: int| 0 <= i < added.drop_last().len() implies holds_same(
            kept,
            #[trigger] added.drop_last()[i],
        ) by {
            assert(added.drop_last()[i] == added[i]);
        }
        lemma_append_new_of_present(kept, added.drop_last());
        assert(holds_same(kept, added[added.len() - 1]));
    }
}

proof fn lemma_append_new_distinct(kept: Seq<ExceptionView>, added: Seq<ExceptionView>)
    requires
        distinct_exceptions(kept),
    ensures
        distinct_exceptions(append_new(kept, added)),
    decreases added.len(),
{
    if added.len() > 0 {
        lemma_append_new_distinct(kept, added.drop_last());
        let before = append_new(kept, added.drop_last());
        if !holds_same(before, added.last()) {
            let after = before.push(added.last());
            assert forall|i: int, j: int| 0 <= i < j < after.len() implies !same_exception(
                #[trigger] after[i],
                #[trigger] after[j],
            ) by {
                if j == before.len() {
                    assert(after[i] == before[i]);
                    if same_exception(after[i], after[j]) {
                        assert(same_exception(before[i], added.last()));
                    }
                } else {
                    assert(after[i] == before[i] && after[j] == before[j]);
                }
            }
        }
    }
}

} // verus!
