//! Everything one language declares about its own shape.

use super::{Casing, Exception, ExceptionView};
use crate::text::{copy_strings, same_text};
use vstd::prelude::*;

verus! {

/// Five values: the governed constructs, the line budget, the nesting cap,
/// the casing, and the waivers.
#[derive(Debug, Clone)]
pub struct Profile {
    /// The constructs a file may declare at most one of — the substantial
    /// exports. Spelled as this language's own keywords, which the engine
    /// treats as opaque strings.
    pub one_per_file: Vec<String>,
    /// The line budget, in non-blank non-comment lines. Applies only to files
    /// that have a governed export.
    pub max_file_lines: usize,
    /// How deep folders may nest below a root.
    pub max_folder_depth: usize,
    /// The casing every folder and file name under this language obeys.
    pub name_case: Casing,
    pub exceptions: Vec<Exception>,
}

pub struct ProfileView {
    pub one_per_file: Seq<Seq<char>>,
    pub max_file_lines: usize,
    pub max_folder_depth: usize,
    pub name_case: Casing,
    pub exceptions: Seq<ExceptionView>,
}

impl View for Profile {
    type V = ProfileView;

    open spec fn view(&self) -> ProfileView {
        ProfileView {
            one_per_file: self.one_per_file@.map_values(|s: String| s@),
            max_file_lines: self.max_file_lines,
            max_folder_depth: self.max_folder_depth,
            name_case: self.name_case,
            exceptions: self.exceptions@.map_values(|e: Exception| e@),
        }
    }
}

/// Whether a construct is one the profile holds to one per file.
pub open spec fn governs_construct(profile: ProfileView, construct: Seq<char>) -> bool {
    profile.one_per_file.contains(construct)
}

/// The baseline a language starts from before its own profile speaks:
/// nothing governed, 200 lines, 3 folders deep, snake_case, no waivers.
pub open spec fn baseline_profile() -> ProfileView {
    ProfileView {
        one_per_file: Seq::empty(),
        max_file_lines: 200,
        max_folder_depth: 3,
        name_case: Casing::SnakeCase,
        exceptions: Seq::empty(),
    }
}

/// A copy of a list of exceptions.
pub fn copy_exceptions(items: &Vec<Exception>) -> (res: Vec<Exception>)
    ensures
        res@.map_values(|e: Exception| e@) == items@.map_values(|e: Exception| e@),
{
    let mut res: Vec<Exception> = Vec::new();
    let mut i: usize = 0;
    while i < items.len()
        invariant
            i <= items.len(),
            res.len() == i,
            forall|j: int| 0 <= j < i ==> #[trigger] res@[j]@ == items@[j]@,
        decreases items.len() - i,
    {
        res.push(items[i].duplicate());
        i += 1;
    }
    assert(res@.map_values(|e: Exception| e@) =~= items@.map_values(|e: Exception| e@));
    res
}

impl Profile {
    /// Whether a construct is one this language holds to one per file.
    pub fn governs(&self, construct: &str) -> (res: bool)
        ensures
            res == governs_construct(self@, construct@),
    {
        let ghost names = self@.one_per_file;
        let mut i: usize = 0;
        while i < self.one_per_file.len()
            invariant
                names == self.one_per_file@.map_values(|s: String| s@),
                i <= self.one_per_file.len(),
                forall|j: int| 0 <= j < i ==> names[j] != construct@,
            decreases self.one_per_file.len() - i,
        {
            if same_text(self.one_per_file[i].as_str(), construct) {
                assert(names[i as int] == construct@);
                return true;
            }
            i += 1;
        }
        false
    }

    /// A copy of this profile.
    pub fn duplicate(&self) -> (res: Profile)
        ensures
            res@ == self@,
    {
        Profile {
            one_per_file: copy_strings(&self.one_per_file),
            max_file_lines: self.max_file_lines,
            max_folder_depth: self.max_folder_depth,
            name_case: self.name_case,
            exceptions: copy_exceptions(&self.exceptions),
        }
    }
}

impl Default for Profile {
    /// The baseline a language starts from before its own profile speaks.
    ///
    /// `one_per_file` is empty because the governed constructs are the one
    /// thing no language can inherit from another. The other three are the
    /// tool's cross-language position and are the same everywhere they ship.
    fn default() -> (res: Profile)
        ensures
            res@ == baseline_profile(),
    {
        let res = Profile {
            one_per_file: Vec::new(),
            max_file_lines: 200,
            max_folder_depth: 3,
            name_case: Casing::SnakeCase,
            exceptions: Vec::new(),
        };
        assert(res@.one_per_file =~= Seq::<Seq<char>>::empty());
        assert(res@.exceptions =~= Seq::<ExceptionView>::empty());
        res
    }
}

} // verus!
