//! The shape of a user's config file.

use super::{Language, ProfileOverride, ProfileOverrideView};
use vstd::prelude::*;

verus! {

/// Every field is optional — the defaults supply the rest. `roots`, where
/// present, is in key order with no key twice, as a map from root to language.
#[derive(Debug, Clone)]
pub struct ConfigFile {
    pub roots: Option<Vec<(String, Language)>>,
    pub python: Option<ProfileOverride>,
    pub typescript: Option<ProfileOverride>,
    pub rust: Option<ProfileOverride>,
    pub cpp: Option<ProfileOverride>,
}

/// The view of an optional override.
pub open spec fn override_view(o: Option<ProfileOverride>) -> Option<ProfileOverrideView> {
    match o {
        Some(p) => Some(p@),
        None => None,
    }
}

impl ConfigFile {
    /// The override this file declares for a language, as a view.
    pub open spec fn override_for(self, language: Language) -> Option<ProfileOverrideView> {
        match language {
            Language::Python => override_view(self.python),
            Language::Typescript => override_view(self.typescript),
            Language::Rust => override_view(self.rust),
            Language::Cpp => override_view(self.cpp),
        }
    }

    pub fn profile_override(&self, language: Language) -> (res: Option<&ProfileOverride>)
        ensures
            match res {
                Some(o) => self.override_for(language) == Some(o@),
                None => self.override_for(language) is None,
            },
    {
        match language {
            Language::Python => self.python.as_ref(),
            Language::Typescript => self.typescript.as_ref(),
            Language::Rust => self.rust.as_ref(),
            Language::Cpp => self.cpp.as_ref(),
        }
    }
}

} // verus!
