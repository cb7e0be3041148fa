//! The trait every language implements.

use super::{Module, ModuleView};
use crate::config::Language;
use vstd::prelude::*;

verus! {

/// A language profile answers one question: what does this module export,
/// and by which construct?
pub trait LanguageProfile {
    /// What the profile makes of a source text.
    spec fn reading(&self, source: Seq<char>) -> ModuleView;

    /// The language this profile reads.
    spec fn spoken(&self) -> Language;

    fn language(&self) -> (res: Language)
        ensures
            res == self.spoken(),
    ;

    fn read(&self, source: &str) -> (res: Module)
        ensures
            res@ == self.reading(source@),
    ;
}

} // verus!
