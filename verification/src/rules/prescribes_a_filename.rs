//! Whether the content layer has already named the file.

use super::Rule;
use crate::diagnostics::{Diagnostic, DiagnosticView};
use crate::diagnostics::diagnostic::diagnostic_views;
use vstd::prelude::*;

verus! {

pub open spec fn names_the_file(ds: Seq<DiagnosticView>) -> bool {
    exists|i: int| 0 <= i < ds.len() && #[trigger] ds[i].rule == Rule::FilenameMatchesExport
}

/// A rename prescribed by the content layer fixes the casing too, so a
/// separate casing complaint would be redundant and possibly contradictory —
/// two different names offered for one file.
pub fn prescribes_a_filename(diagnostics: &[Diagnostic]) -> (res: bool)
    ensures
        res == names_the_file(diagnostic_views(diagnostics@)),
{
    let ghost ds = diagnostic_views(diagnostics@);
    let mut i: usize = 0;
    while i < diagnostics.len()
        invariant
            ds == diagnostic_views(diagnostics@),
            i <= diagnostics.len(),
            forall|j: int| 0 <= j < i ==> ds[j].rule != Rule::FilenameMatchesExport,
        decreases diagnostics.len() - i,
    {
        if diagnostics[i].rule == Rule::FilenameMatchesExport {
            assert(ds[i as int].rule == Rule::FilenameMatchesExport);
            return true;
        }
        i += 1;
    }
    false
}

} // verus!
