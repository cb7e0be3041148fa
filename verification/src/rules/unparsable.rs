//! A file the language's parser could not make sense of.

use super::Rule;
use crate::diagnostics::{Diagnostic, DiagnosticView, Tag};
use crate::diagnostics::diagnostic::plain_diagnostic;
use crate::text::owned;
use vstd::prelude::*;

verus! {

pub open spec fn unparsable_finding(path: Seq<char>) -> DiagnosticView {
    DiagnosticView {
        notes: seq!["its contents are not checked; fix the syntax error first"@],
        ..plain_diagnostic(Tag::Content, Rule::FileIsReadable, path, "could not parse this file"@)
    }
}

/// Nothing downstream can be trusted once the parse falls over, and saying
/// "exports nothing" about a file that does not compile buries the real
/// problem.
pub fn unparsable(path: &str) -> (res: Diagnostic)
    ensures
        res@ == unparsable_finding(path@),
{
    Diagnostic::new(Tag::Content, Rule::FileIsReadable, owned(path), owned("could not parse this file"))
        .note(owned("its contents are not checked; fix the syntax error first"))
}

} // verus!
