//! A file whose bytes the tool could not read at all.

use super::Rule;
use crate::diagnostics::{Diagnostic, DiagnosticView, Tag};
use crate::diagnostics::diagnostic::plain_diagnostic;
use crate::text::{owned, views};
use crate::walk::display;
use crate::walk::display::displayed;
use vstd::prelude::*;

verus! {

pub open spec fn unreadable_finding(rel: Seq<Seq<char>>, reason: Seq<char>) -> DiagnosticView {
    DiagnosticView {
        notes: seq![reason, "its contents are not checked"@],
        ..plain_diagnostic(Tag::Content, Rule::FileIsReadable, displayed(rel), "could not read this file as UTF-8"@)
    }
}

/// Counting a file as checked and then saying nothing about it is the one
/// outcome that would be a lie.
pub fn unreadable(rel: &[String], reason: &str) -> (res: Diagnostic)
    ensures
        res@ == unreadable_finding(views(rel@), reason@),
{
    let res = Diagnostic::new(
        Tag::Content,
        Rule::FileIsReadable,
        display(rel),
        owned("could not read this file as UTF-8"),
    ).note(owned(reason)).note(owned("its contents are not checked"));
    assert(res@.notes =~= seq![reason@, "its contents are not checked"@]);
    res
}

} // verus!
