//! A tracked file whose language contradicts the declaration of its root.

use super::Waivers;
use super::waivers::rule_active;
use super::Rule;
use crate::config::Language;
use crate::diagnostics::{Diagnostic, DiagnosticView, Tag};
use crate::diagnostics::diagnostic::plain_diagnostic;
use crate::text::{owned, views};
use crate::walk::display;
use crate::walk::display::displayed;
use vstd::prelude::*;

verus! {

pub open spec fn root_language_finding(
    rel: Seq<Seq<char>>,
    root: Seq<char>,
    declared: Language,
    actual: Language,
    waived: Set<Rule>,
) -> Option<DiagnosticView> {
    if declared == actual || !rule_active(waived, Rule::RootLanguageMatch) {
        None
    } else {
        Some(plain_diagnostic(
            Tag::Root,
            Rule::RootLanguageMatch,
            displayed(rel),
            "`"@ + root + "/` is declared "@ + declared.label() + ", but contains "@ + actual.label()
                + " files"@,
        ))
    }
}

pub fn root_language_match(
    rel: &[String],
    root: &str,
    declared: Language,
    actual: Language,
    waivers: &Waivers,
) -> (res: Option<Diagnostic>)
    ensures
        match res {
            Some(d) => root_language_finding(views(rel@), root@, declared, actual, waivers@) == Some(d@),
            None => root_language_finding(views(rel@), root@, declared, actual, waivers@) is None,
        },
{
    if declared == actual || !waivers.active(Rule::RootLanguageMatch) {
        return None;
    }
    let mut message = owned("`");
    message.append(root);
    message.append("/` is declared ");
    message.append(declared.as_str());
    message.append(", but contains ");
    message.append(actual.as_str());
    message.append(" files");
    Some(Diagnostic::new(Tag::Root, Rule::RootLanguageMatch, display(rel), message))
}

} // verus!
