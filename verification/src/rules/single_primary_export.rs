//! At most one export built from a governed construct.
//!
//! At most, not exactly one. Zero governed exports is a legal, deliberate
//! shape — a constants table, a module of type aliases, `mod.rs`,
//! `__init__.py`.

use super::Waivers;
use super::waivers::rule_active;
use super::Rule;
use crate::diagnostics::{Diagnostic, DiagnosticView, Tag};
use crate::diagnostics::diagnostic::plain_diagnostic;
use crate::lang::{PublicName, PublicNameView};
use crate::lang::public_name::name_views;
use crate::text::{decimal, decimal_string, join, join_with, owned, views};
use vstd::prelude::*;

verus! {

/// How an export is listed: its construct, then its name.
pub open spec fn listed_export(name: PublicNameView) -> Seq<char> {
    name.construct + " "@ + name.name
}

pub open spec fn single_primary_export_finding(
    governed: Seq<PublicNameView>,
    path: Seq<char>,
    waived: Set<Rule>,
) -> Option<DiagnosticView> {
    if governed.len() < 2 || !rule_active(waived, Rule::SinglePrimaryExport) {
        None
    } else {
        Some(DiagnosticView {
            line: Some(governed[1].line),
            notes: seq![
                "exports: "@ + join_with(governed.map_values(|n: PublicNameView| listed_export(n)), ", "@),
                "move all but one to files of their own, or make them private"@,
            ],
            ..plain_diagnostic(
                Tag::Content,
                Rule::SinglePrimaryExport,
                path,
                "file exports "@ + decimal(governed.len()) + " substantial things, expected 1"@,
            )
        })
    }
}

pub fn single_primary_export(governed: &[PublicName], path: &str, waivers: &Waivers) -> (res:
    Option<Diagnostic>)
    ensures
        match res {
            Some(d) => single_primary_export_finding(name_views(governed@), path@, waivers@) == Some(d@),
            None => single_primary_export_finding(name_views(governed@), path@, waivers@) is None,
        },
{
    if governed.len() < 2 || !waivers.active(Rule::SinglePrimaryExport) {
        return None;
    }
    let ghost names = name_views(governed@);
    let mut listed: Vec<String> = Vec::new();
    let mut i: usize = 0;
    while i < governed.len()
        invariant
            names == name_views(governed@),
            i <= governed.len(),
            listed.len() == i,
            forall|j: int| 0 <= j < i ==> #[trigger] listed@[j]@ == listed_export(names[j]),
        decreases governed.len() - i,
    {
        let mut entry = owned(governed[i].construct);
        entry.append(" ");
        entry.append(governed[i].name.as_str());
        listed.push(entry);
        i += 1;
    }
    assert(views(listed@) =~= names.map_values(|n: PublicNameView| listed_export(n)));
    let mut message = owned("file exports ");
    message.append(decimal_string(governed.len()).as_str());
    message.append(" substantial things, expected 1");
    let mut note = owned("exports: ");
    note.append(join(listed.as_slice(), ", ").as_str());
    let ghost first_note = note@;
    let res = Diagnostic::new(Tag::Content, Rule::SinglePrimaryExport, owned(path), message).note(note)
        .note(owned("move all but one to files of their own, or make them private")).at_line(
        governed[1].line,
    );
    assert(res@.notes =~= seq![first_note, "move all but one to files of their own, or make them private"@]);
    Some(res)
}

} // verus!
