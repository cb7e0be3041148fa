//! The filename is the export's name, transformed into the language's casing.

use super::Waivers;
use super::waivers::rule_active;
use super::Rule;
use crate::config::{Profile, ProfileView};
use crate::config::casing::suggested_name;
use crate::diagnostics::{Diagnostic, DiagnosticView, Tag};
use crate::diagnostics::diagnostic::plain_diagnostic;
use crate::lang::{PublicName, PublicNameView};
use crate::text::{owned, same_text, views};
use crate::walk::file_name::{dotted, dotted_extension};
use vstd::prelude::*;

verus! {

/// The name of the last component of a path, or nothing for an empty path.
pub open spec fn last_name(rel: Seq<Seq<char>>) -> Seq<char> {
    if rel.len() == 0 {
        Seq::empty()
    } else {
        rel.last()
    }
}

pub open spec fn filename_finding(
    profile: ProfileView,
    export: PublicNameView,
    rel: Seq<Seq<char>>,
    path: Seq<char>,
    stem: Seq<char>,
    waived: Set<Rule>,
) -> Option<DiagnosticView> {
    if !rule_active(waived, Rule::FilenameMatchesExport) {
        None
    } else {
        match suggested_name(profile.name_case, export.name) {
            None => None,
            Some(expected) => if expected == stem {
                None
            } else {
                Some(DiagnosticView {
                    line: Some(export.line),
                    help: seq!["rename to "@ + expected + dotted_extension(last_name(rel))],
                    ..plain_diagnostic(
                        Tag::Naming,
                        Rule::FilenameMatchesExport,
                        path,
                        "file name does not match its export `"@ + export.construct + " "@ + export.name
                            + "`"@,
                    )
                })
            },
        }
    }
}

pub fn filename_matches_export(
    profile: &Profile,
    export: &PublicName,
    rel: &[String],
    path: &str,
    stem: &str,
    waivers: &Waivers,
) -> (res: Option<Diagnostic>)
    ensures
        match res {
            Some(d) => filename_finding(profile@, export@, views(rel@), path@, stem@, waivers@) == Some(d@),
            None => filename_finding(profile@, export@, views(rel@), path@, stem@, waivers@) is None,
        },
{
    if !waivers.active(Rule::FilenameMatchesExport) {
        return None;
    }
    // A casing with no converter can prescribe nothing, and guessing would be
    // worse than staying quiet.
    let expected = match profile.name_case.suggest(export.name.as_str()) {
        Some(e) => e,
        None => return None,
    };
    if same_text(expected.as_str(), stem) {
        return None;
    }
    let mut message = owned("file name does not match its export `");
    message.append(export.construct);
    message.append(" ");
    message.append(export.name.as_str());
    message.append("`");
    let mut help = owned("rename to ");
    help.append(expected.as_str());
    help.append(extension(rel).as_str());
    Some(
        Diagnostic::new(Tag::Naming, Rule::FilenameMatchesExport, owned(path), message).at_line(
            export.line,
        ).help(help),
    )
}

/// The extension of a path's file name, with its dot.
fn extension(rel: &[String]) -> (res: String)
    ensures
        res@ == dotted_extension(last_name(views(rel@))),
{
    if rel.len() == 0 {
        let res = String::new();
        proof {
            assert(dotted_extension(Seq::<char>::empty()) == Seq::<char>::empty()) by {
                assert(crate::walk::file_name::last_dot_before(Seq::<char>::empty(), 0) is None);
            }
        }
        res
    } else {
        dotted(rel[rel.len() - 1].as_str())
    }
}

} // verus!
