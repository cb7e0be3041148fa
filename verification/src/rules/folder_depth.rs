//! How deep folders may nest below a root.
//!
//! Once files may live anywhere, what a list of path patterns actually
//! enforces is a nesting cap, so that is all there is.

use super::Waivers;
use super::waivers::rule_active;
use super::Rule;
use crate::config::{Profile, ProfileView};
use crate::diagnostics::{Diagnostic, DiagnosticView, Tag};
use crate::diagnostics::diagnostic::plain_diagnostic;
use crate::text::{decimal, decimal_string, owned, views};
use crate::walk::display;
use crate::walk::display::displayed;
use vstd::prelude::*;

verus! {

/// The diagnostic for a directory `depth` folders below its root, if it is
/// the first level past the cap.
pub open spec fn folder_depth_finding(
    profile: ProfileView,
    rel: Seq<Seq<char>>,
    depth: nat,
    waived: Set<Rule>,
) -> Option<DiagnosticView> {
    if depth != profile.max_folder_depth + 1 || !rule_active(waived, Rule::FolderDepth) {
        None
    } else {
        Some(DiagnosticView {
            help: seq!["flatten a level, or split the tree into two roots"@],
            ..plain_diagnostic(
                Tag::Folder,
                Rule::FolderDepth,
                displayed(rel),
                "folders nest "@ + decimal(depth) + " deep below the root, and the limit is "@
                    + decimal(profile.max_folder_depth as nat),
            )
        })
    }
}

/// `depth` is how many folders deep this directory sits below its root.
///
/// Only the shallowest offenders are reported. A tree that is two levels too
/// deep would otherwise produce a diagnostic for every directory beneath the
/// first one, all of which are fixed by the same move.
pub fn folder_depth(profile: &Profile, rel: &[String], depth: usize, waivers: &Waivers) -> (res:
    Option<Diagnostic>)
    ensures
        match res {
            Some(d) => folder_depth_finding(profile@, views(rel@), depth as nat, waivers@) == Some(d@),
            None => folder_depth_finding(profile@, views(rel@), depth as nat, waivers@) is None,
        },
{
    if depth == 0 || depth - 1 != profile.max_folder_depth || !waivers.active(Rule::FolderDepth) {
        return None;
    }
    let mut message = owned("folders nest ");
    message.append(decimal_string(depth).as_str());
    message.append(" deep below the root, and the limit is ");
    message.append(decimal_string(profile.max_folder_depth).as_str());
    Some(
        Diagnostic::new(Tag::Folder, Rule::FolderDepth, display(rel), message).help(
            owned("flatten a level, or split the tree into two roots"),
        ),
    )
}

} // verus!
