//! The line budget, on the files carrying the logic.
//!
//! The value is one threshold holding across every language a project uses,
//! whichever per-language linters it happens to have switched on.

use super::Waivers;
use super::waivers::rule_active;
use super::Rule;
use crate::config::{Profile, ProfileView};
use crate::diagnostics::{Diagnostic, DiagnosticView, Tag};
use crate::diagnostics::diagnostic::plain_diagnostic;
use crate::text::{decimal, decimal_string, owned};
use vstd::prelude::*;

verus! {

/// The diagnostic for a file of `code_lines` lines, if that is over budget.
pub open spec fn max_file_lines_finding(
    profile: ProfileView,
    code_lines: nat,
    path: Seq<char>,
    waived: Set<Rule>,
) -> Option<DiagnosticView> {
    if code_lines <= profile.max_file_lines || !rule_active(waived, Rule::MaxFileLines) {
        None
    } else {
        Some(DiagnosticView {
            notes: seq!["blank lines and comments are not counted"@],
            help: seq!["pull a private helper out into its own file, or split the export in two"@],
            ..plain_diagnostic(
                Tag::Size,
                Rule::MaxFileLines,
                path,
                decimal(code_lines) + " lines of code, and the budget is "@ + decimal(
                    profile.max_file_lines as nat,
                ),
            )
        })
    }
}

pub fn max_file_lines(profile: &Profile, code_lines: usize, path: &str, waivers: &Waivers) -> (res:
    Option<Diagnostic>)
    ensures
        match res {
            Some(d) => max_file_lines_finding(profile@, code_lines as nat, path@, waivers@) == Some(d@),
            None => max_file_lines_finding(profile@, code_lines as nat, path@, waivers@) is None,
        },
{
    if code_lines <= profile.max_file_lines || !waivers.active(Rule::MaxFileLines) {
        return None;
    }
    let mut message = decimal_string(code_lines);
    message.append(" lines of code, and the budget is ");
    message.append(decimal_string(profile.max_file_lines).as_str());
    Some(
        Diagnostic::new(Tag::Size, Rule::MaxFileLines, owned(path), message).note(
            owned("blank lines and comments are not counted"),
        ).help(owned("pull a private helper out into its own file, or split the export in two")),
    )
}

} // verus!
