//! One casing, for every folder and every file the language owns.

use super::Waivers;
use super::waivers::rule_active;
use super::Rule;
use crate::config::{Profile, ProfileView};
use crate::config::casing::{obeys_casing, suggested_name};
use crate::diagnostics::{Diagnostic, DiagnosticView, Tag};
use crate::diagnostics::diagnostic::plain_diagnostic;
use crate::text::{owned, same_text, views};
use crate::walk::display;
use crate::walk::display::displayed;
use vstd::prelude::*;

verus! {

/// The diagnostic for a folder name or file stem that breaks the casing.
/// A rename is offered only when the casing's own spelling of the name is
/// different and would itself be accepted.
pub open spec fn name_casing_finding(
    profile: ProfileView,
    rel: Seq<Seq<char>>,
    name: Seq<char>,
    suffix: Seq<char>,
    waived: Set<Rule>,
) -> Option<DiagnosticView> {
    let casing = profile.name_case;
    if obeys_casing(casing, name) || !rule_active(waived, Rule::NameCasing) {
        None
    } else {
        let base = plain_diagnostic(
            Tag::Naming,
            Rule::NameCasing,
            displayed(rel),
            "`"@ + name + suffix + "` is not "@ + casing.label(),
        );
        Some(match suggested_name(casing, name) {
            Some(s) => if s != name && obeys_casing(casing, s) {
                DiagnosticView { help: seq!["rename to "@ + s + suffix], ..base }
            } else {
                base
            },
            None => base,
        })
    }
}

/// `name` is the folder's name, or the file's stem.
///
/// Files whose content already prescribes a filename are not passed here:
/// that rename fixes the casing too, and offering two different names for
/// one file would be worse than saying nothing.
pub fn name_casing(profile: &Profile, rel: &[String], name: &str, suffix: &str, waivers: &Waivers) -> (res:
    Option<Diagnostic>)
    ensures
        match res {
            Some(d) => name_casing_finding(profile@, views(rel@), name@, suffix@, waivers@) == Some(d@),
            None => name_casing_finding(profile@, views(rel@), name@, suffix@, waivers@) is None,
        },
{
    let casing = profile.name_case;
    if casing.matches(name) || !waivers.active(Rule::NameCasing) {
        return None;
    }
    let mut message = owned("`");
    message.append(name);
    message.append(suffix);
    message.append("` is not ");
    message.append(casing.as_str());
    let diagnostic = Diagnostic::new(Tag::Naming, Rule::NameCasing, display(rel), message);
    // Only offer a rename the rule would actually accept: snake_casing
    // `foo bar` or `Foo-Bar` leaves them non-conforming, and prescribing the
    // name that was just rejected is worse than saying nothing.
    match casing.suggest(name) {
        Some(suggestion) => {
            if !same_text(suggestion.as_str(), name) && casing.matches(suggestion.as_str()) {
                let mut help = owned("rename to ");
                help.append(suggestion.as_str());
                help.append(suffix);
                return Some(diagnostic.help(help));
            }
            Some(diagnostic)
        },
        None => Some(diagnostic),
    }
}

} // verus!
