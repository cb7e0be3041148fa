//! The content layer: one parse, three rules derived from it.

use super::Waivers;
use super::filename_matches_export::{filename_finding, filename_matches_export};
use super::max_file_lines::{max_file_lines, max_file_lines_finding};
use super::single_primary_export::{single_primary_export, single_primary_export_finding};
use super::unparsable::{unparsable, unparsable_finding};
use crate::config::{Profile, ProfileView};
use crate::config::profile::governs_construct;
use crate::diagnostics::{Diagnostic, DiagnosticView};
use crate::diagnostics::diagnostic::diagnostic_views;
use crate::lang::{LanguageProfile, ModuleView, PublicName, PublicNameView};
use crate::lang::public_name::name_views;
use crate::rules::Rule;
use crate::text::{decimal, views};
use super::waivers::rule_active;
use crate::walk::display;
use crate::walk::display::displayed;
use crate::walk::file_name::{file_stem, stem_of};
use vstd::prelude::*;

verus! {

/// The names a profile governs, in order.
pub open spec fn governed_of(names: Seq<PublicNameView>, profile: ProfileView) -> Seq<PublicNameView>
    decreases names.len(),
{
    if names.len() == 0 {
        Seq::empty()
    } else {
        let before = governed_of(names.drop_last(), profile);
        if governs_construct(profile, names.last().construct) {
            before.push(names.last())
        } else {
            before
        }
    }
}

/// An optional finding as a list of zero or one.
pub open spec fn opt_list(o: Option<DiagnosticView>) -> Seq<DiagnosticView> {
    match o {
        Some(d) => seq![d],
        None => Seq::empty(),
    }
}

/// A path's file stem, or nothing for an empty path.
pub open spec fn stem_of_path(rel: Seq<Seq<char>>) -> Seq<char> {
    if rel.len() == 0 {
        Seq::empty()
    } else {
        stem_of(rel.last())
    }
}

/// What the content layer reports for one read module: an unparsable file
/// is reported as that alone; otherwise the export count, then — for a file
/// with exactly one governed export — its filename, then — for a file with
/// any — its length.
pub open spec fn content_findings(
    module: ModuleView,
    profile: ProfileView,
    rel: Seq<Seq<char>>,
    waived: Set<Rule>,
) -> Seq<DiagnosticView> {
    let path = displayed(rel);
    if module.has_syntax_errors && module.names.len() == 0 {
        seq![unparsable_finding(path)]
    } else {
        let governed = governed_of(module.names, profile);
        opt_list(single_primary_export_finding(governed, path, waived)) + (if governed.len() == 1 {
            opt_list(filename_finding(profile, governed[0], rel, path, stem_of_path(rel), waived))
        } else {
            Seq::empty()
        }) + (if governed.len() > 0 {
            opt_list(max_file_lines_finding(profile, module.code_lines as nat, path, waived))
        } else {
            Seq::empty()
        })
    }
}

fn push_finding(out: &mut Vec<Diagnostic>, finding: Option<Diagnostic>)
    ensures
        diagnostic_views(final(out)@) == diagnostic_views(old(out)@) + opt_list(
            match finding {
                Some(d) => Some(d@),
                None => None,
            },
        ),
{
    match finding {
        Some(d) => {
            out.push(d);
            assert(diagnostic_views(out@) =~= diagnostic_views(old(out)@).push(d@));
        },
        None => {
            assert(diagnostic_views(out@) =~= diagnostic_views(old(out)@));
        },
    }
}

fn path_stem(rel: &[String]) -> (res: String)
    ensures
        res@ == stem_of_path(views(rel@)),
{
    if rel.len() == 0 {
        String::new()
    } else {
        file_stem(rel[rel.len() - 1].as_str())
    }
}

pub fn check_content<L: LanguageProfile>(
    language: &L,
    profile: &Profile,
    source: &str,
    rel: &[String],
    waivers: &Waivers,
) -> (res: Vec<Diagnostic>)
    ensures
        diagnostic_views(res@) == content_findings(language.reading(source@), profile@, views(rel@), waivers@),
{
    let path = display(rel);
    let stem = path_stem(rel);
    let module = language.read(source);

    let mut diagnostics: Vec<Diagnostic> = Vec::new();
    if module.has_syntax_errors && module.names.len() == 0 {
        diagnostics.push(unparsable(path.as_str()));
        assert(diagnostic_views(diagnostics@) =~= seq![unparsable_finding(path@)]);
        return diagnostics;
    }

    let ghost names = module@.names;
    let mut governed: Vec<PublicName> = Vec::new();
    let mut i: usize = 0;
    while i < module.names.len()
        invariant
            names == name_views(module.names@),
            i <= module.names.len(),
            name_views(governed@) == governed_of(names.take(i as int), profile@),
        decreases module.names.len() - i,
    {
        assert(names.take(i + 1).drop_last() == names.take(i as int));
        assert(names.take(i + 1).last() == module.names@[i as int]@);
        if profile.governs(module.names[i].construct) {
            governed.push(module.names[i].duplicate());
            assert(name_views(governed@) =~= governed_of(names.take(i as int), profile@).push(
                module.names@[i as int]@,
            ));
        }
        i += 1;
    }
    assert(names.take(module.names.len() as int) == names);
    let ghost gov = name_views(governed@);

    assert(diagnostic_views(diagnostics@) =~= Seq::<DiagnosticView>::empty());
    push_finding(&mut diagnostics, single_primary_export(governed.as_slice(), path.as_str(), waivers));
    let ghost after_first = diagnostic_views(diagnostics@);

    // A file that still has to be split cannot be told what to be called:
    // the answer depends on which export survives the split.
    if governed.len() == 1 {
        push_finding(
            &mut diagnostics,
            filename_matches_export(profile, &governed[0], rel, path.as_str(), stem.as_str(), waivers),
        );
    } else {
        assert(diagnostic_views(diagnostics@) =~= after_first + Seq::<DiagnosticView>::empty());
    }
    let ghost after_second = diagnostic_views(diagnostics@);

    // The budget rides on having a primary export, not on having exactly
    // one, so a file that fails the split is still told it is too long.
    if governed.len() > 0 {
        push_finding(&mut diagnostics, max_file_lines(profile, module.code_lines, path.as_str(), waivers));
    } else {
        assert(diagnostic_views(diagnostics@) =~= after_second + Seq::<DiagnosticView>::empty());
    }
    diagnostics
}

/// A profile governs one of the names exactly when it governs some name.
proof fn lemma_governed_of_nonempty(names: Seq<PublicNameView>, profile: ProfileView)
    ensures
        governed_of(names, profile).len() > 0 <==> exists|k: int|
            0 <= k < names.len() && governs_construct(profile, #[trigger] names[k].construct),
    decreases names.len(),
{
    if names.len() > 0 {
        let rest = names.drop_last();
        lemma_governed_of_nonempty(rest, profile);
        if exists|k: int| 0 <= k < rest.len() && governs_construct(profile, #[trigger] rest[k].construct) {
            let k = choose|k: int| 0 <= k < rest.len() && governs_construct(profile, #[trigger] rest[k].construct);
            assert(names[k] == rest[k]);
        }
        if exists|k: int| 0 <= k < names.len() && governs_construct(profile, #[trigger] names[k].construct) {
            let k = choose|k: int| 0 <= k < names.len() && governs_construct(profile, #[trigger] names[k].construct);
            if k < rest.len() {
                assert(rest[k] == names[k]);
            }
        }
    }
}

/// A parsed file with at least one governed export is told when its code
/// lines are over the profile's budget — however many governed exports it
/// has — and no other file is: the content findings hold a `MaxFileLines`
/// finding exactly then, and it names the file, its count and the budget.
pub proof fn lemma_over_budget_is_reported(
    module: ModuleView,
    profile: ProfileView,
    rel: Seq<Seq<char>>,
    waived: Set<Rule>,
)
    ensures
        (exists|j: int|
            0 <= j < content_findings(module, profile, rel, waived).len() && #[trigger] content_findings(
                module,
                profile,
                rel,
                waived,
            )[j].rule == Rule::MaxFileLines) <==> {
            &&& !(module.has_syntax_errors && module.names.len() == 0)
            &&& exists|k: int|
                0 <= k < module.names.len() && governs_construct(profile, #[trigger] module.names[k].construct)
            &&& module.code_lines > profile.max_file_lines
            &&& rule_active(waived, Rule::MaxFileLines)
        },
        forall|j: int|
            0 <= j < content_findings(module, profile, rel, waived).len() && #[trigger] content_findings(
                module,
                profile,
                rel,
                waived,
            )[j].rule == Rule::MaxFileLines ==> {
                let d = content_findings(module, profile, rel, waived)[j];
                &&& d.path == displayed(rel)
                &&& d.message == decimal(module.code_lines as nat) + " lines of code, and the budget is "@
                    + decimal(profile.max_file_lines as nat)
            },
{
    let f = content_findings(module, profile, rel, waived);
    let path = displayed(rel);
    lemma_governed_of_nonempty(module.names, profile);
    if module.has_syntax_errors && module.names.len() == 0 {
        assert(f[0].rule != Rule::MaxFileLines);
    } else {
        let governed = governed_of(module.names, profile);
        let a = opt_list(single_primary_export_finding(governed, path, waived));
        let b = if governed.len() == 1 {
            opt_list(filename_finding(profile, governed[0], rel, path, stem_of_path(rel), waived))
        } else {
            Seq::empty()
        };
        let c = if governed.len() > 0 {
            opt_list(max_file_lines_finding(profile, module.code_lines as nat, path, waived))
        } else {
            Seq::empty()
        };
        assert(f == a + b + c);
        assert(forall|j: int| 0 <= j < a.len() ==> #[trigger] a[j].rule == Rule::SinglePrimaryExport);
        assert(forall|j: int| 0 <= j < b.len() ==> #[trigger] b[j].rule == Rule::FilenameMatchesExport);
        assert forall|j: int| 0 <= j < f.len() implies (#[trigger] f[j].rule == Rule::MaxFileLines <==> j >= a.len()
            + b.len()) by {
            if j < a.len() {
                assert(f[j] == a[j]);
            } else if j < a.len() + b.len() {
                assert(f[j] == b[j - a.len()]);
            } else {
                assert(f[j] == c[j - a.len() - b.len()]);
            }
        }
        if c.len() > 0 {
            assert(f[(a.len() + b.len()) as int].rule == Rule::MaxFileLines);
        }
    }
}

/// Whether the profile governs two of the names.
pub open spec fn governs_two(names: Seq<PublicNameView>, profile: ProfileView) -> bool {
    exists|a: int, b: int|
        0 <= a < b < names.len() && governs_construct(profile, #[trigger] names[a].construct) && governs_construct(
            profile,
            #[trigger] names[b].construct,
        )
}

/// A profile governs two or more of the names exactly when it governs two.
proof fn lemma_governed_of_two(names: Seq<PublicNameView>, profile: ProfileView)
    ensures
        governed_of(names, profile).len() >= 2 <==> governs_two(names, profile),
    decreases names.len(),
{
    if names.len() > 0 {
        let rest = names.drop_last();
        let last = names.len() - 1;
        lemma_governed_of_two(rest, profile);
        lemma_governed_of_nonempty(rest, profile);
        if governs_two(rest, profile) {
            let (a, b) = choose|a: int, b: int|
                0 <= a < b < rest.len() && governs_construct(profile, #[trigger] rest[a].construct)
                    && governs_construct(profile, #[trigger] rest[b].construct);
            assert(names[a] == rest[a] && names[b] == rest[b]);
        }
        if governs_two(names, profile) {
            let (a, b) = choose|a: int, b: int|
                0 <= a < b < names.len() && governs_construct(profile, #[trigger] names[a].construct)
                    && governs_construct(profile, #[trigger] names[b].construct);
            assert(rest[a] == names[a]);
            if b < last {
                assert(rest[b] == names[b]);
            }
        }
        if governs_construct(profile, names[last].construct) {
            if exists|k: int| 0 <= k < rest.len() && governs_construct(profile, #[trigger] rest[k].construct) {
                let k = choose|k: int| 0 <= k < rest.len() && governs_construct(profile, #[trigger] rest[k].construct);
                assert(names[k] == rest[k]);
                assert(governs_construct(profile, names[k].construct) && governs_construct(profile, names[last].construct));
            }
        }
    }
}

/// A parsed file is told to split exactly when its profile governs two or
/// more of its exports (the rule not waived), and it is only ever told what
/// to be called when exactly one export is governed.
pub proof fn lemma_split_and_rename_are_reported(
    module: ModuleView,
    profile: ProfileView,
    rel: Seq<Seq<char>>,
    waived: Set<Rule>,
)
    ensures
        (exists|j: int|
            0 <= j < content_findings(module, profile, rel, waived).len() && #[trigger] content_findings(
                module,
                profile,
                rel,
                waived,
            )[j].rule == Rule::SinglePrimaryExport) <==> {
            &&& !(module.has_syntax_errors && module.names.len() == 0)
            &&& governs_two(module.names, profile)
            &&& rule_active(waived, Rule::SinglePrimaryExport)
        },
        (exists|j: int|
            0 <= j < content_findings(module, profile, rel, waived).len() && #[trigger] content_findings(
                module,
                profile,
                rel,
                waived,
            )[j].rule == Rule::FilenameMatchesExport) ==> {
            &&& !(module.has_syntax_errors && module.names.len() == 0)
            &&& exists|k: int|
                0 <= k < module.names.len() && governs_construct(profile, #[trigger] module.names[k].construct)
            &&& !governs_two(module.names, profile)
        },
{
    let f = content_findings(module, profile, rel, waived);
    let path = displayed(rel);
    lemma_governed_of_nonempty(module.names, profile);
    lemma_governed_of_two(module.names, profile);
    if module.has_syntax_errors && module.names.len() == 0 {
        assert(f[0].rule != Rule::SinglePrimaryExport && f[0].rule != Rule::FilenameMatchesExport);
    } else {
        let governed = governed_of(module.names, profile);
        let a = opt_list(single_primary_export_finding(governed, path, waived));
        let b = if governed.len() == 1 {
            opt_list(filename_finding(profile, governed[0], rel, path, stem_of_path(rel), waived))
        } else {
            Seq::empty()
        };
        let c = if governed.len() > 0 {
            opt_list(max_file_lines_finding(profile, module.code_lines as nat, path, waived))
        } else {
            Seq::empty()
        };
        assert(f == a + b + c);
        assert(forall|j: int| 0 <= j < a.len() ==> #[trigger] a[j].rule == Rule::SinglePrimaryExport);
        assert(forall|j: int| 0 <= j < b.len() ==> #[trigger] b[j].rule == Rule::FilenameMatchesExport);
        assert(forall|j: int| 0 <= j < c.len() ==> #[trigger] c[j].rule == Rule::MaxFileLines);
        assert forall|j: int| 0 <= j < f.len() implies (#[trigger] f[j].rule == Rule::SinglePrimaryExport <==> j
            < a.len()) && (f[j].rule == Rule::FilenameMatchesExport <==> a.len() <= j < a.len() + b.len()) by {
            if j < a.len() {
                assert(f[j] == a[j]);
            } else if j < a.len() + b.len() {
                assert(f[j] == b[j - a.len()]);
            } else {
                assert(f[j] == c[j - a.len() - b.len()]);
            }
        }
        if a.len() > 0 {
            assert(f[0].rule == Rule::SinglePrimaryExport);
        }
    }
}

} // verus!
