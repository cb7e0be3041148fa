//! The built-in configuration. Zero config means these defaults are the whole
//! contract, so they live in one place.

use super::{Config, Exception, ExceptionView, Language, Profile, ProfileView};
use super::config::in_key_order;
use super::profile::baseline_profile;
use crate::rules::Rule;
use crate::text::{owned, text_before};
use vstd::prelude::*;

verus! {

/// The one shape of default exception: a file whose name the language
/// dictates can never also be the name of its export, so requiring a match
/// would be requiring the impossible.
pub open spec fn mandated_name_view(path: Seq<char>, reason: Seq<char>) -> ExceptionView {
    ExceptionView { path, waive: seq![Rule::FilenameMatchesExport], reason }
}

/// The built-in Python profile: `def` and `class` carry an application's
/// logic; everything else a module declares is free to cluster.
pub open spec fn default_python_profile() -> ProfileView {
    ProfileView {
        one_per_file: seq!["def"@, "class"@],
        exceptions: seq![
            mandated_name_view("**/__init__.py"@, "Python requires package markers at every level"@),
            mandated_name_view(
                "**/__main__.py"@,
                "Python requires this exact filename for `python -m pkg`"@,
            ),
            ExceptionView {
                path: "tests/**"@,
                waive: seq![Rule::SinglePrimaryExport],
                reason: "a test module holds many test functions by design"@,
            },
        ],
        ..baseline_profile()
    }
}

/// The built-in Rust profile: `fn`, `struct`, `enum` and `trait` are
/// governed; `mod.rs`, `lib.rs` and `main.rs` keep the names cargo and rustc
/// require.
pub open spec fn default_rust_profile() -> ProfileView {
    ProfileView {
        one_per_file: seq!["fn"@, "struct"@, "enum"@, "trait"@],
        exceptions: seq![
            mandated_name_view("**/mod.rs"@, "Rust requires this exact filename for a module"@),
            mandated_name_view("{root}/lib.rs"@, "cargo requires this exact filename"@),
            mandated_name_view("{root}/main.rs"@, "cargo requires this exact filename"@),
        ],
        ..baseline_profile()
    }
}

/// The built-in configuration: `src` and `tests` are Python roots, and
/// Python and Rust have profiles.
pub fn default_config() -> (res: Config)
    ensures
        res.entries() == seq![("src"@, Language::Python), ("tests"@, Language::Python)],
        res.profile_for(Language::Python) == Some(default_python_profile()),
        res.profile_for(Language::Typescript) is None,
        res.profile_for(Language::Rust) == Some(default_rust_profile()),
        res.profile_for(Language::Cpp) is None,
        in_key_order(res.entries()),
{
    let mut roots: Vec<(String, Language)> = Vec::new();
    roots.push((owned("src"), Language::Python));
    roots.push((owned("tests"), Language::Python));
    let res = Config { roots, python: Some(python()), typescript: None, rust: Some(rust()), cpp: None };
    assert(res.entries() =~= seq![("src"@, Language::Python), ("tests"@, Language::Python)]);
    proof {
        reveal_strlit("src");
        reveal_strlit("tests");
        assert(text_before("src"@, "tests"@));
    }
    res
}

fn python() -> (res: Profile)
    ensures
        res@ == default_python_profile(),
{
    let mut exceptions: Vec<Exception> = Vec::new();
    exceptions.push(mandated_name("**/__init__.py", "Python requires package markers at every level"));
    exceptions.push(mandated_name(
        "**/__main__.py",
        "Python requires this exact filename for `python -m pkg`",
    ));
    let mut waive: Vec<Rule> = Vec::new();
    waive.push(Rule::SinglePrimaryExport);
    exceptions.push(Exception {
        path: owned("tests/**"),
        waive,
        reason: owned("a test module holds many test functions by design"),
    });
    let mut one_per_file: Vec<String> = Vec::new();
    one_per_file.push(owned("def"));
    one_per_file.push(owned("class"));
    let res = Profile { one_per_file, exceptions, ..Profile::default() };
    assert(res@.one_per_file =~= default_python_profile().one_per_file);
    assert(res@.exceptions[2].waive =~= seq![Rule::SinglePrimaryExport]);
    assert(res@.exceptions =~= default_python_profile().exceptions);
    res
}

fn rust() -> (res: Profile)
    ensures
        res@ == default_rust_profile(),
{
    let mut exceptions: Vec<Exception> = Vec::new();
    exceptions.push(mandated_name("**/mod.rs", "Rust requires this exact filename for a module"));
    exceptions.push(mandated_name("{root}/lib.rs", "cargo requires this exact filename"));
    exceptions.push(mandated_name("{root}/main.rs", "cargo requires this exact filename"));
    let mut one_per_file: Vec<String> = Vec::new();
    one_per_file.push(owned("fn"));
    one_per_file.push(owned("struct"));
    one_per_file.push(owned("enum"));
    one_per_file.push(owned("trait"));
    let res = Profile { one_per_file, exceptions, ..Profile::default() };
    assert(res@.one_per_file =~= default_rust_profile().one_per_file);
    assert(res@.exceptions =~= default_rust_profile().exceptions);
    res
}

fn mandated_name(path: &str, reason: &str) -> (res: Exception)
    ensures
        res@ == mandated_name_view(path@, reason@),
{
    let mut waive: Vec<Rule> = Vec::new();
    waive.push(Rule::FilenameMatchesExport);
    let res = Exception { path: owned(path), waive, reason: owned(reason) };
    assert(res@.waive =~= seq![Rule::FilenameMatchesExport]);
    res
}

} // verus!
