use app_organizer::config::{default_config, Exception, Language, Profile};
use app_organizer::rules::{Exceptions, Rule};

fn strings(items: &[&str]) -> Vec<String> {
    items.iter().map(|s| s.to_string()).collect()
}

fn with_exceptions(exceptions: Vec<Exception>) -> Profile {
    Profile { exceptions, ..Profile::default() }
}

fn exception(path: &str, waive: &[Rule]) -> Exception {
    Exception { path: path.to_string(), waive: waive.to_vec(), reason: "because".to_string() }
}

#[test]
fn root_placeholders_expand_per_declared_root() {
    let config = default_config();
    let rust = config.profile(Language::Rust).unwrap();
    let exceptions = Exceptions::build(rust, &strings(&["crates/a", "crates/b"])).unwrap();
    assert!(exceptions.waivers_for("crates/a/lib.rs").waives(Rule::FilenameMatchesExport));
    assert!(exceptions.waivers_for("crates/b/main.rs").waives(Rule::FilenameMatchesExport));
    assert!(!exceptions.waivers_for("crates/a/nested/lib.rs").waives(Rule::FilenameMatchesExport));
    assert!(exceptions.waivers_for("crates/a/nested/mod.rs").waives(Rule::FilenameMatchesExport));
    assert!(!exceptions.waivers_for("crates/a/util.rs").waives(Rule::FilenameMatchesExport));
}

#[test]
fn a_star_does_not_cross_a_separator() {
    let profile = with_exceptions(vec![exception("gen/*.py", &[Rule::NameCasing])]);
    let exceptions = Exceptions::build(&profile, &strings(&["src"])).unwrap();
    assert!(exceptions.waivers_for("gen/Api.py").waives(Rule::NameCasing));
    assert!(!exceptions.waivers_for("gen/deep/Api.py").waives(Rule::NameCasing));
}

#[test]
fn matching_exceptions_pool_their_waivers() {
    let profile = with_exceptions(vec![
        exception("tests/**", &[Rule::SinglePrimaryExport]),
        exception("**/conftest.py", &[Rule::NameCasing]),
    ]);
    let exceptions = Exceptions::build(&profile, &strings(&["src"])).unwrap();
    let waivers = exceptions.waivers_for("tests/conftest.py");
    assert!(waivers.waives(Rule::SinglePrimaryExport));
    assert!(waivers.waives(Rule::NameCasing));
    assert!(!waivers.waives(Rule::FolderDepth));
    assert!(!exceptions.waivers_for("src/conf.py").waives(Rule::NameCasing));
}

#[test]
fn a_placeholder_with_no_roots_matches_nothing() {
    let profile = with_exceptions(vec![exception("{root}/lib.rs", &[Rule::NameCasing])]);
    let exceptions = Exceptions::build(&profile, &[]).unwrap();
    assert!(!exceptions.waivers_for("lib.rs").waives(Rule::NameCasing));
    assert!(!exceptions.waivers_for("{root}/lib.rs").waives(Rule::NameCasing));
}

#[test]
fn a_malformed_glob_is_reported_with_its_exception() {
    let profile = with_exceptions(vec![
        exception("ok/**", &[Rule::NameCasing]),
        exception("src/[", &[Rule::NameCasing]),
    ]);
    let error = match Exceptions::build(&profile, &strings(&["src"])) {
        Ok(_) => panic!("a malformed glob compiled"),
        Err(error) => error,
    };
    assert!(error.starts_with("invalid exception path `src/[`: "), "{error}");
    assert!(error.contains("src/["), "{error}");
}

#[test]
fn match_indices_pool_their_waivers_and_ignore_strays() {
    let profile = with_exceptions(vec![
        exception("a/**", &[Rule::NameCasing]),
        exception("b/**", &[Rule::FolderDepth, Rule::MaxFileLines]),
    ]);
    let exceptions = Exceptions::build(&profile, &strings(&["src"])).unwrap();
    let waivers = exceptions.waivers_of_matches(&vec![1, 7]);
    assert!(waivers.waives(Rule::FolderDepth));
    assert!(waivers.waives(Rule::MaxFileLines));
    assert!(!waivers.waives(Rule::NameCasing));
    assert!(!exceptions.waivers_of_matches(&vec![]).waives(Rule::NameCasing));
}
