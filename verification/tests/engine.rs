use app_organizer::config::{default_config, Config, ConfigError, Exception, Language, Profile};
use app_organizer::diagnostics::{Diagnostic, Tag};
use app_organizer::engine::report_order::sort_diagnostics;
use app_organizer::rules::Rule;
use app_organizer::walk::Tree;
use app_organizer::{Engine, Error, Report};

fn path(p: &str) -> Vec<String> {
    p.split('/').map(|s| s.to_string()).collect()
}

fn engine(config: Config) -> Engine {
    match Engine::new(config) {
        Ok(engine) => engine,
        Err(error) => panic!("{}", error.describe()),
    }
}

fn check(engine: &Engine, files: &[(&str, Option<Result<&str, &str>>)], dirs: &[&str]) -> Report {
    let tree = Tree {
        files: files.iter().map(|(p, _)| path(p)).collect(),
        dirs: dirs.iter().map(|p| path(p)).collect(),
    };
    let sources: Vec<Option<Result<String, String>>> = files
        .iter()
        .map(|(_, s)| s.map(|r| r.map(|t| t.to_string()).map_err(|e| e.to_string())))
        .collect();
    engine.check(&tree, &sources)
}

fn summary(report: &Report) -> Vec<(String, Tag, Rule, Option<usize>, String)> {
    report
        .diagnostics
        .iter()
        .map(|d| (d.path.clone(), d.tag, d.rule, d.line, d.message.clone()))
        .collect()
}

fn invalid(config: Config) -> String {
    match Engine::new(config) {
        Ok(_) => panic!("the config was accepted"),
        Err(Error::Invalid(message)) => message,
        Err(Error::Config(_)) => panic!("a config error"),
    }
}

#[test]
fn two_substantial_exports_are_one_too_many() {
    let engine = engine(default_config());
    let report = check(&engine, &[("src/auth.py", Some(Ok("def a():\n    pass\n\ndef b():\n    pass\n")))], &[]);
    assert_eq!(report.files_checked, 1);
    assert_eq!(
        summary(&report),
        [(
            "src/auth.py".to_string(),
            Tag::Content,
            Rule::SinglePrimaryExport,
            Some(4),
            "file exports 2 substantial things, expected 1".to_string()
        )]
    );
    assert_eq!(
        report.diagnostics[0].notes,
        ["exports: def a, def b", "move all but one to files of their own, or make them private"]
    );
    assert!(!report.is_clean());
}

#[test]
fn a_file_is_named_after_its_export_before_its_casing() {
    let engine = engine(default_config());
    let report = check(&engine, &[("src/Bad.py", Some(Ok("def login():\n    pass\n")))], &[]);
    assert_eq!(
        summary(&report),
        [(
            "src/Bad.py".to_string(),
            Tag::Naming,
            Rule::FilenameMatchesExport,
            Some(1),
            "file name does not match its export `def login`".to_string()
        )]
    );
    assert_eq!(report.diagnostics[0].help, ["rename to login.py"]);
}

#[test]
fn a_file_without_a_governed_export_is_held_to_its_casing() {
    let engine = engine(default_config());
    let report = check(&engine, &[("src/Consts.py", Some(Ok("A = 1\n")))], &[]);
    assert_eq!(
        summary(&report),
        [(
            "src/Consts.py".to_string(),
            Tag::Naming,
            Rule::NameCasing,
            None,
            "`Consts.py` is not snake_case".to_string()
        )]
    );
    assert_eq!(report.diagnostics[0].help, ["rename to consts.py"]);
}

#[test]
fn folders_nest_only_so_deep() {
    let engine = engine(default_config());
    let report = check(&engine, &[], &["src", "src/a", "src/a/b", "src/a/b/c", "src/a/b/c/d", "src/a/b/c/d/e"]);
    assert_eq!(report.files_checked, 0);
    assert_eq!(
        summary(&report),
        [(
            "src/a/b/c/d".to_string(),
            Tag::Folder,
            Rule::FolderDepth,
            None,
            "folders nest 4 deep below the root, and the limit is 3".to_string()
        )]
    );
}

#[test]
fn a_file_of_another_language_is_reported_as_that_alone() {
    let engine = engine(default_config());
    let report = check(&engine, &[("src/Lib.rs", Some(Ok("pub fn a() {}\npub fn b() {}\n")))], &[]);
    assert_eq!(
        summary(&report),
        [(
            "src/Lib.rs".to_string(),
            Tag::Root,
            Rule::RootLanguageMatch,
            None,
            "`src/` is declared python, but contains rust files".to_string()
        )]
    );
}

#[test]
fn untracked_and_unowned_files_are_invisible() {
    let engine = engine(default_config());
    let report = check(
        &engine,
        &[("docs/Guide.py", Some(Ok("def a(): pass\ndef b(): pass\n"))), ("src/README.md", None)],
        &["docs/A/B/C/D/E"],
    );
    assert_eq!(report.files_checked, 0);
    assert!(report.is_clean());
    assert_eq!(report.declared_roots, ["src", "tests"]);
}

#[test]
fn the_default_tests_waiver_frees_test_modules() {
    let engine = engine(default_config());
    let report = check(&engine, &[("tests/test_auth.py", Some(Ok("def test_a():\n    pass\n\ndef test_b():\n    pass\n")))], &[]);
    assert_eq!(report.files_checked, 1);
    assert!(report.is_clean());
}

#[test]
fn an_unreadable_file_says_so() {
    let engine = engine(default_config());
    assert!(engine.wants_source(&path("src/a.py")));
    assert!(!engine.wants_source(&path("src/a.rs")));
    assert!(!engine.wants_source(&path("docs/a.py")));
    let report = check(&engine, &[("src/a.py", Some(Err("stream did not contain valid UTF-8")))], &[]);
    assert_eq!(report.diagnostics.len(), 1);
    let d = &report.diagnostics[0];
    assert_eq!((d.tag, d.rule), (Tag::Content, Rule::FileIsReadable));
    assert_eq!(d.message, "could not read this file as UTF-8");
    assert_eq!(d.notes, ["stream did not contain valid UTF-8", "its contents are not checked"]);
}

#[test]
fn a_syntax_error_with_nothing_read_is_unparsable() {
    let engine = engine(default_config());
    let report = check(&engine, &[("src/broken.py", Some(Ok("def (\n")))], &[]);
    assert_eq!(
        summary(&report),
        [(
            "src/broken.py".to_string(),
            Tag::Content,
            Rule::FileIsReadable,
            None,
            "could not parse this file".to_string()
        )]
    );
}

#[test]
fn a_long_file_with_an_export_is_over_budget() {
    let mut config = default_config();
    config.python.as_mut().unwrap().max_file_lines = 2;
    let engine = engine(config);
    let report = check(&engine, &[("src/login.py", Some(Ok("def login():\n    a = 1\n    return a\n")))], &[]);
    assert_eq!(
        summary(&report),
        [(
            "src/login.py".to_string(),
            Tag::Size,
            Rule::MaxFileLines,
            None,
            "3 lines of code, and the budget is 2".to_string()
        )]
    );
}

#[test]
fn reports_come_sorted_by_path_line_and_tag() {
    let engine = engine(default_config());
    let report = check(
        &engine,
        &[
            ("src/zeta.py", Some(Ok("def zeta():\n    pass\n"))),
            ("src/Alpha.py", Some(Ok("X = 1\n"))),
            ("src/two.py", Some(Ok("def a():\n    pass\ndef b():\n    pass\n"))),
        ],
        &["src/Beta"],
    );
    let paths: Vec<String> = report.diagnostics.iter().map(|d| d.path.clone()).collect();
    assert_eq!(paths, ["src/Alpha.py", "src/Beta", "src/two.py"]);
    assert_eq!(report.files_checked, 3);
}

#[test]
fn sorting_is_stable_for_equal_keys() {
    let d = |path: &str, message: &str| {
        Diagnostic::new(Tag::Naming, Rule::NameCasing, path.to_string(), message.to_string())
    };
    let sorted = sort_diagnostics(vec![d("b", "1"), d("a", "2"), d("b", "3"), d("a", "4")]);
    let order: Vec<String> = sorted.iter().map(|d| d.message.clone()).collect();
    assert_eq!(order, ["2", "4", "1", "3"]);
}

#[test]
fn roots_without_a_profile_are_refused() {
    let mut config = default_config();
    config.roots = vec![("app".to_string(), Language::Typescript), ("web".to_string(), Language::Typescript)];
    assert!(config.roots_in_key_order());
    assert_eq!(invalid(config), "roots app, web are declared typescript, but there is no [typescript] profile");
}

#[test]
fn bad_roots_are_refused_before_anything_else() {
    let mut config = default_config();
    config.roots = vec![("/src".to_string(), Language::Typescript)];
    assert_eq!(invalid(config), "root `/src` must be a relative path with no leading or trailing slash");
}

#[test]
fn a_malformed_exception_glob_is_refused() {
    let mut config = default_config();
    config.python = Some(Profile {
        exceptions: vec![Exception {
            path: "src/[".to_string(),
            waive: vec![Rule::NameCasing],
            reason: "broken".to_string(),
        }],
        ..Profile::default()
    });
    let message = invalid(config);
    assert!(message.starts_with("invalid exception path `src/[`: "), "{message}");
}

#[test]
fn the_engine_keeps_its_config() {
    let engine = engine(default_config());
    assert_eq!(engine.config().roots.len(), 2);
}

#[test]
fn errors_describe_themselves() {
    let error = Error::Invalid("nope".to_string());
    assert_eq!(error.describe(), "nope");
}

#[test]
fn a_config_error_becomes_an_engine_error() {
    let error = Error::from(ConfigError { path: "app-organizer.toml".to_string(), message: "bad".to_string() });
    assert!(matches!(error, Error::Config(_)));
    assert_eq!(error.describe(), "app-organizer.toml: bad");
}
