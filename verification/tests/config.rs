use app_organizer::config::{
    default_config, find_project_root, Casing, Config, ConfigError, ConfigFile, Exception, Language,
    Profile, ProfileOverride, CONFIG_FILE,
};
use app_organizer::rules::Rule;

fn roots(entries: &[(&str, Language)]) -> Vec<(String, Language)> {
    entries.iter().map(|(r, l)| (r.to_string(), *l)).collect()
}

fn strings(items: &[&str]) -> Vec<String> {
    items.iter().map(|s| s.to_string()).collect()
}

fn config_with(entries: &[(&str, Language)]) -> Config {
    let mut config = default_config();
    config.roots = roots(entries);
    config
}

#[test]
fn defaults_declare_python_roots_and_two_profiles() {
    let config = default_config();
    assert_eq!(config.roots, roots(&[("src", Language::Python), ("tests", Language::Python)]));
    let python = config.profile(Language::Python).unwrap();
    assert_eq!(python.one_per_file, strings(&["def", "class"]));
    assert_eq!(python.max_file_lines, 200);
    assert_eq!(python.max_folder_depth, 3);
    assert_eq!(python.name_case, Casing::SnakeCase);
    let paths: Vec<&str> = python.exceptions.iter().map(|e| e.path.as_str()).collect();
    assert_eq!(paths, ["**/__init__.py", "**/__main__.py", "tests/**"]);
    let rust = config.profile(Language::Rust).unwrap();
    assert_eq!(rust.one_per_file, strings(&["fn", "struct", "enum", "trait"]));
    let paths: Vec<&str> = rust.exceptions.iter().map(|e| e.path.as_str()).collect();
    assert_eq!(paths, ["**/mod.rs", "{root}/lib.rs", "{root}/main.rs"]);
    assert!(config.profile(Language::Typescript).is_none());
    assert!(config.profile(Language::Cpp).is_none());
    assert_eq!(CONFIG_FILE, "app-organizer.toml");
}

#[test]
fn the_deepest_owning_root_wins() {
    let config = config_with(&[("src", Language::Python), ("src/pkg", Language::Rust)]);
    let found = config.root_for(&strings(&["src", "pkg", "a.rs"]));
    assert_eq!(found, Some(("src/pkg", Language::Rust, 2)));
    let found = config.root_for(&strings(&["src", "a.py"]));
    assert_eq!(found, Some(("src", Language::Python, 1)));
    assert_eq!(config.root_for(&strings(&["docs", "a.py"])), None);
    assert_eq!(config.root_for(&strings(&["srcx", "a.py"])), None);
}

#[test]
fn roots_are_listed_per_language_in_order() {
    let config = config_with(&[
        ("a", Language::Python),
        ("b", Language::Rust),
        ("c", Language::Python),
    ]);
    assert_eq!(config.roots_for(Language::Python), strings(&["a", "c"]));
    assert_eq!(config.roots_for(Language::Rust), strings(&["b"]));
    assert!(config.roots_for(Language::Cpp).is_empty());
}

#[test]
fn malformed_and_nested_roots_are_refused() {
    assert_eq!(config_with(&[("src", Language::Python)]).check_roots(), Ok(()));
    assert_eq!(
        config_with(&[("/src", Language::Python)]).check_roots(),
        Err("root `/src` must be a relative path with no leading or trailing slash".to_string())
    );
    assert_eq!(
        config_with(&[("src/", Language::Python)]).check_roots(),
        Err("root `src/` must be a relative path with no leading or trailing slash".to_string())
    );
    assert_eq!(
        config_with(&[("", Language::Python)]).check_roots(),
        Err("root `` must be a relative path with no leading or trailing slash".to_string())
    );
    assert_eq!(
        config_with(&[("src", Language::Python), ("src/pkg", Language::Rust)]).check_roots(),
        Err("root `src/pkg` is nested inside root `src`".to_string())
    );
    assert_eq!(
        config_with(&[("src", Language::Python), ("srcx", Language::Rust)]).check_roots(),
        Ok(())
    );
}

fn exception(path: &str, waive: &[Rule], reason: &str) -> Exception {
    Exception { path: path.to_string(), waive: waive.to_vec(), reason: reason.to_string() }
}

fn nothing_overridden() -> ProfileOverride {
    ProfileOverride {
        one_per_file: None,
        max_file_lines: None,
        max_folder_depth: None,
        name_case: None,
        exceptions: Vec::new(),
    }
}

#[test]
fn an_override_replaces_scalars_and_appends_new_exceptions() {
    let mut profile = Profile::default();
    let over = ProfileOverride {
        max_file_lines: Some(100),
        name_case: Some(Casing::KebabCase),
        exceptions: vec![
            exception("gen/**", &[Rule::NameCasing], "generated"),
            exception("gen/**", &[Rule::NameCasing], "said twice"),
        ],
        ..nothing_overridden()
    };
    over.apply_to(&mut profile);
    assert_eq!(profile.max_file_lines, 100);
    assert_eq!(profile.max_folder_depth, 3);
    assert_eq!(profile.name_case, Casing::KebabCase);
    assert_eq!(profile.exceptions.len(), 1);
    assert_eq!(profile.exceptions[0].reason, "generated");
}

#[test]
fn applying_an_override_twice_changes_nothing_more() {
    let over = ProfileOverride {
        one_per_file: Some(strings(&["def"])),
        max_folder_depth: Some(5),
        exceptions: vec![exception("a/**", &[Rule::FolderDepth], "deep")],
        ..nothing_overridden()
    };
    let mut once = Profile::default();
    over.apply_to(&mut once);
    let mut twice = Profile::default();
    over.apply_to(&mut twice);
    over.apply_to(&mut twice);
    assert_eq!(once.one_per_file, twice.one_per_file);
    assert_eq!(once.max_folder_depth, twice.max_folder_depth);
    assert_eq!(once.exceptions.len(), twice.exceptions.len());
}

#[test]
fn a_seeded_file_does_not_double_the_default_exceptions() {
    let mut config = default_config();
    let defaults = config.profile(Language::Python).unwrap().exceptions.clone();
    let file = ConfigFile {
        roots: None,
        python: Some(ProfileOverride { exceptions: defaults.clone(), ..nothing_overridden() }),
        typescript: None,
        rust: None,
        cpp: None,
    };
    config.merge(file);
    assert_eq!(config.profile(Language::Python).unwrap().exceptions.len(), defaults.len());
}

#[test]
fn merging_a_file_replaces_roots_and_seeds_new_profiles() {
    let mut config = default_config();
    let file = ConfigFile {
        roots: Some(roots(&[("web", Language::Typescript)])),
        python: None,
        typescript: Some(ProfileOverride { name_case: Some(Casing::KebabCase), ..nothing_overridden() }),
        rust: Some(ProfileOverride { max_file_lines: Some(80), ..nothing_overridden() }),
        cpp: None,
    };
    config.merge(file);
    assert_eq!(config.roots, roots(&[("web", Language::Typescript)]));
    let typescript = config.profile(Language::Typescript).unwrap();
    assert_eq!(typescript.name_case, Casing::KebabCase);
    assert_eq!(typescript.max_file_lines, 200);
    assert!(typescript.exceptions.is_empty());
    let rust = config.profile(Language::Rust).unwrap();
    assert_eq!(rust.max_file_lines, 80);
    assert_eq!(rust.exceptions.len(), 3);
    assert_eq!(config.profile(Language::Python).unwrap().max_file_lines, 200);
}

#[test]
fn exceptions_compare_by_scope_and_effect() {
    let a = exception("x/**", &[Rule::NameCasing], "one reason");
    let b = exception("x/**", &[Rule::NameCasing], "another");
    let c = exception("x/**", &[Rule::FolderDepth], "one reason");
    assert!(a.same(&b));
    assert!(!a.same(&c));
}

#[test]
fn profiles_govern_their_constructs() {
    let config = default_config();
    let python = config.profile(Language::Python).unwrap();
    assert!(python.governs("def"));
    assert!(!python.governs("assignment"));
}

#[test]
fn languages_claim_extensions() {
    assert_eq!(Language::for_extension("py"), Some(Language::Python));
    assert_eq!(Language::for_extension("pyi"), Some(Language::Python));
    assert_eq!(Language::for_extension("tsx"), Some(Language::Typescript));
    assert_eq!(Language::for_extension("rs"), Some(Language::Rust));
    assert_eq!(Language::for_extension("h"), Some(Language::Cpp));
    assert_eq!(Language::for_extension("md"), None);
    assert_eq!(Language::Cpp.extensions(), ["cpp", "cc", "hpp", "h"]);
    assert_eq!(Language::Typescript.as_str(), "typescript");
}

#[test]
fn the_nearest_marked_ancestor_is_the_project_root() {
    let ancestors = strings(&["/p/app/src", "/p/app", "/p"]);
    assert_eq!(find_project_root(&ancestors, &vec![false, true, true]), "/p/app");
    assert_eq!(find_project_root(&ancestors, &vec![false, false, false]), "/p/app/src");
}

#[test]
fn config_errors_read_as_path_and_message() {
    let error = ConfigError { path: "app-organizer.toml".to_string(), message: "bad key".to_string() };
    assert_eq!(error.describe(), "app-organizer.toml: bad key");
}

#[test]
fn roots_must_come_in_key_order_once_each() {
    assert!(default_config().roots_in_key_order());
    assert!(config_with(&[]).roots_in_key_order());
    assert!(config_with(&[("a", Language::Python), ("a/b", Language::Rust), ("b", Language::Rust)]).roots_in_key_order());
    assert!(!config_with(&[("b", Language::Python), ("a", Language::Python)]).roots_in_key_order());
    assert!(!config_with(&[("a", Language::Python), ("a", Language::Rust)]).roots_in_key_order());
}
