use app_organizer::config::Language;
use app_organizer::lang::{profile_for, LanguageProfile, Module, Python};

fn read(source: &str) -> Module {
    Python.read(source)
}

fn exports(source: &str) -> Vec<(String, &'static str, usize)> {
    read(source)
        .names
        .into_iter()
        .map(|name| (name.name, name.construct, name.line))
        .collect()
}

#[test]
fn top_level_definitions_export() {
    assert_eq!(
        exports("def login():\n    pass\n\nclass Session:\n    pass\n"),
        [
            ("login".to_string(), "def", 1),
            ("Session".to_string(), "class", 4),
        ]
    );
}

#[test]
fn underscored_names_are_private() {
    assert!(exports("def _helper():\n    pass\n__version__ = '1'\n").is_empty());
}

#[test]
fn assignments_export_each_target() {
    assert_eq!(
        exports("A, B = 1, 2\nC = D = 3\n"),
        [
            ("A".to_string(), "assignment", 1),
            ("B".to_string(), "assignment", 1),
            ("C".to_string(), "assignment", 2),
            ("D".to_string(), "assignment", 2),
        ]
    );
}

#[test]
fn a_chained_assignment_over_two_lines_keeps_source_order() {
    assert_eq!(
        exports("A = \\\nB = 1\n"),
        [("A".to_string(), "assignment", 1), ("B".to_string(), "assignment", 2)]
    );
}

#[test]
fn imports_and_conditional_blocks_export_nothing() {
    assert!(exports("import os\nfrom x import y\nif True:\n    def f():\n        pass\n").is_empty());
}

#[test]
fn decorated_definitions_export_once_per_name() {
    let found = exports(
        "@overload\ndef f(x: int) -> int: ...\n@overload\ndef f(x: str) -> str: ...\ndef f(x):\n    return x\n",
    );
    assert_eq!(found, [("f".to_string(), "def", 2)]);
}

#[test]
fn python_code_lines_skip_comments_and_blanks() {
    let module = read("# heading\n\ndef f():\n    # inside\n    return 1\n");
    assert_eq!(module.code_lines, 2);
    assert!(!module.has_syntax_errors);
}

#[test]
fn only_parsed_languages_have_a_content_profile() {
    let python = profile_for(Language::Python).unwrap();
    assert_eq!(python.language(), Language::Python);
    assert_eq!(python.read("def a():\n    pass\n").names.len(), 1);
    assert_eq!(profile_for(Language::Rust).unwrap().language(), Language::Rust);
    assert!(profile_for(Language::Typescript).is_none());
    assert!(profile_for(Language::Cpp).is_none());
    assert_eq!(Python.language(), Language::Python);
}

#[test]
fn python_exports_come_in_source_order() {
    let found = exports(
        "class Zeta:\n    pass\n\n@decorate\ndef alpha():\n    pass\n\nM, N = 1, 2\nbeta = \\\n  gamma = 3\n",
    );
    assert_eq!(
        found,
        [
            ("Zeta".to_string(), "class", 1),
            ("alpha".to_string(), "def", 5),
            ("M".to_string(), "assignment", 8),
            ("N".to_string(), "assignment", 8),
            ("beta".to_string(), "assignment", 9),
            ("gamma".to_string(), "assignment", 10),
        ]
    );
}
