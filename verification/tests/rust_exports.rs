use app_organizer::lang::{LanguageProfile, Module, Rust};

fn read(source: &str) -> Module {
    Rust.read(source)
}

fn exports(source: &str) -> Vec<(String, &'static str)> {
    read(source)
        .names
        .into_iter()
        .map(|name| (name.name, name.construct))
        .collect()
}

#[test]
fn every_visibility_modifier_exports() {
    let found = exports(
        "pub fn a() {}\n\
         pub(crate) struct B;\n\
         pub(super) enum C { X }\n\
         pub(in crate::d) trait D {}\n",
    );
    assert_eq!(
        found,
        [
            ("a".to_string(), "fn"),
            ("B".to_string(), "struct"),
            ("C".to_string(), "enum"),
            ("D".to_string(), "trait"),
        ]
    );
}

#[test]
fn bare_items_are_private() {
    assert!(exports("fn a() {}\nstruct B;\nconst C: u8 = 1;\n").is_empty());
}

#[test]
fn linkage_items_export_nothing_of_their_own() {
    // The whole reason `auth.rs` beside `auth/`, `mod.rs` and `lib.rs` need
    // no special case: they declare and re-export, and neither counts.
    assert!(exports("pub mod auth;\npub use auth::login;\nimpl Auth {}\n").is_empty());
}

#[test]
fn macros_export_only_with_the_attribute() {
    assert!(exports("macro_rules! quiet { () => {} }").is_empty());
    assert_eq!(
        exports("#[macro_export]\nmacro_rules! shout { () => {} }"),
        [("shout".to_string(), "macro_rules")]
    );
    // The attribute may sit behind a doc comment and other attributes.
    assert_eq!(
        exports(
            "#[macro_export]\n\
             #[allow(unused)]\n\
             /// doc\n\
             macro_rules! shout { () => {} }"
        ),
        [("shout".to_string(), "macro_rules")]
    );
}

#[test]
fn cfg_test_modules_do_not_count_toward_the_budget() {
    let shipped = "pub fn a() {\n    let x = 1;\n}\n";
    let tested =
        format!("{shipped}\n#[cfg(test)]\nmod tests {{\n    #[test]\n    fn t() {{}}\n}}\n");
    assert_eq!(read(shipped).code_lines, 3);
    assert_eq!(read(&tested).code_lines, 3);
}

#[test]
fn comments_and_blank_lines_do_not_count() {
    let source = "// leading\n\
                  pub fn a() {\n\
                  \n\
                  /* block\n\
                     comment */\n\
                      let x = 1; // trailing\n\
                  }\n";
    assert_eq!(read(source).code_lines, 3);
}

#[test]
fn exports_carry_their_lines() {
    let module = read("use x;\n\npub fn a() {}\npub struct B;\n");
    let lines: Vec<usize> = module.names.iter().map(|n| n.line).collect();
    assert_eq!(lines, [3, 4]);
    assert!(!module.has_syntax_errors);
}

#[test]
fn broken_source_is_flagged() {
    let module = read("pub fn (\n");
    assert!(module.has_syntax_errors);
}

#[test]
fn a_name_in_two_namespaces_is_one_export() {
    assert_eq!(
        exports("pub struct A {}\npub fn A() {}\npub fn b() {}\n"),
        [("A".to_string(), "struct"), ("b".to_string(), "fn")]
    );
}

#[test]
fn rust_exports_come_in_source_order() {
    let module = read("pub struct Zeta;\n\nfn hidden() {}\npub(crate) fn alpha() {}\n#[macro_export]\nmacro_rules! beta { () => {} }\npub const GAMMA: u8 = 1;\n");
    let found: Vec<(String, usize)> = module.names.iter().map(|n| (n.name.clone(), n.line)).collect();
    assert_eq!(
        found,
        [
            ("Zeta".to_string(), 1),
            ("alpha".to_string(), 4),
            ("beta".to_string(), 6),
            ("GAMMA".to_string(), 7),
        ]
    );
}
