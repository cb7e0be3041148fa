use app_organizer::diagnostics::{render_text, Diagnostic, Tag};
use app_organizer::rules::Rule;

fn strings(items: &[&str]) -> Vec<String> {
    items.iter().map(|s| s.to_string()).collect()
}

fn too_deep(path: &str) -> Diagnostic {
    Diagnostic::new(
        Tag::Folder,
        Rule::FolderDepth,
        path.to_string(),
        "folders nest 4 deep below the root, and the limit is 3".to_string(),
    )
    .help("flatten a level, or split the tree into two roots".to_string())
}

#[test]
fn identical_line_less_diagnostics_share_a_block() {
    let out = render_text(&[too_deep("src/a/b/c/d"), too_deep("src/a/b/c/e")], 3, &strings(&["src"]));
    assert_eq!(
        out,
        "error[folder]: folders nest 4 deep below the root, and the limit is 3\n  --> src/a/b/c/d\n      src/a/b/c/e\n   |\n   = flatten a level, or split the tree into two roots\n\nchecked 3 files -- 2 violations\n"
    );
}

#[test]
fn diagnostics_with_lines_stay_apart_and_show_notes() {
    let one = Diagnostic::new(
        Tag::Content,
        Rule::SinglePrimaryExport,
        "src/a.py".to_string(),
        "file exports 2 substantial things, expected 1".to_string(),
    )
    .note("exports: def a, def b".to_string())
    .at_line(4);
    let out = render_text(&[one.clone(), one], 1, &strings(&["src"]));
    let block = "error[content]: file exports 2 substantial things, expected 1\n  --> src/a.py:4\n   |\n   | exports: def a, def b\n\n";
    assert_eq!(out, format!("{block}{block}checked 1 file -- 2 violations\n"));
}

#[test]
fn a_labelled_help_list_lines_up_under_its_first_item() {
    let d = Diagnostic::new(Tag::Naming, Rule::NameCasing, "src/X".to_string(), "bad".to_string())
        .help("tried: a\nb".to_string());
    let out = render_text(&[d], 1, &strings(&["src"]));
    assert_eq!(
        out,
        "error[naming]: bad\n  --> src/X\n   |\n   = tried: a\n            b\n\nchecked 1 file -- 1 violation\n"
    );
}

#[test]
fn a_clean_run_over_nothing_says_why() {
    let out = render_text(&[], 0, &strings(&["src", "tests"]));
    assert_eq!(
        out,
        "checked 0 files -- no violations\nnote: nothing here sits under a declared root (src, tests); check from the project root, or declare roots in app-organizer.toml\n"
    );
}

#[test]
fn a_clean_run_counts_its_files() {
    assert_eq!(render_text(&[], 2, &strings(&["src"])), "checked 2 files -- no violations\n");
}

#[test]
fn a_diagnostic_keys_by_path_line_and_tag() {
    let d = too_deep("src/x");
    assert_eq!(d.sort_key(), ("src/x", 0, Tag::Folder));
    let d = d.at_line(7);
    assert_eq!(d.sort_key(), ("src/x", 7, Tag::Folder));
    assert_eq!(Tag::Size.as_str(), "size");
}
