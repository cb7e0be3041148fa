use app_organizer::grammar::{parse, FILES, KIND, ROOT};

fn strings(items: &[&str]) -> Vec<String> {
    items.iter().map(|s| s.to_string()).collect()
}

fn message(raw: &str) -> String {
    match parse(raw) {
        Ok(_) => panic!("`{raw}` parsed"),
        Err(error) => {
            assert_eq!(error.pattern, raw);
            error.message
        }
    }
}

#[test]
fn a_pattern_lists_its_segments() {
    let pattern = parse("{root}/{folder1}/{kind}/{files}").unwrap();
    assert_eq!(pattern.raw, "{root}/{folder1}/{kind}/{files}");
    assert_eq!(pattern.segments, strings(&["root", "folder1", "kind", "files"]));
    assert_eq!(pattern.dir_segments(), strings(&["root", "folder1", "kind"]).as_slice());
    assert_eq!((ROOT, KIND, FILES), ("root", "kind", "files"));
}

#[test]
fn the_shortest_pattern_is_root_then_files() {
    let pattern = parse("{root}/{files}").unwrap();
    assert_eq!(pattern.dir_segments(), strings(&["root"]).as_slice());
}

#[test]
fn malformed_patterns_say_what_is_wrong() {
    assert_eq!(message("{root}/x/{files}"), "segment `x` is not of the form {name}");
    assert_eq!(message(""), "segment `` is not of the form {name}");
    assert_eq!(message("{root}//{files}"), "segment `` is not of the form {name}");
    assert_eq!(message("{root}/{}/{files}"), "empty segment name");
    assert_eq!(message("{root}"), "a pattern needs at least a root and a terminator");
    assert_eq!(message("{top}/{files}"), "the first segment must be {root}");
    assert_eq!(message("{root}/{leaf}"), "the last segment must be {files}");
    assert_eq!(message("{root}/{root}/{files}"), "{root} and {files} may only appear at the ends");
    assert_eq!(message("{root}/{files}/{files}"), "{root} and {files} may only appear at the ends");
}

#[test]
fn a_parse_error_reads_with_its_pattern() {
    let error = parse("{root}").err().unwrap();
    assert_eq!(
        error.describe(),
        "invalid pattern `{root}`: a pattern needs at least a root and a terminator"
    );
}
