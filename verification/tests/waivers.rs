use app_organizer::rules::{Rule, Waivers};

fn waiving(rules: &[Rule]) -> Waivers {
    Waivers(rules.to_vec())
}

#[test]
fn waiving_a_rule_deactivates_what_depends_on_it() {
    // How `tests/**` becomes free: with no single primary export, there is
    // nothing to derive a filename from and nothing to hold to a budget.
    let waivers = waiving(&[Rule::SinglePrimaryExport]);
    assert!(!waivers.active(Rule::FilenameMatchesExport));
    assert!(!waivers.active(Rule::MaxFileLines));
    // But casing has no such dependency and still applies.
    assert!(waivers.active(Rule::NameCasing));
}

#[test]
fn waiving_a_dependant_leaves_its_dependency_alone() {
    // `mod.rs` cannot be named after its export, but it is still held to
    // one export and to the line budget.
    let waivers = waiving(&[Rule::FilenameMatchesExport]);
    assert!(waivers.active(Rule::SinglePrimaryExport));
    assert!(waivers.active(Rule::MaxFileLines));
}

#[test]
fn nothing_is_waived_by_default() {
    let waivers = Waivers::default();
    for rule in Rule::ALL {
        assert!(waivers.active(rule), "{} should be active", rule.as_str());
    }
}

#[test]
fn a_waived_rule_is_inactive_and_reported_as_waived() {
    let waivers = waiving(&[Rule::NameCasing, Rule::NameCasing]);
    assert!(waivers.waives(Rule::NameCasing));
    assert!(!waivers.waives(Rule::FolderDepth));
    assert!(!waivers.active(Rule::NameCasing));
    assert!(waivers.active(Rule::FolderDepth));
}

#[test]
fn waiving_one_rule_leaves_unrelated_rules_alone() {
    for rule in Rule::ALL {
        let waivers = waiving(&[rule]);
        for other in Rule::ALL {
            let related = other == rule || other.depends_on() == Some(rule);
            assert_eq!(waivers.active(other), !related, "{} waived, {} asked", rule.as_str(), other.as_str());
        }
    }
}

#[test]
fn rule_names_and_dependencies() {
    assert_eq!(Rule::SinglePrimaryExport.as_str(), "single_primary_export");
    assert_eq!(Rule::FilenameMatchesExport.as_str(), "filename_matches_export");
    assert_eq!(Rule::MaxFileLines.depends_on(), Some(Rule::SinglePrimaryExport));
    assert_eq!(Rule::FilenameMatchesExport.depends_on(), Some(Rule::SinglePrimaryExport));
    assert_eq!(Rule::NameCasing.depends_on(), None);
}
