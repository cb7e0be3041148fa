//! Every rule the tool can report, and every name an exception may waive.

use vstd::prelude::*;

verus! {

#[derive(Debug, Clone, Copy, PartialEq, Eq, Structural, PartialOrd, Ord, Hash)]
pub enum Rule {
    /// A tracked file's language matches the language its root is declared as.
    RootLanguageMatch,
    /// The tool could read and parse the file at all.
    FileIsReadable,
    /// Folders nest no deeper than the profile allows.
    FolderDepth,
    /// Folder and file names obey the language's one casing.
    NameCasing,
    /// The filename is the export's name, transformed into that casing.
    FilenameMatchesExport,
    /// At most one export built from a governed construct.
    SinglePrimaryExport,
    /// A file with a governed export stays inside the line budget.
    MaxFileLines,
}

impl Rule {
    /// Every variant, for tests and for documenting the vocabulary.
    pub const ALL: [Rule; 7] = [
        Rule::RootLanguageMatch,
        Rule::FileIsReadable,
        Rule::FolderDepth,
        Rule::NameCasing,
        Rule::FilenameMatchesExport,
        Rule::SinglePrimaryExport,
        Rule::MaxFileLines,
    ];

    /// The name a rule goes by in config files and in JSON output.
    pub open spec fn name(self) -> Seq<char> {
        match self {
            Rule::RootLanguageMatch => "root_language_match"@,
            Rule::FileIsReadable => "file_is_readable"@,
            Rule::FolderDepth => "folder_depth"@,
            Rule::NameCasing => "name_casing"@,
            Rule::FilenameMatchesExport => "filename_matches_export"@,
            Rule::SinglePrimaryExport => "single_primary_export"@,
            Rule::MaxFileLines => "max_file_lines"@,
        }
    }

    pub fn as_str(self) -> (res: &'static str)
        ensures
            res@ == self.name(),
    {
        match self {
            Rule::RootLanguageMatch => "root_language_match",
            Rule::FileIsReadable => "file_is_readable",
            Rule::FolderDepth => "folder_depth",
            Rule::NameCasing => "name_casing",
            Rule::FilenameMatchesExport => "filename_matches_export",
            Rule::SinglePrimaryExport => "single_primary_export",
            Rule::MaxFileLines => "max_file_lines",
        }
    }

    /// The rule this one has nothing left to check without.
    ///
    /// This is the whole deactivation cascade, expressed once as a property
    /// of the rule graph: a governed export is what activates the filename
    /// and line-budget standards, so waiving the export rule lifts both.
    pub open spec fn dependency(self) -> Option<Rule> {
        match self {
            Rule::FilenameMatchesExport => Some(Rule::SinglePrimaryExport),
            Rule::MaxFileLines => Some(Rule::SinglePrimaryExport),
            _ => None,
        }
    }

    pub fn depends_on(self) -> (res: Option<Rule>)
        ensures
            res == self.dependency(),
    {
        match self {
            Rule::FilenameMatchesExport => Some(Rule::SinglePrimaryExport),
            Rule::MaxFileLines => Some(Rule::SinglePrimaryExport),
            _ => None,
        }
    }
}

/// Dependencies are never chained: whatever a rule depends on depends on
/// nothing itself, so the cascade is one step deep.
pub proof fn lemma_dependency_is_a_leaf(rule: Rule)
    ensures
        rule.dependency() matches Some(dep) ==> dep.dependency() is None,
{
}

} // verus!
