//! The compiled config, and the loop that runs it over a tree.

use super::report_order::{report_order, sort_diagnostics};
use super::{Compiled, Error, Report};
use crate::config::config::{
    deepest_owner, first_root_problem, in_key_order, root_depth, root_owns, roots_of,
};
use crate::config::language::claimed_by;
use crate::config::{Config, ExceptionView, Language, ProfileView};
use crate::diagnostics::diagnostic::diagnostic_views;
use crate::diagnostics::{Diagnostic, DiagnosticView};
use crate::lang::profile_for::reader_for;
use crate::lang::{profile_for, Python, Reader, Rust};
use crate::rules::check_content::{content_findings, opt_list};
use crate::rules::exceptions::{
    build_error, exception_globs, glob_patterns, glob_waivers, waived_for, ExceptionsView,
};
use crate::rules::filename_matches_export::last_name;
use crate::rules::folder_depth::{folder_depth, folder_depth_finding};
use crate::rules::name_casing::{name_casing, name_casing_finding};
use crate::rules::prescribes_a_filename::{names_the_file, prescribes_a_filename};
use crate::rules::root_language_match::{root_language_finding, root_language_match};
use crate::rules::unreadable::{unreadable, unreadable_finding};
use crate::rules::waivers::rule_active;
use crate::rules::{check_content, Exceptions, Rule};
use crate::text::{join, join_with, owned, views};
use crate::walk::display::displayed;
use crate::walk::file_name::{dotted, dotted_extension, extension, extension_of, file_stem, stem_of};
use crate::walk::{display, Tree};
use vstd::prelude::*;

verus! {

/// The language at a position of `Language::ALL`.
pub open spec fn language_at(k: int) -> Language {
    if k == 0 {
        Language::Python
    } else if k == 1 {
        Language::Typescript
    } else if k == 2 {
        Language::Rust
    } else {
        Language::Cpp
    }
}

/// The globs a language's exceptions compile to.
pub open spec fn language_globs(config: Config, language: Language) -> Seq<(Seq<char>, ExceptionView)> {
    exception_globs(
        config.profile_for(language)->0.exceptions,
        roots_of(config.entries(), language),
    )
}

/// A language's exceptions, compiled.
pub open spec fn compiled_exceptions(config: Config, language: Language) -> ExceptionsView {
    ExceptionsView {
        patterns: glob_patterns(language_globs(config, language)),
        waived: glob_waivers(language_globs(config, language)),
    }
}

/// What stops a language from being set up, if anything: roots declared
/// for it with no profile to hold them to, or exceptions that do not
/// compile — one glob, or the set of them as a whole. A language with no roots is not set up at all.
pub open spec fn language_problem(config: Config, language: Language) -> Option<Seq<char>> {
    let roots = roots_of(config.entries(), language);
    if roots.len() == 0 {
        None
    } else {
        match config.profile_for(language) {
            None => Some(
                "roots "@ + join_with(roots, ", "@) + " are declared "@ + language.label()
                    + ", but there is no ["@ + language.label() + "] profile"@,
            ),
            Some(profile) => build_error(exception_globs(profile.exceptions, roots)),
        }
    }
}

/// The problem of the first language, from position `k` of
/// `Language::ALL` on, that has one.
pub open spec fn problem_among(config: Config, k: int) -> Option<Seq<char>>
    decreases 4 - k,
{
    if k >= 4 {
        None
    } else {
        match language_problem(config, language_at(k)) {
            Some(message) => Some(message),
            None => problem_among(config, k + 1),
        }
    }
}

/// Why a config cannot be set up: a bad root first, then the languages in
/// `Language::ALL` order. None when it can.
pub open spec fn setup_problem(config: Config) -> Option<Seq<char>> {
    match first_root_problem(config.entries(), config.roots.len() as int) {
        Some(message) => Some(message),
        None => problem_among(config, 0),
    }
}

/// Whether a compiled language is what the config makes of it.
pub open spec fn fits(config: Config, compiled: Compiled) -> bool {
    &&& roots_of(config.entries(), compiled.language).len() > 0
    &&& config.profile_for(compiled.language) == Some(compiled.profile@)
    &&& views(compiled.roots@) == roots_of(config.entries(), compiled.language)
    &&& compiled.exceptions@ == compiled_exceptions(config, compiled.language)
    &&& compiled.content == reader_for(compiled.language)
}


/// The language a file name's extension is tracked by, if any.
pub open spec fn tracked_by(name: Seq<char>) -> Option<Language> {
    match extension_of(name) {
        None => None,
        Some(ext) => claimed_by(ext),
    }
}

/// What reading a file gave, as text: its contents, or why it could not
/// be read; nothing where it was not read.
pub open spec fn source_view(source: Option<Result<String, String>>) -> Option<Result<Seq<char>, Seq<char>>> {
    match source {
        Some(Ok(text)) => Some(Ok(text@)),
        Some(Err(reason)) => Some(Err(reason@)),
        None => None,
    }
}

/// What reading the `i`-th file gave; nothing past the end of the list.
pub open spec fn source_at(sources: Seq<Option<Result<String, String>>>, i: int) -> Option<
    Result<Seq<char>, Seq<char>>,
> {
    if 0 <= i < sources.len() {
        source_view(sources[i])
    } else {
        None
    }
}

/// What the content layer reports for a file of a language, given what
/// reading it gave. A language that cannot be parsed yet has no content
/// layer; a file that could not be read is reported as such unless that
/// rule is waived.
pub open spec fn content_outcome(
    language: Language,
    profile: ProfileView,
    file: Seq<Seq<char>>,
    source: Option<Result<Seq<char>, Seq<char>>>,
    waived: Set<Rule>,
) -> Seq<DiagnosticView> {
    match reader_for(language) {
        None => Seq::empty(),
        Some(reader) => match source {
            Some(Ok(text)) => content_findings(reader.reading(text), profile, file, waived),
            Some(Err(reason)) => if rule_active(waived, Rule::FileIsReadable) {
                seq![unreadable_finding(file, reason)]
            } else {
                Seq::empty()
            },
            None => Seq::empty(),
        },
    }
}

/// What one file contributes. Nothing at all — it is not even counted —
/// when no root owns it or no language tracks its extension. A file in a
/// root of another language is reported as that alone; otherwise its
/// name's casing (unless the content layer already prescribes a filename),
/// then its content findings.
pub open spec fn file_outcome(
    config: Config,
    file: Seq<Seq<char>>,
    source: Option<Result<Seq<char>, Seq<char>>>,
) -> Option<Seq<DiagnosticView>> {
    let entries = config.entries();
    match deepest_owner(entries, file, entries.len() as int) {
        None => None,
        Some(o) => match tracked_by(last_name(file)) {
            None => None,
            Some(actual) => {
                let root = entries[o].0;
                let language = entries[o].1;
                let profile = config.profile_for(language)->0;
                let waived = waived_for(compiled_exceptions(config, language), displayed(file));
                Some(
                    match root_language_finding(file, root, language, actual, waived) {
                        Some(d) => seq![d],
                        None => {
                            let content = content_outcome(language, profile, file, source, waived);
                            (if names_the_file(content) {
                                Seq::empty()
                            } else {
                                opt_list(
                                    name_casing_finding(
                                        profile,
                                        file,
                                        stem_of(last_name(file)),
                                        dotted_extension(last_name(file)),
                                        waived,
                                    ),
                                )
                            }) + content
                        },
                    },
                )
            },
        },
    }
}

/// Whether checking a file reads it: a root owns it, its extension is
/// tracked by that root's own language, and the language has a content
/// layer.
pub open spec fn reads_file(config: Config, file: Seq<Seq<char>>) -> bool {
    let entries = config.entries();
    match deepest_owner(entries, file, entries.len() as int) {
        None => false,
        Some(o) => tracked_by(last_name(file)) == Some(entries[o].1) && reader_for(entries[o].1) is Some,
    }
}

/// What one folder contributes: its depth below its root, then its name's
/// casing. A root's own folders, and folders outside every root, are not
/// the tool's business.
pub open spec fn dir_outcome(config: Config, dir: Seq<Seq<char>>) -> Seq<DiagnosticView> {
    let entries = config.entries();
    match deepest_owner(entries, dir, entries.len() as int) {
        None => Seq::empty(),
        Some(o) => {
            let language = entries[o].1;
            let depth = dir.len() - root_depth(entries[o].0);
            if depth <= 0 {
                Seq::empty()
            } else {
                let profile = config.profile_for(language)->0;
                let waived = waived_for(compiled_exceptions(config, language), displayed(dir));
                opt_list(folder_depth_finding(profile, dir, depth as nat, waived)) + opt_list(
                    name_casing_finding(profile, dir, last_name(dir), Seq::empty(), waived),
                )
            }
        },
    }
}

/// The findings of the first `n` files, in order.
pub open spec fn files_findings(
    config: Config,
    files: Seq<Seq<Seq<char>>>,
    sources: Seq<Option<Result<String, String>>>,
    n: int,
) -> Seq<DiagnosticView>
    decreases n,
{
    if n <= 0 {
        Seq::empty()
    } else {
        files_findings(config, files, sources, n - 1) + match file_outcome(
            config,
            files[n - 1],
            source_at(sources, n - 1),
        ) {
            Some(ds) => ds,
            None => Seq::empty(),
        }
    }
}

/// How many of the first `n` files are checked.
pub open spec fn files_counted(
    config: Config,
    files: Seq<Seq<Seq<char>>>,
    sources: Seq<Option<Result<String, String>>>,
    n: int,
) -> nat
    decreases n,
{
    if n <= 0 {
        0
    } else {
        files_counted(config, files, sources, n - 1) + if file_outcome(
            config,
            files[n - 1],
            source_at(sources, n - 1),
        ) is Some {
            1nat
        } else {
            0nat
        }
    }
}

/// The findings of the first `n` folders, in order.
pub open spec fn dirs_findings(config: Config, dirs: Seq<Seq<Seq<char>>>, n: int) -> Seq<DiagnosticView>
    decreases n,
{
    if n <= 0 {
        Seq::empty()
    } else {
        dirs_findings(config, dirs, n - 1) + dir_outcome(config, dirs[n - 1])
    }
}

/// Paths as their components' texts.
pub open spec fn path_views(paths: Seq<Vec<String>>) -> Seq<Seq<Seq<char>>> {
    paths.map_values(|p: Vec<String>| views(p@))
}

/// Everything a tree's files and folders are found to break, files first,
/// before ordering.
pub open spec fn tree_findings(
    config: Config,
    files: Seq<Seq<Seq<char>>>,
    sources: Seq<Option<Result<String, String>>>,
    dirs: Seq<Seq<Seq<char>>>,
) -> Seq<DiagnosticView> {
    files_findings(config, files, sources, files.len() as int) + dirs_findings(
        config,
        dirs,
        dirs.len() as int,
    )
}

/// The owner of a path is one of the roots, and owns it.
proof fn lemma_deepest_owner_owns(roots: Seq<(Seq<char>, Language)>, path: Seq<Seq<char>>, n: int)
    ensures
        deepest_owner(roots, path, n) matches Some(o) ==> 0 <= o < n && root_owns(roots[o].0, path),
    decreases n,
{
    if n > 0 {
        lemma_deepest_owner_owns(roots, path, n - 1);
    }
}

/// A language that some root is declared as has roots.
proof fn lemma_declared_language_has_roots(roots: Seq<(Seq<char>, Language)>, o: int)
    requires
        0 <= o < roots.len(),
    ensures
        roots_of(roots, roots[o].1).len() > 0,
    decreases roots.len(),
{
    if o < roots.len() - 1 {
        lemma_declared_language_has_roots(roots.drop_last(), o);
    }
}

/// The language a tracked extension belongs to.
fn tracked_language(name: &str) -> (res: Option<Language>)
    ensures
        res == tracked_by(name@),
{
    match extension(name) {
        None => None,
        Some(ext) => Language::for_extension(ext.as_str()),
    }
}

/// What reading the `i`-th file gave, if it was read.
fn source_of(sources: &Vec<Option<Result<String, String>>>, i: usize) -> (res: Option<&Result<String, String>>)
    ensures
        match res {
            Some(r) => source_at(sources@, i as int) == source_view(Some(*r)),
            None => source_at(sources@, i as int) is None,
        },
{
    if i < sources.len() {
        match &sources[i] {
            Some(r) => Some(r),
            None => None,
        }
    } else {
        None
    }
}

/// `more` appended to `out`.
fn append_all(out: &mut Vec<Diagnostic>, more: Vec<Diagnostic>)
    ensures
        diagnostic_views(final(out)@) == diagnostic_views(old(out)@) + diagnostic_views(more@),
{
    let mut more = more;
    let ghost added = more@;
    out.append(&mut more);
    assert(diagnostic_views(out@) =~= diagnostic_views(old(out)@) + diagnostic_views(added));
}

pub struct Engine {
    config: Config,
    languages: Vec<Compiled>,
}

impl Engine {
    /// The config this engine was set up from.
    pub closed spec fn settings(self) -> Config {
        self.config
    }

    #[verifier::type_invariant]
    spec fn set_up(self) -> bool {
        &&& setup_problem(self.config) is None
        &&& forall|k: int|
            0 <= k < self.languages.len() ==> fits(self.config, #[trigger] self.languages[k])
        &&& forall|language: Language|
            #![trigger roots_of(self.config.entries(), language)]
            roots_of(self.config.entries(), language).len() > 0 ==> exists|k: int|
                0 <= k < self.languages.len() && #[trigger] self.languages[k].language == language
    }

    /// Compile a config: check its roots, then give every language with
    /// roots its profile, roots and exceptions. The roots must be held as a
    /// map holds them: in ascending key order, no key twice.
    pub fn new(config: Config) -> (res: Result<Engine, Error>)
        requires
            in_key_order(config.entries()),
        ensures
            match res {
                Ok(engine) => engine.settings() == config && setup_problem(config) is None,
                Err(Error::Invalid(message)) => setup_problem(config) == Some(message@),
                Err(Error::Config(_)) => false,
            },
    {
        match config.check_roots() {
            Err(message) => return Err(Error::Invalid(message)),
            Ok(()) => {},
        }
        let mut languages: Vec<Compiled> = Vec::new();
        let mut i: usize = 0;
        while i < 4
            invariant
                i <= 4,
                first_root_problem(config.entries(), config.roots.len() as int) is None,
                problem_among(config, 0) == problem_among(config, i as int),
                forall|k: int| 0 <= k < languages.len() ==> fits(config, #[trigger] languages[k]),
                forall|language: Language|
                    #![trigger roots_of(config.entries(), language)]
                    language.rank() < i && roots_of(config.entries(), language).len() > 0 ==> exists|k: int|
                        0 <= k < languages.len() && #[trigger] languages[k].language == language,
            decreases 4 - i,
        {
            let language = Language::ALL[i];
            assert(language.rank() == i);
            assert(language_at(i as int) == language);
            let ghost old_languages = languages@;
            let roots = config.roots_for(language);
            if roots.len() > 0 {
                match config.profile(language) {
                    None => {
                        let mut message = owned("roots ");
                        message.append(join(roots.as_slice(), ", ").as_str());
                        message.append(" are declared ");
                        message.append(language.as_str());
                        message.append(", but there is no [");
                        message.append(language.as_str());
                        message.append("] profile");
                        return Err(Error::Invalid(message));
                    },
                    Some(profile) => {
                        match Exceptions::build(profile, roots.as_slice()) {
                            Err(message) => return Err(Error::Invalid(message)),
                            Ok(exceptions) => {
                                let compiled = Compiled {
                                    language,
                                    profile: profile.duplicate(),
                                    roots,
                                    exceptions,
                                    content: profile_for(language),
                                };
                                assert(compiled.exceptions@ == compiled_exceptions(config, language));
                                languages.push(compiled);
                                assert(languages[languages.len() - 1].language == language);
                            },
                        }
                    },
                }
            }
            proof {
                assert forall|l: Language|
                    l.rank() < i + 1 && roots_of(config.entries(), l).len() > 0 implies exists|k: int|
                        0 <= k < languages.len() && #[trigger] languages[k].language == l by {
                    if l.rank() < i {
                        let k = choose|k: int| 0 <= k < old_languages.len() && #[trigger] old_languages[k].language == l;
                        assert(languages[k] == old_languages[k]);
                    } else {
                        assert(l == language_at(l.rank()));
                        assert(languages[languages.len() - 1].language == l);
                    }
                }
            }
            i += 1;
        }
        assert forall|l: Language|
            roots_of(config.entries(), l).len() > 0 implies exists|k: int|
                0 <= k < languages.len() && #[trigger] languages[k].language == l by {
            assert(l.rank() < 4);
        }
        assert(problem_among(config, 4) is None);
        proof {
            let ghost engine = Engine { config, languages };
            assert(engine.languages@ == languages@);
            assert(engine.set_up());
        }
        Ok(Engine { config, languages })
    }

    pub fn config(&self) -> (res: &Config)
        ensures
            *res == self.settings(),
    {
        &self.config
    }

    /// Whether checking a file reads it, so that the caller knows which
    /// files to read.
    pub fn wants_source(&self, file: &[String]) -> (res: bool)
        ensures
            res == reads_file(self.settings(), views(file@)),
    {
        match self.config.root_for(file) {
            None => false,
            Some((_, language, _)) => {
                let name = if file.len() == 0 {
                    ""
                } else {
                    file[file.len() - 1].as_str()
                };
                proof {
                    reveal_strlit("");
                }
                match tracked_language(name) {
                    Some(actual) => actual == language && profile_for(language).is_some(),
                    None => false,
                }
            },
        }
    }

    /// What one file contributes, given what reading it gave.
    fn file_report(&self, file: &[String], source: Option<&Result<String, String>>) -> (res: Option<
        Vec<Diagnostic>,
    >)
        ensures
            match res {
                Some(ds) => file_outcome(
                    self.settings(),
                    views(file@),
                    match source {
                        Some(r) => source_view(Some(*r)),
                        None => None,
                    },
                ) == Some(diagnostic_views(ds@)),
                None => file_outcome(
                    self.settings(),
                    views(file@),
                    match source {
                        Some(r) => source_view(Some(*r)),
                        None => None,
                    },
                ) is None,
            },
    {
        let ghost entries = self.config.entries();
        let ghost path = views(file@);
        let ghost read = match source {
            Some(r) => source_view(Some(*r)),
            None => None,
        };
        let (root, language) = match self.config.root_for(file) {
            None => return None,
            Some((root, language, _)) => (root, language),
        };
        let ghost o = deepest_owner(entries, path, entries.len() as int)->0;
        proof {
            lemma_deepest_owner_owns(entries, path, entries.len() as int);
            lemma_declared_language_has_roots(entries, o);
            reveal_strlit("");
        }
        let name = if file.len() == 0 {
            ""
        } else {
            file[file.len() - 1].as_str()
        };
        assert(name@ == last_name(path));
        let actual = match tracked_language(name) {
            None => return None,
            Some(actual) => actual,
        };
        let compiled = match self.compiled(language) {
            Some(c) => c,
            None => {
                assert(false);
                return None;
            },
        };
        let text = display(file);
        let waivers = compiled.exceptions.waivers_for(text.as_str());
        match root_language_match(file, root, compiled.language, actual, &waivers) {
            Some(d) => {
                let mut out: Vec<Diagnostic> = Vec::new();
                out.push(d);
                assert(diagnostic_views(out@) =~= seq![d@]);
                return Some(out);
            },
            None => {},
        }
        let mut content: Vec<Diagnostic> = Vec::new();
        assert(diagnostic_views(content@) =~= Seq::<DiagnosticView>::empty());
        match compiled.content {
            Some(reader) => match source {
                Some(Ok(source_text)) => {
                    content = match reader {
                        Reader::Python => check_content(&Python, &compiled.profile, source_text.as_str(), file, &waivers),
                        Reader::Rust => check_content(&Rust, &compiled.profile, source_text.as_str(), file, &waivers),
                    };
                },
                Some(Err(reason)) => {
                    if waivers.active(Rule::FileIsReadable) {
                        content.push(unreadable(file, reason.as_str()));
                        assert(diagnostic_views(content@) =~= seq![unreadable_finding(path, reason@)]);
                    }
                },
                None => {},
            },
            None => {},
        }
        assert(diagnostic_views(content@) == content_outcome(
            language,
            self.config.profile_for(language)->0,
            path,
            read,
            waivers@,
        ));
        let mut out: Vec<Diagnostic> = Vec::new();
        if !prescribes_a_filename(content.as_slice()) {
            let stem = file_stem(name);
            let suffix = dotted(name);
            match name_casing(&compiled.profile, file, stem.as_str(), suffix.as_str(), &waivers) {
                Some(d) => {
                    out.push(d);
                },
                None => {},
            }
        }
        let ghost head = diagnostic_views(out@);
        assert(head =~= if names_the_file(diagnostic_views(content@)) {
            Seq::<DiagnosticView>::empty()
        } else {
            opt_list(
                name_casing_finding(
                    compiled.profile@,
                    path,
                    stem_of(name@),
                    dotted_extension(name@),
                    waivers@,
                ),
            )
        });
        append_all(&mut out, content);
        Some(out)
    }

    /// What one folder contributes.
    fn dir_report(&self, dir: &[String]) -> (res: Vec<Diagnostic>)
        ensures
            diagnostic_views(res@) == dir_outcome(self.settings(), views(dir@)),
    {
        let ghost entries = self.config.entries();
        let ghost path = views(dir@);
        let mut out: Vec<Diagnostic> = Vec::new();
        assert(diagnostic_views(out@) =~= Seq::<DiagnosticView>::empty());
        let (language, root_depth) = match self.config.root_for(dir) {
            None => return out,
            Some((_, language, root_depth)) => (language, root_depth),
        };
        let ghost o = deepest_owner(entries, path, entries.len() as int)->0;
        proof {
            lemma_deepest_owner_owns(entries, path, entries.len() as int);
            lemma_declared_language_has_roots(entries, o);
        }
        let depth = dir.len() - root_depth;
        if depth == 0 {
            return out;
        }
        let compiled = match self.compiled(language) {
            Some(c) => c,
            None => {
                assert(false);
                return out;
            },
        };
        let text = display(dir);
        let waivers = compiled.exceptions.waivers_for(text.as_str());
        match folder_depth(&compiled.profile, dir, depth, &waivers) {
            Some(d) => out.push(d),
            None => {},
        }
        let ghost first = diagnostic_views(out@);
        assert(first =~= opt_list(folder_depth_finding(compiled.profile@, path, depth as nat, waivers@)));
        proof {
            reveal_strlit("");
        }
        match name_casing(&compiled.profile, dir, dir[dir.len() - 1].as_str(), "", &waivers) {
            Some(d) => out.push(d),
            None => {},
        }
        assert(diagnostic_views(out@) =~= first + opt_list(
            name_casing_finding(compiled.profile@, path, last_name(path), Seq::empty(), waivers@),
        ));
        out
    }

    /// Check a walked tree, given what reading each of its files gave (the
    /// `i`-th entry for the `i`-th file; a missing entry means the file was
    /// not read). Paths are reported relative to the project root.
    pub fn check(&self, tree: &Tree, sources: &Vec<Option<Result<String, String>>>) -> (res: Report)
        ensures
            diagnostic_views(res.diagnostics@) == report_order(
                tree_findings(
                    self.settings(),
                    path_views(tree.files@),
                    sources@,
                    path_views(tree.dirs@),
                ),
            ),
            res.files_checked == files_counted(
                self.settings(),
                path_views(tree.files@),
                sources@,
                tree.files.len() as int,
            ),
            views(res.declared_roots@) == self.settings().entries().map_values(
                |e: (Seq<char>, Language)| e.0,
            ),
    {
        let ghost config = self.config;
        let ghost files = path_views(tree.files@);
        let ghost dirs = path_views(tree.dirs@);
        let mut found: Vec<Diagnostic> = Vec::new();
        let mut checked: usize = 0;
        let mut i: usize = 0;
        assert(diagnostic_views(found@) =~= Seq::<DiagnosticView>::empty());
        while i < tree.files.len()
            invariant
                config == self.settings(),
                files == path_views(tree.files@),
                i <= tree.files.len(),
                checked <= i,
                checked == files_counted(config, files, sources@, i as int),
                diagnostic_views(found@) == files_findings(config, files, sources@, i as int),
            decreases tree.files.len() - i,
        {
            let source = source_of(sources, i);
            match self.file_report(tree.files[i].as_slice(), source) {
                Some(ds) => {
                    append_all(&mut found, ds);
                    checked += 1;
                },
                None => {},
            }
            i += 1;
        }
        let ghost after_files = diagnostic_views(found@);
        let mut j: usize = 0;
        while j < tree.dirs.len()
            invariant
                config == self.settings(),
                dirs == path_views(tree.dirs@),
                j <= tree.dirs.len(),
                diagnostic_views(found@) == after_files + dirs_findings(config, dirs, j as int),
            decreases tree.dirs.len() - j,
        {
            let ds = self.dir_report(tree.dirs[j].as_slice());
            append_all(&mut found, ds);
            j += 1;
        }
        let diagnostics = sort_diagnostics(found);
        let mut declared_roots: Vec<String> = Vec::new();
        let mut k: usize = 0;
        while k < self.config.roots.len()
            invariant
                k <= self.config.roots.len(),
                views(declared_roots@) == self.config.entries().take(k as int).map_values(
                    |e: (Seq<char>, Language)| e.0,
                ),
            decreases self.config.roots.len() - k,
        {
            let ghost prev = declared_roots@;
            let root = owned(self.config.roots[k].0.as_str());
            declared_roots.push(root);
            assert(views(declared_roots@) =~= views(prev).push(root@));
            assert(self.config.entries().take(k + 1) =~= self.config.entries().take(k as int).push(
                self.config.entries()[k as int],
            ));
            k += 1;
            assert(views(declared_roots@) =~= self.config.entries().take(k as int).map_values(
                |e: (Seq<char>, Language)| e.0,
            ));
        }
        assert(self.config.entries().take(k as int) =~= self.config.entries());
        Report { diagnostics, files_checked: checked, declared_roots }
    }

    /// The compiled form of a language, where it has roots.
    fn compiled(&self, language: Language) -> (res: Option<&Compiled>)
        ensures
            match res {
                Some(c) => c.language == language && fits(self.settings(), *c),
                None => roots_of(self.settings().entries(), language).len() == 0,
            },
    {
        proof {
            use_type_invariant(self);
        }
        let mut k: usize = 0;
        while k < self.languages.len()
            invariant
                k <= self.languages.len(),
                forall|m: int| 0 <= m < k ==> (#[trigger] self.languages[m]).language != language,
                forall|m: int|
                    0 <= m < self.languages.len() ==> fits(self.config, #[trigger] self.languages[m]),
                roots_of(self.config.entries(), language).len() > 0 ==> exists|m: int|
                    0 <= m < self.languages.len() && #[trigger] self.languages[m].language == language,
            decreases self.languages.len() - k,
        {
            if self.languages[k].language == language {
                assert(fits(self.config, self.languages[k as int]));
                return Some(&self.languages[k]);
            }
            k += 1;
        }
        None
    }
}

} // verus!
