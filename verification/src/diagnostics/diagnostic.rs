//! One thing that is wrong, and what to do about it.

use super::Tag;
use crate::rules::Rule;
use crate::text::views;
use vstd::prelude::*;

verus! {

#[derive(Debug, Clone)]
pub struct Diagnostic {
    pub tag: Tag,
    pub rule: Rule,
    /// The headline, printed after `error[tag]: `.
    pub message: String,
    /// Project-root-relative, always with forward slashes.
    pub path: String,
    pub line: Option<usize>,
    /// Explanation lines, rendered in the `|` gutter.
    pub notes: Vec<String>,
    /// Fix lines, rendered after `=`. May contain newlines for aligned lists.
    pub help: Vec<String>,
}

pub struct DiagnosticView {
    pub tag: Tag,
    pub rule: Rule,
    pub message: Seq<char>,
    pub path: Seq<char>,
    pub line: Option<usize>,
    pub notes: Seq<Seq<char>>,
    pub help: Seq<Seq<char>>,
}

impl View for Diagnostic {
    type V = DiagnosticView;

    open spec fn view(&self) -> DiagnosticView {
        DiagnosticView {
            tag: self.tag,
            rule: self.rule,
            message: self.message@,
            path: self.path@,
            line: self.line,
            notes: views(self.notes@),
            help: views(self.help@),
        }
    }
}

/// A diagnostic with a headline and nothing else yet.
pub open spec fn plain_diagnostic(tag: Tag, rule: Rule, path: Seq<char>, message: Seq<char>) -> DiagnosticView {
    DiagnosticView { tag, rule, message, path, line: None, notes: Seq::empty(), help: Seq::empty() }
}

/// The views of a list of diagnostics.
pub open spec fn diagnostic_views(ds: Seq<Diagnostic>) -> Seq<DiagnosticView> {
    ds.map_values(|d: Diagnostic| d@)
}

impl Diagnostic {
    pub fn new(tag: Tag, rule: Rule, path: String, message: String) -> (res: Self)
        ensures
            res@ == plain_diagnostic(tag, rule, path@, message@),
    {
        let res = Diagnostic {
            tag,
            rule,
            message,
            path,
            line: None,
            notes: Vec::new(),
            help: Vec::new(),
        };
        assert(res@.notes =~= Seq::<Seq<char>>::empty());
        assert(res@.help =~= Seq::<Seq<char>>::empty());
        res
    }

    pub fn at_line(self, line: usize) -> (res: Self)
        ensures
            res@ == (DiagnosticView { line: Some(line), ..self@ }),
    {
        let mut res = self;
        res.line = Some(line);
        res
    }

    pub fn note(self, note: String) -> (res: Self)
        ensures
            res@ == (DiagnosticView { notes: self@.notes.push(note@), ..self@ }),
    {
        let mut res = self;
        res.notes.push(note);
        assert(res@.notes =~= self@.notes.push(note@));
        res
    }

    pub fn help(self, help: String) -> (res: Self)
        ensures
            res@ == (DiagnosticView { help: self@.help.push(help@), ..self@ }),
    {
        let mut res = self;
        res.help.push(help);
        assert(res@.help =~= self@.help.push(help@));
        res
    }

    /// The key diagnostics are sorted by, so output order never depends on
    /// filesystem order.
    pub fn sort_key(&self) -> (res: (&str, usize, Tag))
        ensures
            res.0@ == self.path@,
            res.1 == match self.line {
                Some(l) => l,
                None => 0,
            },
            res.2 == self.tag,
    {
        let line = match self.line {
            Some(l) => l,
            None => 0,
        };
        (self.path.as_str(), line, self.tag)
    }
}

} // verus!
