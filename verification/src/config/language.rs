//! The languages the tool knows how to recognise by extension.

use crate::text::same_text;
use vstd::prelude::*;

verus! {

/// Recognising a language is separate from having a profile for it: a `.rs`
/// file under a root declared python must be an `error[root]`, which
/// requires knowing that `.rs` is tracked by something.
#[derive(Debug, Clone, Copy, PartialEq, Eq, Structural, PartialOrd, Ord, Hash)]
pub enum Language {
    Python,
    Typescript,
    Rust,
    Cpp,
}

impl Language {
    pub const ALL: [Language; 4] = [
        Language::Python,
        Language::Typescript,
        Language::Rust,
        Language::Cpp,
    ];

    /// The position of a language in `ALL`.
    pub open spec fn rank(self) -> int {
        match self {
            Language::Python => 0,
            Language::Typescript => 1,
            Language::Rust => 2,
            Language::Cpp => 3,
        }
    }

    pub open spec fn label(self) -> Seq<char> {
        match self {
            Language::Python => "python"@,
            Language::Typescript => "typescript"@,
            Language::Rust => "rust"@,
            Language::Cpp => "cpp"@,
        }
    }

    pub open spec fn extension_list(self) -> Seq<Seq<char>> {
        match self {
            Language::Python => seq!["py"@, "pyi"@],
            Language::Typescript => seq!["ts"@, "tsx"@],
            Language::Rust => seq!["rs"@],
            Language::Cpp => seq!["cpp"@, "cc"@, "hpp"@, "h"@],
        }
    }

    pub fn as_str(self) -> (res: &'static str)
        ensures
            res@ == self.label(),
    {
        match self {
            Language::Python => "python",
            Language::Typescript => "typescript",
            Language::Rust => "rust",
            Language::Cpp => "cpp",
        }
    }

    pub fn extensions(self) -> (res: Vec<&'static str>)
        ensures
            res@.map_values(|e: &'static str| e@) == self.extension_list(),
    {
        let res = match self {
            Language::Python => vec!["py", "pyi"],
            Language::Typescript => vec!["ts", "tsx"],
            Language::Rust => vec!["rs"],
            Language::Cpp => vec!["cpp", "cc", "hpp", "h"],
        };
        assert(res@.map_values(|e: &'static str| e@) =~= self.extension_list());
        res
    }

    /// Whether this language claims the extension.
    pub fn claims(self, ext: &str) -> (res: bool)
        ensures
            res == self.extension_list().contains(ext@),
    {
        let list = self.extensions();
        let ghost views = list@.map_values(|e: &'static str| e@);
        let mut i: usize = 0;
        while i < list.len()
            invariant
                views == list@.map_values(|e: &'static str| e@),
                views == self.extension_list(),
                i <= list.len(),
                forall|j: int| 0 <= j < i ==> views[j] != ext@,
            decreases list.len() - i,
        {
            if same_text(list[i], ext) {
                assert(views[i as int] == ext@);
                return true;
            }
            i += 1;
        }
        false
    }

    /// The language that claims this extension, if any. Extensions outside
    /// every list are untracked — invisible to the tool.
    pub fn for_extension(ext: &str) -> (res: Option<Language>)
        ensures
            res == claimed_by(ext@),
            match res {
                Some(lang) => lang.extension_list().contains(ext@),
                None => forall|lang: Language| !#[trigger] lang.extension_list().contains(ext@),
            },
    {
        let mut i: usize = 0;
        while i < 4
            invariant
                i <= 4,
                forall|lang: Language| lang.rank() < i ==> !#[trigger] lang.extension_list().contains(ext@),
            decreases 4 - i,
        {
            let lang = Language::ALL[i];
            assert(lang.rank() == i);
            if lang.claims(ext) {
                assert(Language::Python.rank() == 0 && Language::Typescript.rank() == 1
                    && Language::Rust.rank() == 2);
                return Some(lang);
            }
            i += 1;
        }
        None
    }
}

/// The language that claims an extension, trying them in `ALL` order.
pub open spec fn claimed_by(ext: Seq<char>) -> Option<Language> {
    if Language::Python.extension_list().contains(ext) {
        Some(Language::Python)
    } else if Language::Typescript.extension_list().contains(ext) {
        Some(Language::Typescript)
    } else if Language::Rust.extension_list().contains(ext) {
        Some(Language::Rust)
    } else if Language::Cpp.extension_list().contains(ext) {
        Some(Language::Cpp)
    } else {
        None
    }
}

/// No extension is claimed by two languages, so the language a file is
/// recognised as does not depend on the order languages are tried in.
pub proof fn lemma_extensions_are_disjoint(a: Language, b: Language, ext: Seq<char>)
    requires
        a.extension_list().contains(ext),
        b.extension_list().contains(ext),
    ensures
        a == b,
{
    reveal_strlit("py");
    reveal_strlit("pyi");
    reveal_strlit("ts");
    reveal_strlit("tsx");
    reveal_strlit("rs");
    reveal_strlit("cpp");
    reveal_strlit("cc");
    reveal_strlit("hpp");
    reveal_strlit("h");
    let i = choose|i: int| 0 <= i < a.extension_list().len() && a.extension_list()[i] == ext;
    let j = choose|j: int| 0 <= j < b.extension_list().len() && b.extension_list()[j] == ext;
    assert(ext.len() > 0 && first_letter_names(ext[0]) == Some(a)) by {
        assert(a.extension_list()[i] == ext);
    }
    assert(first_letter_names(ext[0]) == Some(b)) by {
        assert(b.extension_list()[j] == ext);
    }
}

/// Every extension of a language starts with a letter no other language's
/// extensions start with.
spec fn first_letter_names(c: char) -> Option<Language> {
    if c == 'p' {
        Some(Language::Python)
    } else if c == 't' {
        Some(Language::Typescript)
    } else if c == 'r' {
        Some(Language::Rust)
    } else if c == 'c' || c == 'h' {
        Some(Language::Cpp)
    } else {
        None
    }
}

} // verus!
