//! The one casing a language uses for every folder and file name it owns.
//!
//! One value per language, not a list and not a per-construct matrix. A list
//! lets `Button.tsx` and `button.tsx` coexist in one repo, which enforces
//! nothing; a matrix breaks on the first React component, which is a function
//! named in PascalCase.

use crate::rules::to_snake_case::{snake_case, to_snake_case};
use crate::text::{chars_of, is_ascii_digit, is_ascii_lower, is_ascii_upper, string_of};
use vstd::prelude::*;

verus! {

#[derive(Debug, Clone, Copy, PartialEq, Eq, Structural, PartialOrd, Ord, Hash)]
pub enum Casing {
    SnakeCase,
    PascalCase,
    CamelCase,
    KebabCase,
}

/// Whether `c` may appear in a name of the given casing.
pub open spec fn allowed_char(casing: Casing, c: char) -> bool {
    match casing {
        Casing::SnakeCase => is_ascii_lower(c) || is_ascii_digit(c) || c == '_',
        Casing::KebabCase => is_ascii_lower(c) || is_ascii_digit(c) || c == '-',
        Casing::PascalCase | Casing::CamelCase => is_ascii_lower(c) || is_ascii_upper(c)
            || is_ascii_digit(c),
    }
}

/// Whether a name is spelled in the given casing: non-empty, every
/// character allowed, and for the two capitalised casings the right case up
/// front.
pub open spec fn obeys_casing(casing: Casing, name: Seq<char>) -> bool {
    &&& name.len() > 0
    &&& forall|i: int| 0 <= i < name.len() ==> allowed_char(casing, #[trigger] name[i])
    &&& match casing {
        Casing::PascalCase => is_ascii_upper(name[0]),
        Casing::CamelCase => is_ascii_lower(name[0]),
        _ => true,
    }
}

/// Snake case with every underscore turned into a hyphen.
pub open spec fn kebab_case(name: Seq<char>) -> Seq<char> {
    snake_case(name).map_values(|c: char| if c == '_' { '-' } else { c })
}

/// The name a casing prescribes for a name, if it has a converter.
pub open spec fn suggested_name(casing: Casing, name: Seq<char>) -> Option<Seq<char>> {
    match casing {
        Casing::SnakeCase => Some(snake_case(name)),
        Casing::KebabCase => Some(kebab_case(name)),
        Casing::PascalCase | Casing::CamelCase => None,
    }
}

/// Which names each casing accepts, character by character: snake_case is
/// ASCII lowercase letters, digits and `_`; kebab-case the same with `-`
/// for `_`; PascalCase and camelCase ASCII letters and digits, opening with
/// an upper- or a lowercase letter. No casing accepts the empty name.
pub proof fn lemma_casing_alphabets(casing: Casing, name: Seq<char>)
    ensures
        casing == Casing::SnakeCase ==> (obeys_casing(casing, name) <==> name.len() > 0 && forall|i: int|
            0 <= i < name.len() ==> ('a' <= #[trigger] name[i] && name[i] <= 'z') || ('0' <= name[i]
                && name[i] <= '9') || name[i] == '_'),
        casing == Casing::KebabCase ==> (obeys_casing(casing, name) <==> name.len() > 0 && forall|i: int|
            0 <= i < name.len() ==> ('a' <= #[trigger] name[i] && name[i] <= 'z') || ('0' <= name[i]
                && name[i] <= '9') || name[i] == '-'),
        casing == Casing::PascalCase ==> (obeys_casing(casing, name) <==> name.len() > 0 && 'A' <= name[0]
            && name[0] <= 'Z' && forall|i: int|
            0 <= i < name.len() ==> ('a' <= #[trigger] name[i] && name[i] <= 'z') || ('A' <= name[i]
                && name[i] <= 'Z') || ('0' <= name[i] && name[i] <= '9')),
        casing == Casing::CamelCase ==> (obeys_casing(casing, name) <==> name.len() > 0 && 'a' <= name[0]
            && name[0] <= 'z' && forall|i: int|
            0 <= i < name.len() ==> ('a' <= #[trigger] name[i] && name[i] <= 'z') || ('A' <= name[i]
                && name[i] <= 'Z') || ('0' <= name[i] && name[i] <= '9')),
{
}

/// A name holding a `-` is never snake_case, one holding a `_` never
/// kebab-case, and one holding either never PascalCase or camelCase.
pub proof fn lemma_separators_pick_the_casing(casing: Casing, name: Seq<char>, i: int)
    requires
        0 <= i < name.len(),
        name[i] == '-' || name[i] == '_',
        obeys_casing(casing, name),
    ensures
        name[i] == '-' ==> casing == Casing::KebabCase,
        name[i] == '_' ==> casing == Casing::SnakeCase,
{
    assert(allowed_char(casing, name[i]));
}

impl Casing {
    pub open spec fn label(self) -> Seq<char> {
        match self {
            Casing::SnakeCase => "snake_case"@,
            Casing::PascalCase => "PascalCase"@,
            Casing::CamelCase => "camelCase"@,
            Casing::KebabCase => "kebab-case"@,
        }
    }

    pub fn as_str(self) -> (res: &'static str)
        ensures
            res@ == self.label(),
    {
        match self {
            Casing::SnakeCase => "snake_case",
            Casing::PascalCase => "PascalCase",
            Casing::CamelCase => "camelCase",
            Casing::KebabCase => "kebab-case",
        }
    }

    /// The name rewritten into this casing.
    ///
    /// This is how an export's name becomes a filename, so it is a transform:
    /// `pub struct HTTPClient` prescribes `http_client.rs` whatever the export
    /// was called. `None` for the two casings no shipping profile uses —
    /// better to check nothing than to prescribe a name from a converter
    /// nobody has exercised.
    pub fn suggest(self, name: &str) -> (res: Option<String>)
        ensures
            match res {
                Some(s) => suggested_name(self, name@) == Some(s@),
                None => suggested_name(self, name@) is None,
            },
    {
        match self {
            Casing::SnakeCase => Some(to_snake_case(name)),
            Casing::KebabCase => {
                let snake = chars_of(to_snake_case(name).as_str());
                let mut out: Vec<char> = Vec::new();
                let mut i: usize = 0;
                while i < snake.len()
                    invariant
                        snake@ == snake_case(name@),
                        i <= snake.len(),
                        out@ == snake@.take(i as int).map_values(
                            |c: char| if c == '_' { '-' } else { c },
                        ),
                    decreases snake.len() - i,
                {
                    let c = snake[i];
                    out.push(if c == '_' { '-' } else { c });
                    i += 1;
                    assert(snake@.take(i as int) == snake@.take(i - 1).push(c));
                    assert(out@ =~= snake@.take(i as int).map_values(
                        |c: char| if c == '_' { '-' } else { c },
                    ));
                }
                assert(snake@.take(snake.len() as int) == snake@);
                Some(string_of(out.as_slice()))
            },
            Casing::PascalCase | Casing::CamelCase => None,
        }
    }

    fn allows(self, c: char) -> (res: bool)
        ensures
            res == allowed_char(self, c),
    {
        let lower = 'a' <= c && c <= 'z';
        let upper = 'A' <= c && c <= 'Z';
        let digit = '0' <= c && c <= '9';
        match self {
            Casing::SnakeCase => lower || digit || c == '_',
            Casing::KebabCase => lower || digit || c == '-',
            Casing::PascalCase | Casing::CamelCase => lower || upper || digit,
        }
    }

    pub fn matches(self, name: &str) -> (res: bool)
        ensures
            res == obeys_casing(self, name@),
    {
        let chars = chars_of(name);
        if chars.len() == 0 {
            return false;
        }
        let mut i: usize = 0;
        while i < chars.len()
            invariant
                chars@ == name@,
                i <= chars.len(),
                forall|j: int| 0 <= j < i ==> allowed_char(self, #[trigger] chars@[j]),
            decreases chars.len() - i,
        {
            if !self.allows(chars[i]) {
                return false;
            }
            i += 1;
        }
        let first = chars[0];
        match self {
            Casing::PascalCase => 'A' <= first && first <= 'Z',
            Casing::CamelCase => 'a' <= first && first <= 'z',
            _ => true,
        }
    }
}

} // verus!
