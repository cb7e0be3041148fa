//! The name transform every shipping casing is built from.

use crate::text::{
    ascii_lower_char, char_is_lowercase, char_is_numeric, char_is_uppercase, char_lowercase,
    char_lowercase_mapping, char_numeric, char_to_lowercase, char_uppercase, chars_of, is_ascii,
    is_ascii_upper, string_of,
};
use vstd::prelude::*;

verus! {

/// Whether an underscore goes in front of the uppercase character at `i`:
/// after a lowercase letter or a digit (`userId`), or where an acronym gives
/// way to a word (`HTTPClient`), but never at the start or after `_`.
pub open spec fn word_boundary(chars: Seq<char>, i: int) -> bool {
    &&& i > 0
    &&& chars[i - 1] != '_'
    &&& {
        ||| char_lowercase(chars[i - 1])
        ||| char_numeric(chars[i - 1])
        ||| (i + 1 < chars.len() && char_lowercase(chars[i + 1]))
    }
}

/// What the character at `i` becomes.
pub open spec fn snake_piece(chars: Seq<char>, i: int) -> Seq<char> {
    if char_uppercase(chars[i]) {
        (if word_boundary(chars, i) { seq!['_'] } else { Seq::empty() })
            + char_lowercase_mapping(chars[i])
    } else {
        seq![chars[i]]
    }
}

/// The snake_case spelling of the first `n` characters.
pub open spec fn snake_prefix(chars: Seq<char>, n: nat) -> Seq<char>
    decreases n,
{
    if n == 0 {
        Seq::empty()
    } else {
        snake_prefix(chars, (n - 1) as nat) + snake_piece(chars, n - 1)
    }
}

/// The snake_case spelling of a name.
pub open spec fn snake_case(chars: Seq<char>) -> Seq<char> {
    snake_prefix(chars, chars.len())
}

/// The snake_case spelling of a name — `Credentials` becomes `credentials`,
/// `HTTPClient` becomes `http_client`.
pub fn to_snake_case(name: &str) -> (res: String)
    ensures
        res@ == snake_case(name@),
{
    let chars = chars_of(name);
    let mut out: Vec<char> = Vec::new();
    let mut index: usize = 0;
    while index < chars.len()
        invariant
            chars@ == name@,
            index <= chars.len(),
            out@ == snake_prefix(chars@, index as nat),
        decreases chars.len() - index,
    {
        let current = chars[index];
        if char_is_uppercase(current) {
            let boundary = if index == 0 {
                false
            } else {
                let previous = chars[index - 1];
                if previous == '_' {
                    false
                } else {
                    char_is_lowercase(previous) || char_is_numeric(previous) || (index + 1
                        < chars.len() && char_is_lowercase(chars[index + 1]))
                }
            };
            if boundary {
                out.push('_');
            }
            let lower = char_to_lowercase(current);
            let mut k: usize = 0;
            let ghost before = out@;
            while k < lower.len()
                invariant
                    k <= lower.len(),
                    out@ == before + lower@.take(k as int),
                decreases lower.len() - k,
            {
                out.push(lower[k]);
                k += 1;
                assert(lower@.take(k as int) == lower@.take(k - 1).push(lower@[k - 1]));
            }
            assert(lower@.take(lower.len() as int) == lower@);
            assert(boundary == word_boundary(chars@, index as int));
        } else {
            out.push(current);
        }
        index += 1;
    }
    string_of(out.as_slice())
}

/// A name with no uppercase character is already snake_case, and comes back
/// unchanged: `authenticate`, `already_snake`.
pub proof fn lemma_snake_case_keeps_names_without_uppercase(chars: Seq<char>)
    requires
        forall|i: int| 0 <= i < chars.len() ==> !char_uppercase(#[trigger] chars[i]),
    ensures
        snake_case(chars) == chars,
{
    lemma_snake_prefix_identity(chars, chars.len());
    assert(chars.take(chars.len() as int) == chars);
}

proof fn lemma_snake_prefix_identity(chars: Seq<char>, n: nat)
    requires
        n <= chars.len(),
        forall|i: int| 0 <= i < chars.len() ==> !char_uppercase(#[trigger] chars[i]),
    ensures
        snake_prefix(chars, n) == chars.take(n as int),
    decreases n,
{
    if n > 0 {
        lemma_snake_prefix_identity(chars, (n - 1) as nat);
        assert(chars.take(n as int) == chars.take(n - 1).push(chars[n - 1]));
    }
}

/// A text with every underscore removed.
pub open spec fn without_underscores(s: Seq<char>) -> Seq<char>
    decreases s.len(),
{
    if s.len() == 0 {
        Seq::empty()
    } else if s.last() == '_' {
        without_underscores(s.drop_last())
    } else {
        without_underscores(s.drop_last()).push(s.last())
    }
}

/// A text with its ASCII letters lowered.
pub open spec fn ascii_lowercased(s: Seq<char>) -> Seq<char> {
    s.map_values(|c: char| ascii_lower_char(c))
}

proof fn lemma_without_underscores_concat(a: Seq<char>, b: Seq<char>)
    ensures
        without_underscores(a + b) == without_underscores(a) + without_underscores(b),
    decreases b.len(),
{
    if b.len() == 0 {
        assert(a + b =~= a);
        assert(without_underscores(a) + without_underscores(b) =~= without_underscores(a));
    } else {
        lemma_without_underscores_concat(a, b.drop_last());
        assert((a + b).drop_last() =~= a + b.drop_last());
        assert((a + b).last() == b.last());
        if b.last() != '_' {
            assert(without_underscores(a) + without_underscores(b.drop_last()).push(b.last())
                =~= (without_underscores(a) + without_underscores(b.drop_last())).push(b.last()));
        }
    }
}

proof fn lemma_snake_prefix_of_ascii(chars: Seq<char>, n: nat)
    requires
        n <= chars.len(),
        forall|i: int| 0 <= i < chars.len() ==> is_ascii(#[trigger] chars[i]),
    ensures
        forall|i: int|
            0 <= i < snake_prefix(chars, n).len() ==> is_ascii(#[trigger] snake_prefix(chars, n)[i])
                && !is_ascii_upper(snake_prefix(chars, n)[i]),
        without_underscores(snake_prefix(chars, n)) == ascii_lowercased(
            without_underscores(chars.take(n as int)),
        ),
    decreases n,
{
    if n > 0 {
        let m = (n - 1) as nat;
        lemma_snake_prefix_of_ascii(chars, m);
        let before = snake_prefix(chars, m);
        let c = chars[m as int];
        let piece = snake_piece(chars, m as int);
        assert(is_ascii(c));
        lemma_without_underscores_concat(before, piece);
        assert(chars.take(n as int).drop_last() =~= chars.take(m as int));
        assert(chars.take(n as int).last() == c);
        let low = ascii_lower_char(c);
        assert(without_underscores(Seq::<char>::empty()) == Seq::<char>::empty());
        if is_ascii_upper(c) {
            assert(is_ascii(low) && !is_ascii_upper(low) && low != '_');
            assert(seq![low].drop_last() =~= Seq::<char>::empty());
            assert(without_underscores(seq![low]) =~= seq![low]);
            if word_boundary(chars, m as int) {
                assert(piece =~= seq!['_', low]);
                assert(seq!['_', low].drop_last() =~= seq!['_']);
                assert(seq!['_'].drop_last() =~= Seq::<char>::empty());
                assert(without_underscores(seq!['_']) =~= Seq::<char>::empty());
                assert(without_underscores(seq!['_', low]) =~= seq![low]);
            } else {
                assert(piece =~= seq![low]);
            }
            assert(without_underscores(piece) =~= seq![low]);
        } else {
            assert(piece =~= seq![c]);
            assert(seq![c].drop_last() =~= Seq::<char>::empty());
            assert(without_underscores(seq![c]) =~= if c == '_' {
                Seq::<char>::empty()
            } else {
                seq![c]
            });
            assert(low == c);
        }
        let w = without_underscores(chars.take(m as int));
        assert(ascii_lowercased(if c == '_' { w } else { w.push(c) }) =~= ascii_lowercased(w) + if c == '_' {
            Seq::<char>::empty()
        } else {
            seq![low]
        });
        assert forall|i: int|
            0 <= i < snake_prefix(chars, n).len() implies is_ascii(#[trigger] snake_prefix(chars, n)[i])
                && !is_ascii_upper(snake_prefix(chars, n)[i]) by {
            if i >= before.len() {
                assert(snake_prefix(chars, n)[i] == piece[i - before.len()]);
            } else {
                assert(snake_prefix(chars, n)[i] == before[i]);
            }
        }
    } else {
        assert(chars.take(0) =~= Seq::<char>::empty());
        assert(ascii_lowercased(Seq::<char>::empty()) =~= Seq::<char>::empty());
    }
}

/// For an ASCII name, the snake_case spelling holds no uppercase letter,
/// differs from the name only in case and underscores, and is its own
/// snake_case spelling.
pub proof fn lemma_snake_case_of_ascii(name: Seq<char>)
    requires
        forall|i: int| 0 <= i < name.len() ==> is_ascii(#[trigger] name[i]),
    ensures
        forall|i: int|
            0 <= i < snake_case(name).len() ==> !is_ascii_upper(#[trigger] snake_case(name)[i]),
        without_underscores(snake_case(name)) == ascii_lowercased(without_underscores(name)),
        snake_case(snake_case(name)) == snake_case(name),
{
    lemma_snake_prefix_of_ascii(name, name.len());
    assert(name.take(name.len() as int) =~= name);
    let s = snake_case(name);
    assert forall|i: int| 0 <= i < s.len() implies !char_uppercase(#[trigger] s[i]) by {
        assert(is_ascii(s[i]) && !is_ascii_upper(s[i]));
    }
    lemma_snake_case_keeps_names_without_uppercase(s);
}

} // verus!
