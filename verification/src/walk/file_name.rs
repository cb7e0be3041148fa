//! The parts of a file's name: its stem and its extension.

use crate::text::{chars_of, string_of};
use vstd::prelude::*;

verus! {

/// The position of the last `.` among the first `n` characters.
pub open spec fn last_dot_before(name: Seq<char>, n: int) -> Option<int>
    decreases n,
{
    if n <= 0 {
        None
    } else if name[n - 1] == '.' {
        Some(n - 1)
    } else {
        last_dot_before(name, n - 1)
    }
}

/// Where a name splits into stem and extension, as `std::path` splits it:
/// at the last `.`, unless that is the first character or the name is `..`.
pub open spec fn split_dot(name: Seq<char>) -> Option<int> {
    match last_dot_before(name, name.len() as int) {
        Some(k) => if k > 0 && name != ".."@ {
            Some(k)
        } else {
            None
        },
        None => None,
    }
}

/// A file name without its extension.
pub open spec fn stem_of(name: Seq<char>) -> Seq<char> {
    match split_dot(name) {
        Some(k) => name.take(k),
        None => name,
    }
}

/// A file name's extension, without the dot.
pub open spec fn extension_of(name: Seq<char>) -> Option<Seq<char>> {
    match split_dot(name) {
        Some(k) => Some(name.skip(k + 1)),
        None => None,
    }
}

/// The extension with its dot, or nothing.
pub open spec fn dotted_extension(name: Seq<char>) -> Seq<char> {
    match extension_of(name) {
        Some(e) => seq!['.'] + e,
        None => Seq::empty(),
    }
}

fn split_point(name: &Vec<char>) -> (res: Option<usize>)
    ensures
        match res {
            Some(k) => split_dot(name@) == Some(k as int) && k < name.len(),
            None => split_dot(name@) is None,
        },
{
    let mut n: usize = name.len();
    while n > 0
        invariant
            n <= name.len(),
            last_dot_before(name@, name.len() as int) == last_dot_before(name@, n as int),
        decreases n,
    {
        if name[n - 1] == '.' {
            let k = n - 1;
            proof {
                reveal_strlit("..");
            }
            let is_dot_dot = name.len() == 2 && name[0] == '.' && name[1] == '.';
            assert(is_dot_dot == (name@ == ".."@)) by {
                if name@ == ".."@ {
                    assert(name@[0] == ".."@[0]);
                }
                if is_dot_dot {
                    assert(name@ =~= ".."@);
                }
            }
            if k > 0 && !is_dot_dot {
                return Some(k);
            }
            return None;
        }
        n -= 1;
    }
    None
}

/// A file name without its extension, as `Path::file_stem` gives it.
pub fn file_stem(name: &str) -> (res: String)
    ensures
        res@ == stem_of(name@),
{
    let chars = chars_of(name);
    match split_point(&chars) {
        Some(k) => {
            let mut out: Vec<char> = Vec::new();
            let mut i: usize = 0;
            while i < k
                invariant
                    k < chars.len(),
                    i <= k,
                    out@ == chars@.take(i as int),
                decreases k - i,
            {
                out.push(chars[i]);
                i += 1;
                assert(out@ =~= chars@.take(i as int));
            }
            string_of(out.as_slice())
        },
        None => string_of(chars.as_slice()),
    }
}

/// A file name's extension, as `Path::extension` gives it.
pub fn extension(name: &str) -> (res: Option<String>)
    ensures
        match res {
            Some(e) => extension_of(name@) == Some(e@),
            None => extension_of(name@) is None,
        },
{
    let chars = chars_of(name);
    match split_point(&chars) {
        Some(k) => {
            let mut out: Vec<char> = Vec::new();
            let mut i: usize = k + 1;
            while i < chars.len()
                invariant
                    k < chars.len(),
                    k + 1 <= i <= chars.len(),
                    out@ == chars@.subrange(k + 1, i as int),
                decreases chars.len() - i,
            {
                out.push(chars[i]);
                i += 1;
                assert(out@ =~= chars@.subrange(k + 1, i as int));
            }
            assert(chars@.subrange(k + 1, chars.len() as int) == chars@.skip(k + 1));
            Some(string_of(out.as_slice()))
        },
        None => None,
    }
}

/// The extension with its leading dot, or the empty string when there is none.
pub fn dotted(name: &str) -> (res: String)
    ensures
        res@ == dotted_extension(name@),
{
    match extension(name) {
        Some(e) => {
            let mut out = String::new();
            out.append(".");
            out.append(e.as_str());
            proof {
                reveal_strlit(".");
            }
            out
        },
        None => String::new(),
    }
}

} // verus!
