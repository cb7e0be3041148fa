//! Parsing a pattern string into positional segments.
//!
//! Depth is data: nothing here knows that three folder levels are the default.
//! A project that wants a fourth adds a variant and a segment definition.

use super::{FILES, ROOT};
use crate::lang::syntax::{first_where, lemma_first_where_found, lemma_first_where_none};
use crate::text::{chars_of, concat, owned, same_text, string_of, views};
use vstd::prelude::*;

verus! {

#[derive(Debug, Clone)]
pub struct Pattern {
    /// The pattern exactly as written, for printing back in diagnostics.
    pub raw: String,
    /// Segment names in order, e.g. `["root", "folder1", "kind", "files"]`.
    pub segments: Vec<String>,
}

impl Pattern {
    /// The segments that describe directories — everything but the terminator.
    pub fn dir_segments(&self) -> (res: &[String])
        requires
            self.segments.len() > 0,
        ensures
            res@ == self.segments@.subrange(0, self.segments.len() - 1),
    {
        self.segments.as_slice().split_at(self.segments.len() - 1).0
    }
}

#[derive(Debug)]
pub struct ParseError {
    pub pattern: String,
    pub message: String,
}

impl ParseError {
    /// How the error reads: ``invalid pattern `raw`: message``.
    pub fn describe(&self) -> (res: String)
        ensures
            res@ == "invalid pattern `"@ + self.pattern@ + "`: "@ + self.message@,
    {
        let head = concat("invalid pattern `", self.pattern.as_str());
        let middle = concat(head.as_str(), "`: ");
        concat(middle.as_str(), self.message.as_str())
    }
}

/// A text's pieces between `/`s, as `str::split('/')` gives them: one more
/// piece than there are slashes, empty pieces included.
pub open spec fn split_slash(s: Seq<char>) -> Seq<Seq<char>>
    decreases s.len(),
{
    if s.len() == 0 {
        seq![Seq::empty()]
    } else {
        let before = split_slash(s.drop_last());
        if s.last() == '/' {
            before.push(Seq::empty())
        } else {
            before.update(before.len() - 1, before.last().push(s.last()))
        }
    }
}

/// The name a `{name}` piece binds; nothing for a piece of another form.
pub open spec fn segment_name(part: Seq<char>) -> Option<Seq<char>> {
    if part.len() >= 2 && part[0] == '{' && part.last() == '}' {
        Some(part.subrange(1, part.len() - 1))
    } else {
        None
    }
}

/// What is wrong with one piece of a pattern, if anything.
pub open spec fn part_problem(part: Seq<char>) -> Option<Seq<char>> {
    match segment_name(part) {
        None => Some("segment `"@ + part + "` is not of the form {name}"@),
        Some(name) => if name.len() == 0 {
            Some("empty segment name"@)
        } else {
            None
        },
    }
}

/// Whether piece `k` has a problem.
pub open spec fn bad_part(parts: Seq<Seq<char>>) -> spec_fn(int) -> bool {
    |k: int| part_problem(parts[k]) is Some
}

/// What is wrong with a list of segment names as a whole, if anything: a
/// pattern runs from `{root}` to `{files}`, which appear nowhere else.
pub open spec fn shape_problem(segments: Seq<Seq<char>>) -> Option<Seq<char>> {
    if segments.len() < 2 {
        Some("a pattern needs at least a root and a terminator"@)
    } else if segments[0] != "root"@ {
        Some("the first segment must be {root}"@)
    } else if segments.last() != "files"@ {
        Some("the last segment must be {files}"@)
    } else if exists|k: int|
        1 <= k < segments.len() - 1 && (#[trigger] segments[k] == "root"@ || segments[k] == "files"@) {
        Some("{root} and {files} may only appear at the ends"@)
    } else {
        None
    }
}

/// What parsing a pattern comes to: its segment names, or the first
/// problem found — a malformed piece first, then the shape.
pub open spec fn parse_outcome(raw: Seq<char>) -> Result<Seq<Seq<char>>, Seq<char>> {
    let parts = split_slash(raw);
    match first_where(0, parts.len() as int, bad_part(parts)) {
        Some(k) => Err(part_problem(parts[k])->0),
        None => {
            let segments = parts.map_values(|p: Seq<char>| segment_name(p)->0);
            match shape_problem(segments) {
                Some(message) => Err(message),
                None => Ok(segments),
            }
        },
    }
}

/// The pieces of a text between `/`s.
fn split_on_slash(s: &Vec<char>) -> (res: Vec<Vec<char>>)
    ensures
        res@.map_values(|p: Vec<char>| p@) == split_slash(s@),
{
    let mut res: Vec<Vec<char>> = Vec::new();
    let mut current: Vec<char> = Vec::new();
    let mut i: usize = 0;
    assert(s@.take(0) =~= Seq::<char>::empty());
    while i < s.len()
        invariant
            i <= s.len(),
            res@.map_values(|p: Vec<char>| p@).push(current@) == split_slash(s@.take(i as int)),
        decreases s.len() - i,
    {
        let ghost before = split_slash(s@.take(i as int));
        assert(s@.take(i + 1).drop_last() =~= s@.take(i as int));
        assert(s@.take(i + 1).last() == s@[i as int]);
        if s[i] == '/' {
            let ghost done = res@.map_values(|p: Vec<char>| p@);
            let piece = current;
            res.push(piece);
            current = Vec::new();
            assert(res@.map_values(|p: Vec<char>| p@) =~= done.push(piece@));
            assert(res@.map_values(|p: Vec<char>| p@).push(current@) =~= before.push(Seq::empty()));
        } else {
            current.push(s[i]);
            assert(res@.map_values(|p: Vec<char>| p@).push(current@) =~= before.update(
                before.len() - 1,
                before.last().push(s@[i as int]),
            ));
        }
        i += 1;
    }
    assert(s@.take(s.len() as int) =~= s@);
    res.push(current);
    res
}

/// Parse a pattern string into its segment names.
pub fn parse(raw: &str) -> (res: Result<Pattern, ParseError>)
    ensures
        match res {
            Ok(p) => p.raw@ == raw@ && parse_outcome(raw@) == Ok::<Seq<Seq<char>>, Seq<char>>(
                views(p.segments@),
            ),
            Err(e) => e.pattern@ == raw@ && parse_outcome(raw@) == Err::<Seq<Seq<char>>, Seq<char>>(
                e.message@,
            ),
        },
{
    let parts = split_on_slash(&chars_of(raw));
    let ghost pv = parts@.map_values(|p: Vec<char>| p@);
    let mut segments: Vec<String> = Vec::new();
    let mut k: usize = 0;
    while k < parts.len()
        invariant
            pv == parts@.map_values(|p: Vec<char>| p@),
            pv == split_slash(raw@),
            k <= parts.len(),
            forall|m: int| 0 <= m < k ==> !#[trigger] bad_part(pv)(m),
            views(segments@) == pv.take(k as int).map_values(|p: Seq<char>| segment_name(p)->0),
        decreases parts.len() - k,
    {
        let part = &parts[k];
        assert(part@ == pv[k as int]);
        let n = part.len();
        if n < 2 || part[0] != '{' || part[n - 1] != '}' {
            proof {
                lemma_first_where_found(0, k as int, pv.len() as int, bad_part(pv));
            }
            let head = concat("segment `", string_of(part.as_slice()).as_str());
            let message = concat(head.as_str(), "` is not of the form {name}");
            return Err(ParseError { pattern: owned(raw), message });
        }
        if n == 2 {
            proof {
                lemma_first_where_found(0, k as int, pv.len() as int, bad_part(pv));
            }
            return Err(ParseError { pattern: owned(raw), message: owned("empty segment name") });
        }
        let mut name: Vec<char> = Vec::new();
        let mut j: usize = 1;
        while j < n - 1
            invariant
                n == part.len(),
                n > 2,
                1 <= j <= n - 1,
                name@ == part@.subrange(1, j as int),
            decreases n - 1 - j,
        {
            name.push(part[j]);
            j += 1;
            assert(name@ =~= part@.subrange(1, j as int));
        }
        let ghost before = segments@;
        let segment = string_of(name.as_slice());
        segments.push(segment);
        assert(views(segments@) =~= views(before).push(segment@));
        assert(pv.take(k + 1) =~= pv.take(k as int).push(pv[k as int]));
        k += 1;
    }
    assert(pv.take(parts.len() as int) =~= pv);
    proof {
        lemma_first_where_none(0, pv.len() as int, bad_part(pv));
        reveal_strlit("root");
        reveal_strlit("files");
    }
    let ghost names = views(segments@);
    let count = segments.len();
    if count < 2 {
        return Err(ParseError {
            pattern: owned(raw),
            message: owned("a pattern needs at least a root and a terminator"),
        });
    }
    if !same_text(segments[0].as_str(), ROOT) {
        return Err(ParseError { pattern: owned(raw), message: owned("the first segment must be {root}") });
    }
    if !same_text(segments[count - 1].as_str(), FILES) {
        return Err(ParseError { pattern: owned(raw), message: owned("the last segment must be {files}") });
    }
    let mut m: usize = 1;
    while m < count - 1
        invariant
            count == segments.len(),
            count >= 2,
            names == views(segments@),
            pv == split_slash(raw@),
            first_where(0, pv.len() as int, bad_part(pv)) is None,
            names == pv.map_values(|p: Seq<char>| segment_name(p)->0),
            names[0] == "root"@,
            names.last() == "files"@,
            1 <= m <= count - 1,
            forall|q: int| 1 <= q < m ==> !(#[trigger] names[q] == "root"@ || names[q] == "files"@),
        decreases count - 1 - m,
    {
        if same_text(segments[m].as_str(), ROOT) || same_text(segments[m].as_str(), FILES) {
            assert(names[m as int] == "root"@ || names[m as int] == "files"@);
            assert(exists|q: int|
                1 <= q < names.len() - 1 && (#[trigger] names[q] == "root"@ || names[q] == "files"@));
            assert(shape_problem(names) == Some("{root} and {files} may only appear at the ends"@));
            return Err(ParseError {
                pattern: owned(raw),
                message: owned("{root} and {files} may only appear at the ends"),
            });
        }
        m += 1;
    }
    Ok(Pattern { raw: owned(raw), segments })
}

} // verus!
