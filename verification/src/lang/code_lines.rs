//! The line count the budget is measured against.

use super::syntax::{find_subtree_end, node_views, subtree_end, NodeView, SyntaxNode};
use crate::text::{
    blank_line, chars_of, contains_chars, contains_seq, is_blank, lines, lines_of, lossy_chars,
    lossy_text, char_views,
};
use vstd::prelude::*;
use vstd::utf8::encode_utf8;
use vstd::string::StringSliceAdditionalSpecFns;

verus! {

/// After the first `n` nodes: the ranges of the comments found, and the
/// position before which nodes lie inside one of them. A comment's own
/// subtree is not searched again.
pub open spec fn comment_scan(ns: Seq<NodeView>, n: int) -> (Seq<(usize, usize)>, int)
    decreases n,
{
    if n <= 0 {
        (Seq::empty(), 0)
    } else {
        let (ranges, skip) = comment_scan(ns, n - 1);
        let i = n - 1;
        if i >= skip && contains_seq(ns[i].kind, "comment"@) {
            (ranges.push((ns[i].start, ns[i].end)), subtree_end(ns, i))
        } else {
            (ranges, skip)
        }
    }
}

/// The byte ranges of the outermost comment nodes, in document order.
///
/// A node counts as a comment when its kind contains `comment`: grammars
/// spell it `comment`, `line_comment`, `block_comment` and more.
pub open spec fn comment_ranges(ns: Seq<NodeView>) -> Seq<(usize, usize)> {
    comment_scan(ns, ns.len() as int).0
}

/// Whether a range covers byte `p` of a text `len` bytes long.
pub open spec fn covers(range: (usize, usize), len: int, p: int) -> bool {
    range.0 <= p && p < range.1 && p < len
}

pub open spec fn covered(ranges: Seq<(usize, usize)>, len: int, p: int) -> bool {
    exists|k: int| 0 <= k < ranges.len() && covers(#[trigger] ranges[k], len, p)
}

/// The text with every covered byte but a newline turned into a space, so
/// that line boundaries survive.
pub open spec fn masked(bytes: Seq<u8>, ranges: Seq<(usize, usize)>) -> Seq<u8> {
    Seq::new(
        bytes.len(),
        |p: int| if covered(ranges, bytes.len() as int, p) && bytes[p] != 10u8 { 32u8 } else { bytes[p] },
    )
}

/// How many of the lines carry something other than whitespace.
pub open spec fn count_code_lines(lines: Seq<Seq<char>>) -> nat
    decreases lines.len(),
{
    if lines.len() == 0 {
        0
    } else {
        count_code_lines(lines.drop_last()) + if blank_line(lines.last()) { 0nat } else { 1nat }
    }
}

/// Lines carrying something other than whitespace and comments, once the
/// `excluded` byte ranges and every comment have been blanked out.
pub open spec fn code_line_count(source: Seq<char>, ns: Seq<NodeView>, excluded: Seq<(usize, usize)>) -> nat {
    count_code_lines(lines_of(lossy_text(masked(encode_utf8(source), excluded + comment_ranges(ns)))))
}

fn outer_comments(ns: &Vec<SyntaxNode>) -> (res: Vec<(usize, usize)>)
    ensures
        res@ == comment_ranges(node_views(ns@)),
{
    let ghost v = node_views(ns@);
    let word = chars_of("comment");
    let mut ranges: Vec<(usize, usize)> = Vec::new();
    let mut skip: usize = 0;
    let mut i: usize = 0;
    while i < ns.len()
        invariant
            v == node_views(ns@),
            word@ == "comment"@,
            i <= ns.len(),
            skip <= ns.len(),
            (ranges@, skip as int) == comment_scan(v, i as int),
        decreases ns.len() - i,
    {
        if i >= skip {
            let kind = chars_of(ns[i].kind.as_str());
            if contains_chars(&kind, &word) {
                ranges.push((ns[i].start, ns[i].end));
                skip = find_subtree_end(ns, i);
            }
        }
        i += 1;
    }
    ranges
}

fn blank_range(out: &mut Vec<u8>, bytes: Ghost<Seq<u8>>, done: Ghost<Seq<(usize, usize)>>, range: (usize, usize))
    requires
        old(out)@ == masked(bytes@, done@),
    ensures
        final(out)@ == masked(bytes@, done@.push(range)),
{
    let ghost all = done@.push(range);
    let ghost len = bytes@.len() as int;
    assert(old(out)@.len() == bytes@.len());
    let end = if range.1 < out.len() { range.1 } else { out.len() };
    let start = if range.0 < end { range.0 } else { end };
    let mut p: usize = start;
    while p < end
        invariant
            end <= out.len(),
            out@.len() == bytes@.len(),
            start <= p <= end,
            start == if range.0 < end { range.0 } else { end },
            forall|q: int| 0 <= q < out@.len() ==> #[trigger] out@[q] == if (covered(done@, len, q) || (start <= q < p)) && bytes@[q] != 10u8 {
                32u8
            } else {
                bytes@[q]
            },
        decreases end - p,
    {
        let ghost before = out@;
        if out[p] != 10u8 {
            out.set(p, 32u8);
        }
        assert forall|q: int| 0 <= q < out@.len() implies #[trigger] out@[q] == if (covered(done@, len, q) || (start <= q < p + 1)) && bytes@[q] != 10u8 {
            32u8
        } else {
            bytes@[q]
        } by {
            if q != p {
                assert(out@[q] == before[q]);
            }
        }
        p += 1;
    }
    assert forall|q: int| 0 <= q < out@.len() implies #[trigger] out@[q] == masked(bytes@, all)[q] by {
        if covers(range, len, q) {
            assert(all[done@.len() as int] == range);
        }
        if covered(all, len, q) && !covers(range, len, q) {
            let k = choose|k: int| 0 <= k < all.len() && covers(#[trigger] all[k], len, q);
            assert(all[k] == done@[k]);
        }
        if covered(done@, len, q) {
            let k = choose|k: int| 0 <= k < done@.len() && covers(#[trigger] done@[k], len, q);
            assert(all[k] == done@[k]);
        }
    }
    assert(out@ =~= masked(bytes@, all));
}

/// Lines carrying something other than whitespace and comments.
///
/// Counted off the parse tree, so a `#` inside a string literal is code, a
/// trailing `// note` still leaves its line counted, and a block comment
/// costs nothing however it is wrapped. `excluded` is for regions a language
/// wants left out entirely, such as Rust's `#[cfg(test)]` modules.
pub fn code_lines(source: &str, ns: &Vec<SyntaxNode>, excluded: &Vec<(usize, usize)>) -> (res: usize)
    ensures
        res == code_line_count(source@, node_views(ns@), excluded@),
{
    let bytes = source.as_bytes();
    let ghost original = bytes@;
    let mut ranges: Vec<(usize, usize)> = Vec::new();
    let mut k: usize = 0;
    while k < excluded.len()
        invariant
            k <= excluded.len(),
            ranges@ == excluded@.take(k as int),
        decreases excluded.len() - k,
    {
        ranges.push(excluded[k]);
        k += 1;
        assert(ranges@ =~= excluded@.take(k as int));
    }
    let comments = outer_comments(ns);
    let mut c: usize = 0;
    while c < comments.len()
        invariant
            c <= comments.len(),
            ranges@ == excluded@ + comments@.take(c as int),
        decreases comments.len() - c,
    {
        ranges.push(comments[c]);
        c += 1;
        assert(ranges@ =~= excluded@ + comments@.take(c as int));
    }
    assert(comments@.take(comments.len() as int) == comments@);
    let mut out: Vec<u8> = Vec::new();
    let mut b: usize = 0;
    while b < bytes.len()
        invariant
            original == bytes@,
            b <= bytes.len(),
            out@ == bytes@.take(b as int),
        decreases bytes.len() - b,
    {
        out.push(bytes[b]);
        b += 1;
        assert(out@ =~= bytes@.take(b as int));
    }
    assert(out@ =~= masked(original, ranges@.take(0))) by {
        assert(bytes@.take(bytes.len() as int) == bytes@);
    }
    let mut r: usize = 0;
    while r < ranges.len()
        invariant
            r <= ranges.len(),
            out@ == masked(original, ranges@.take(r as int)),
        decreases ranges.len() - r,
    {
        blank_range(&mut out, Ghost(original), Ghost(ranges@.take(r as int)), ranges[r]);
        assert(ranges@.take(r as int).push(ranges@[r as int]) == ranges@.take(r + 1));
        r += 1;
    }
    assert(ranges@.take(ranges.len() as int) == ranges@);
    let text = lossy_chars(out.as_slice());
    let all = lines(&text);
    let ghost ls = char_views(all@);
    let mut count: usize = 0;
    let mut i: usize = 0;
    while i < all.len()
        invariant
            ls == char_views(all@),
            i <= all.len(),
            count <= i,
            count == count_code_lines(ls.take(i as int)),
        decreases all.len() - i,
    {
        assert(ls.take(i + 1).drop_last() == ls.take(i as int));
        if !is_blank(&all[i]) {
            count += 1;
        }
        i += 1;
    }
    assert(ls.take(all.len() as int) == ls);
    count
}

} // verus!
