//! A parsed source file, as the plain values the content layer reads.
//!
//! The parser's own tree is flattened into its nodes in document order
//! (pre-order), each with its depth below the root, so that everything the
//! language profiles ask of the tree — children, fields, siblings, text — is
//! a question about a sequence.

use crate::text::owned;
use vstd::prelude::*;
use vstd::string::StringSliceAdditionalSpecFns;
use vstd::utf8::{decode_utf8, encode_utf8, is_char_boundary};

verus! {

/// The grammars the content layer can parse with.
#[derive(Debug, Clone, Copy, PartialEq, Eq, Structural)]
pub enum Grammar {
    Python,
    Rust,
}

/// One node of a parse tree.
#[derive(Debug, Clone)]
pub struct SyntaxNode {
    /// The grammar's name for the node, such as `function_item`.
    pub kind: String,
    /// The field of its parent the node fills, such as `name`.
    pub field: Option<String>,
    /// Byte offsets of the node's text in the source.
    pub start: usize,
    pub end: usize,
    /// 0-based row the node starts on.
    pub row: usize,
    /// How many levels below the root the node sits.
    pub depth: usize,
    /// Whether the node or anything in it is a syntax error.
    pub has_error: bool,
}

pub struct NodeView {
    pub kind: Seq<char>,
    pub field: Option<Seq<char>>,
    pub start: usize,
    pub end: usize,
    pub row: usize,
    pub depth: usize,
    pub has_error: bool,
}

impl View for SyntaxNode {
    type V = NodeView;

    open spec fn view(&self) -> NodeView {
        NodeView {
            kind: self.kind@,
            field: match self.field {
                Some(f) => Some(f@),
                None => None,
            },
            start: self.start,
            end: self.end,
            row: self.row,
            depth: self.depth,
            has_error: self.has_error,
        }
    }
}

/// What parsing a source text gave.
pub enum Parsed {
    /// The grammar could not be loaded into the parser.
    NoGrammar,
    /// The parser produced no tree.
    NoTree,
    /// The tree's nodes in document order; the first is the root.
    Nodes(Vec<SyntaxNode>),
}

pub enum ParsedView {
    NoGrammar,
    NoTree,
    Nodes(Seq<NodeView>),
}

/// The views of a list of nodes.
pub open spec fn node_views(nodes: Seq<SyntaxNode>) -> Seq<NodeView> {
    nodes.map_values(|n: SyntaxNode| n@)
}

impl View for Parsed {
    type V = ParsedView;

    open spec fn view(&self) -> ParsedView {
        match self {
            Parsed::NoGrammar => ParsedView::NoGrammar,
            Parsed::NoTree => ParsedView::NoTree,
            Parsed::Nodes(v) => ParsedView::Nodes(node_views(v@)),
        }
    }
}

/// A tree-sitter parse tree, held whole: only the nodes it holds are
/// named, as `tree_nodes`.
#[verifier::external_body]
pub struct ParseTree {
    tree: tree_sitter::Tree,
}

/// Whether nodes start on rows that never decrease along the list, each row
/// below `usize::MAX`.
pub open spec fn rows_in_order(ns: Seq<NodeView>) -> bool {
    &&& forall|i: int, j: int| 0 <= i <= j < ns.len() ==> #[trigger] ns[i].row <= #[trigger] ns[j].row
    &&& forall|i: int| 0 <= i < ns.len() ==> #[trigger] ns[i].row < usize::MAX
}

/// Whether node `i`'s child filling `left` comes before its child filling
/// `right`, where it has both.
pub open spec fn left_before_right(ns: Seq<NodeView>, i: int) -> bool {
    match (child_by_field(ns, i, "left"@), child_by_field(ns, i, "right"@)) {
        (Some(l), Some(r)) => l < r,
        _ => true,
    }
}

/// Whether every `assignment` node has its left-hand side before its
/// right-hand side.
pub open spec fn assignments_left_first(ns: Seq<NodeView>) -> bool {
    forall|i: int| 0 <= i < ns.len() && ns[i].kind == "assignment"@ ==> #[trigger] left_before_right(ns, i)
}

/// What tree-sitter makes of a source text with a grammar, flattened.
pub uninterp spec fn syntax_of(source: Seq<char>, grammar: Grammar) -> ParsedView;

/// The nodes a parse tree holds, in document order (pre-order), the root
/// first, as `TreeCursor::goto_descendant` numbers them.
pub uninterp spec fn tree_nodes(tree: ParseTree) -> Seq<NodeView>;

/// Loads the grammar crate's language into a new `tree_sitter::Parser`
/// (`Parser::set_language`) and parses `source` with it (`Parser::parse`):
/// an error when the grammar could not be loaded, nothing when the parser
/// produced no tree. What comes out is named `syntax_of`, a function of the
/// source and the grammar alone; of a tree, only its nodes are named. The
/// Python grammar builds every `assignment` node by one rule,
/// `seq(field('left', …), choice(seq('=', field('right', …)), …))`, so a
/// Python tree lists an assignment's `left` child before its `right` one.
#[verifier::external_body]
fn parse_tree(source: &str, grammar: Grammar) -> (res: Result<Option<ParseTree>, ()>)
    ensures
        match res {
            Err(()) => syntax_of(source@, grammar) is NoGrammar,
            Ok(None) => syntax_of(source@, grammar) is NoTree,
            Ok(Some(tree)) => syntax_of(source@, grammar) == ParsedView::Nodes(tree_nodes(tree)),
        },
        grammar == Grammar::Python ==> (res matches Ok(Some(tree)) ==> assignments_left_first(tree_nodes(tree))),
{
    let language: tree_sitter::Language = match grammar {
        Grammar::Python => tree_sitter_python::LANGUAGE.into(),
        Grammar::Rust => tree_sitter_rust::LANGUAGE.into(),
    };
    let mut parser = tree_sitter::Parser::new();
    if parser.set_language(&language).is_err() {
        return Err(());
    }
    match parser.parse(source, None) {
        Some(tree) => Ok(Some(ParseTree { tree })),
        None => Ok(None),
    }
}

/// `Node::descendant_count` of the root: how many nodes the tree holds.
/// Numbered in document order, the nodes start on rows that never decrease
/// (a child starts no earlier than its parent, a sibling no earlier than the
/// end of the one before it), and a row, counting the newlines before the
/// node, stays below the source's byte length and so below `usize::MAX`.
#[verifier::external_body]
fn node_count(tree: &ParseTree) -> (res: usize)
    ensures
        res == tree_nodes(*tree).len(),
        rows_in_order(tree_nodes(*tree).take(res as int)),
{
    tree.tree.root_node().descendant_count()
}

/// The `i`-th node in document order, reached by `TreeCursor::goto_descendant`:
/// its kind, the field it fills, its byte range, start row, depth and
/// whether it holds an error.
#[verifier::external_body]
fn node_at(tree: &ParseTree, i: usize) -> (res: SyntaxNode)
    requires
        i < tree_nodes(*tree).len(),
    ensures
        res@ == tree_nodes(*tree)[i as int],
{
    let mut c = tree.tree.walk();
    c.goto_descendant(i);
    let n = c.node();
    SyntaxNode { kind: n.kind().into(), field: c.field_name().map(Into::into), start: n.start_byte(),
        end: n.end_byte(), row: n.start_position().row, depth: c.depth() as usize, has_error: n.has_error() }
}

/// Parses `source` with the grammar and lists the tree's nodes in document
/// order.
pub fn parse(source: &str, grammar: Grammar) -> (res: Parsed)
    ensures
        res@ == syntax_of(source@, grammar),
        res matches Parsed::Nodes(ns) ==> rows_in_order(node_views(ns@)),
        grammar == Grammar::Python ==> (res matches Parsed::Nodes(ns) ==> assignments_left_first(node_views(ns@))),
{
    match parse_tree(source, grammar) {
        Err(()) => Parsed::NoGrammar,
        Ok(None) => Parsed::NoTree,
        Ok(Some(tree)) => {
            let count = node_count(&tree);
            let ghost all = tree_nodes(tree);
            let mut nodes: Vec<SyntaxNode> = Vec::new();
            let mut i: usize = 0;
            while i < count
                invariant
                    all == tree_nodes(tree),
                    count == all.len(),
                    i <= count,
                    node_views(nodes@) == all.take(i as int),
                decreases count - i,
            {
                let node = node_at(&tree, i);
                let ghost before = nodes@;
                nodes.push(node);
                assert(node_views(nodes@) =~= node_views(before).push(node@));
                assert(all.take(i + 1) =~= all.take(i as int).push(all[i as int]));
                i += 1;
            }
            assert(all.take(count as int) =~= all);
            assert(node_views(nodes@) == all);
            Parsed::Nodes(nodes)
        },
    }
}

/// The first position in `lo..hi` where `p` holds.
pub open spec fn first_where(lo: int, hi: int, p: spec_fn(int) -> bool) -> Option<int>
    decreases hi - lo,
{
    if lo >= hi {
        None
    } else if p(lo) {
        Some(lo)
    } else {
        first_where(lo + 1, hi, p)
    }
}

pub proof fn lemma_first_where_found(lo: int, k: int, hi: int, p: spec_fn(int) -> bool)
    requires
        lo <= k < hi,
        forall|m: int| lo <= m < k ==> !#[trigger] p(m),
        p(k),
    ensures
        first_where(lo, hi, p) == Some(k),
    decreases k - lo,
{
    if lo < k {
        lemma_first_where_found(lo + 1, k, hi, p);
    }
}

pub proof fn lemma_first_where_none(lo: int, hi: int, p: spec_fn(int) -> bool)
    requires
        forall|m: int| lo <= m < hi ==> !#[trigger] p(m),
    ensures
        first_where(lo, hi, p) is None,
    decreases hi - lo,
{
    if lo < hi {
        lemma_first_where_none(lo + 1, hi, p);
    }
}

pub proof fn lemma_first_where_bounds(lo: int, hi: int, p: spec_fn(int) -> bool)
    ensures
        first_where(lo, hi, p) matches Some(k) ==> lo <= k < hi && p(k),
    decreases hi - lo,
{
    if lo < hi && !p(lo) {
        lemma_first_where_bounds(lo + 1, hi, p);
    }
}

/// The first position where `p` holds comes no later than any witness.
pub proof fn lemma_first_where_least(lo: int, hi: int, p: spec_fn(int) -> bool, w: int)
    requires
        lo <= w < hi,
        p(w),
    ensures
        first_where(lo, hi, p) matches Some(r) && r <= w,
    decreases w - lo,
{
    if lo < w && !p(lo) {
        lemma_first_where_least(lo + 1, hi, p, w);
    }
}

/// Before the first position where `p` holds, it holds nowhere.
pub proof fn lemma_first_where_skips(lo: int, hi: int, p: spec_fn(int) -> bool)
    ensures
        forall|m: int|
            lo <= m < (match first_where(lo, hi, p) {
                Some(r) => r,
                None => hi,
            }) ==> !#[trigger] p(m),
    decreases hi - lo,
{
    if lo < hi && !p(lo) {
        lemma_first_where_skips(lo + 1, hi, p);
    }
}

/// Whether node `m` is no deeper than node `i`.
pub open spec fn no_deeper(ns: Seq<NodeView>, i: int) -> spec_fn(int) -> bool {
    |m: int| ns[m].depth <= ns[i].depth
}

/// Whether node `j` sits one level below node `i` and fills `field`.
pub open spec fn fills_field(ns: Seq<NodeView>, i: int, field: Seq<char>) -> spec_fn(int) -> bool {
    |j: int| ns[j].depth == ns[i].depth + 1 && ns[j].field == Some(field)
}

/// Whether node `j` sits one level below node `i` and has the kind.
pub open spec fn has_kind_below(ns: Seq<NodeView>, i: int, kind: Seq<char>) -> spec_fn(int) -> bool {
    |j: int| ns[j].depth == ns[i].depth + 1 && ns[j].kind == kind
}

/// Where the subtree of node `i` ends: the first later node no deeper than
/// it, or the end of the list.
pub open spec fn subtree_end(ns: Seq<NodeView>, i: int) -> int {
    match first_where(i + 1, ns.len() as int, no_deeper(ns, i)) {
        Some(m) => m,
        None => ns.len() as int,
    }
}

/// A node's subtree starts right after it, ends within the list, and holds
/// only deeper nodes.
pub proof fn lemma_subtree(ns: Seq<NodeView>, k: int)
    requires
        0 <= k < ns.len(),
    ensures
        k < subtree_end(ns, k) <= ns.len(),
        forall|m: int| k < m < subtree_end(ns, k) ==> #[trigger] ns[m].depth > ns[k].depth,
{
    lemma_first_where_bounds(k + 1, ns.len() as int, no_deeper(ns, k));
    lemma_first_where_skips(k + 1, ns.len() as int, no_deeper(ns, k));
    assert forall|m: int| k < m < subtree_end(ns, k) implies #[trigger] ns[m].depth > ns[k].depth by {
        assert(!no_deeper(ns, k)(m));
    }
}

/// The subtree of a node inside another's subtree ends within it.
pub proof fn lemma_subtree_nests(ns: Seq<NodeView>, i: int, c: int)
    requires
        0 <= i < c < subtree_end(ns, i),
        subtree_end(ns, i) <= ns.len(),
        ns[c].depth > ns[i].depth,
    ensures
        subtree_end(ns, c) <= subtree_end(ns, i),
{
    lemma_subtree(ns, c);
    let e = subtree_end(ns, i);
    if e < ns.len() {
        lemma_first_where_bounds(i + 1, ns.len() as int, no_deeper(ns, i));
        assert(no_deeper(ns, c)(e));
        lemma_first_where_least(c + 1, ns.len() as int, no_deeper(ns, c), e);
    }
}

/// A later node no deeper than an earlier one lies past its subtree.
pub proof fn lemma_subtree_before(ns: Seq<NodeView>, a: int, b: int)
    requires
        0 <= a < b < ns.len(),
        ns[b].depth <= ns[a].depth,
    ensures
        subtree_end(ns, a) <= b,
{
    assert(no_deeper(ns, a)(b));
    lemma_first_where_least(a + 1, ns.len() as int, no_deeper(ns, a), b);
}

/// Whether node `j` is a child of node `i`.
pub open spec fn is_child(ns: Seq<NodeView>, i: int, j: int) -> bool {
    i < j < subtree_end(ns, i) && ns[j].depth == ns[i].depth + 1
}

/// The first child of node `i` that fills `field`.
pub open spec fn child_by_field(ns: Seq<NodeView>, i: int, field: Seq<char>) -> Option<int> {
    first_where(i + 1, subtree_end(ns, i), fills_field(ns, i, field))
}

/// The first child of node `i` of the given kind.
pub open spec fn child_of_kind(ns: Seq<NodeView>, i: int, kind: Seq<char>) -> Option<int> {
    first_where(i + 1, subtree_end(ns, i), has_kind_below(ns, i, kind))
}

/// The text a node spans, as `str::get` gives it: the characters between
/// its byte offsets when both fall on character boundaries, else nothing.
pub open spec fn node_text(source: Seq<char>, node: NodeView) -> Seq<char> {
    let bytes = encode_utf8(source);
    if node.start <= node.end && is_char_boundary(bytes, node.start as int) && is_char_boundary(
        bytes,
        node.end as int,
    ) {
        decode_utf8(bytes.subrange(node.start as int, node.end as int))
    } else {
        Seq::empty()
    }
}

/// The end of node `i`'s subtree.
pub fn find_subtree_end(ns: &Vec<SyntaxNode>, i: usize) -> (res: usize)
    requires
        i < ns.len(),
    ensures
        res as int == subtree_end(node_views(ns@), i as int),
        i < res <= ns.len(),
{
    let ghost v = node_views(ns@);
    let ghost p = no_deeper(v, i as int);
    let mut m: usize = i + 1;
    while m < ns.len()
        invariant
            v == node_views(ns@),
            p == no_deeper(v, i as int),
            i < m <= ns.len(),
            forall|k: int| i + 1 <= k < m ==> !#[trigger] p(k),
        decreases ns.len() - m,
    {
        if ns[m].depth <= ns[i].depth {
            proof {
                lemma_first_where_found(i + 1, m as int, ns.len() as int, p);
            }
            return m;
        }
        m += 1;
    }
    proof {
        lemma_first_where_none(i + 1, ns.len() as int, p);
    }
    ns.len()
}

/// The first child of node `i` that fills `field`.
pub fn find_child_by_field(ns: &Vec<SyntaxNode>, i: usize, field: &str) -> (res: Option<usize>)
    requires
        i < ns.len(),
    ensures
        match res {
            Some(j) => child_by_field(node_views(ns@), i as int, field@) == Some(j as int) && i < j < ns.len(),
            None => child_by_field(node_views(ns@), i as int, field@) is None,
        },
{
    let ghost v = node_views(ns@);
    let end = find_subtree_end(ns, i);
    let ghost p = fills_field(v, i as int, field@);
    let wanted = owned(field);
    let mut j: usize = i + 1;
    while j < end
        invariant
            v == node_views(ns@),
            end <= ns.len(),
            p == fills_field(v, i as int, field@),
            end as int == subtree_end(v, i as int),
            i < ns.len(),
            wanted@ == field@,
            i < j <= end,
            forall|k: int| i + 1 <= k < j ==> !#[trigger] p(k),
        decreases end - j,
    {
        let hit = ns[i].depth < usize::MAX && ns[j].depth == ns[i].depth + 1 && match &ns[j].field {
            Some(f) => *f == wanted,
            None => false,
        };
        assert(hit == p(j as int));
        if hit {
            proof {
                lemma_first_where_found(i + 1, j as int, end as int, p);
            }
            return Some(j);
        }
        j += 1;
    }
    proof {
        lemma_first_where_none(i + 1, end as int, p);
    }
    None
}

/// The first child of node `i` of the given kind.
pub fn find_child_of_kind(ns: &Vec<SyntaxNode>, i: usize, kind: &str) -> (res: Option<usize>)
    requires
        i < ns.len(),
    ensures
        match res {
            Some(j) => child_of_kind(node_views(ns@), i as int, kind@) == Some(j as int) && i < j < ns.len(),
            None => child_of_kind(node_views(ns@), i as int, kind@) is None,
        },
{
    let ghost v = node_views(ns@);
    let end = find_subtree_end(ns, i);
    let ghost p = has_kind_below(v, i as int, kind@);
    let wanted = owned(kind);
    let mut j: usize = i + 1;
    while j < end
        invariant
            v == node_views(ns@),
            end <= ns.len(),
            p == has_kind_below(v, i as int, kind@),
            end as int == subtree_end(v, i as int),
            i < ns.len(),
            wanted@ == kind@,
            i < j <= end,
            forall|k: int| i + 1 <= k < j ==> !#[trigger] p(k),
        decreases end - j,
    {
        let hit = ns[i].depth < usize::MAX && ns[j].depth == ns[i].depth + 1 && ns[j].kind == wanted;
        assert(hit == p(j as int));
        if hit {
            proof {
                lemma_first_where_found(i + 1, j as int, end as int, p);
            }
            return Some(j);
        }
        j += 1;
    }
    proof {
        lemma_first_where_none(i + 1, end as int, p);
    }
    None
}

/// The text a node spans, as `str::get` gives it.
pub fn text_of(source: &str, node: &SyntaxNode) -> (res: String)
    ensures
        res@ == node_text(source@, node@),
{
    proof {
        vstd::utf8::encode_utf8_valid_utf8(source@);
    }
    let ghost bytes = encode_utf8(source@);
    let fits = node.start <= node.end && source.is_char_boundary(node.start)
        && source.is_char_boundary(node.end);
    if fits {
        assert(node.end <= bytes.len());
        let (_, rest) = source.split_at(node.start);
        assert(rest.spec_bytes() =~= bytes.subrange(node.start as int, bytes.len() as int));
        proof {
            lemma_boundary_in_rest(bytes, node.start as int, node.end as int);
        }
        let (middle, _) = rest.split_at(node.end - node.start);
        proof {
            vstd::utf8::encode_utf8_decode_utf8(middle@);
            assert(middle.spec_bytes() =~= bytes.subrange(node.start as int, node.end as int));
        }
        middle.to_owned()
    } else {
        String::new()
    }
}

proof fn lemma_boundary_in_rest(bytes: Seq<u8>, start: int, end: int)
    requires
        vstd::utf8::valid_utf8(bytes),
        0 <= start <= end <= bytes.len(),
        is_char_boundary(bytes, start),
        is_char_boundary(bytes, end),
    ensures
        is_char_boundary(bytes.subrange(start, bytes.len() as int), end - start),
{
    let rest = bytes.subrange(start, bytes.len() as int);
    vstd::utf8::valid_utf8_split(bytes, start);
    if end == bytes.len() {
        vstd::utf8::is_char_boundary_start_end_of_seq(rest);
    } else {
        vstd::utf8::is_char_boundary_iff_not_is_continuation_byte(bytes, end);
        vstd::utf8::is_char_boundary_iff_not_is_continuation_byte(rest, end - start);
        assert(rest[end - start] == bytes[end]);
    }
}

} // verus!

verus! {

/// The children of node `i` among the positions below `n`, in order.
pub open spec fn kids_before(ns: Seq<NodeView>, i: int, n: int) -> Seq<int>
    decreases n - i,
{
    if n <= i + 1 {
        Seq::empty()
    } else {
        let before = kids_before(ns, i, n - 1);
        if ns[n - 1].depth == ns[i].depth + 1 {
            before.push(n - 1)
        } else {
            before
        }
    }
}

/// The children listed before position `n` come in increasing order, each
/// after `i` and before `n`.
pub proof fn lemma_kids_before_increase(ns: Seq<NodeView>, i: int, n: int)
    ensures
        forall|a: int, b: int|
            0 <= a < b < kids_before(ns, i, n).len() ==> #[trigger] kids_before(ns, i, n)[a]
                < #[trigger] kids_before(ns, i, n)[b],
        forall|a: int|
            0 <= a < kids_before(ns, i, n).len() ==> i < #[trigger] kids_before(ns, i, n)[a] < n
                && ns[kids_before(ns, i, n)[a]].depth == ns[i].depth + 1,
    decreases n - i,
{
    if n > i + 1 {
        lemma_kids_before_increase(ns, i, n - 1);
        let before = kids_before(ns, i, n - 1);
        let all = kids_before(ns, i, n);
        if ns[n - 1].depth == ns[i].depth + 1 {
            assert(all == before.push(n - 1));
            assert forall|a: int| 0 <= a < all.len() implies i < #[trigger] all[a] < n
                && ns[all[a]].depth == ns[i].depth + 1 by {
                if a < before.len() {
                    assert(all[a] == before[a]);
                }
            }
            assert forall|a: int, b: int| 0 <= a < b < all.len() implies #[trigger] all[a] < #[trigger] all[b] by {
                assert(all[a] == before[a]);
                if b < before.len() {
                    assert(all[b] == before[b]);
                }
            }
        } else {
            assert(all == before);
        }
    }
}

/// The children of node `i`, in order.
pub open spec fn kids(ns: Seq<NodeView>, i: int) -> Seq<int> {
    kids_before(ns, i, subtree_end(ns, i))
}

/// The children of node `i`, in order.
pub fn children(ns: &Vec<SyntaxNode>, i: usize) -> (res: Vec<usize>)
    requires
        i < ns.len(),
    ensures
        res@.map_values(|k: usize| k as int) == kids(node_views(ns@), i as int),
        forall|t: int| 0 <= t < res.len() ==> i < #[trigger] res@[t] < ns.len(),
{
    let ghost v = node_views(ns@);
    let end = find_subtree_end(ns, i);
    let mut res: Vec<usize> = Vec::new();
    let mut j: usize = i + 1;
    while j < end
        invariant
            v == node_views(ns@),
            i < ns.len(),
            end <= ns.len(),
            i < j <= end,
            res@.map_values(|k: usize| k as int) == kids_before(v, i as int, j as int),
            forall|t: int| 0 <= t < res.len() ==> i < #[trigger] res@[t] < ns.len(),
        decreases end - j,
    {
        if ns[i].depth < usize::MAX && ns[j].depth == ns[i].depth + 1 {
            res.push(j);
            assert(res@.map_values(|k: usize| k as int) =~= kids_before(v, i as int, j as int).push(
                j as int,
            ));
        } else {
            assert(v[j as int].depth != v[i as int].depth + 1);
        }
        j += 1;
    }
    res
}

} // verus!
