//! Python's answer to the seam question.
//!
//! Exported means "top-level and not `_`-prefixed" — the language has no
//! visibility keyword, so the advisory convention is the only signal there
//! is. That excludes dunders (`__version__`, `__all__`) for free.

use super::code_lines::{code_line_count, code_lines};
use super::module::empty_module;
use super::public_name::{
    first_of_each, keep_first_of_each, lemma_first_of_each_keeps_order, lines_in_order, name_views,
};
use super::rust::{line_after, next_line};
use super::syntax::{
    assignments_left_first, child_by_field, children, fills_field, no_deeper, find_child_by_field,
    find_subtree_end, first_where, kids, left_before_right, lemma_first_where_bounds,
    lemma_first_where_found, lemma_first_where_none, lemma_kids_before_increase, lemma_subtree,
    lemma_subtree_before, lemma_subtree_nests, node_text, node_views, parse, rows_in_order,
    subtree_end, syntax_of, text_of, Grammar, NodeView, Parsed, ParsedView, SyntaxNode,
};
use super::{LanguageProfile, Module, ModuleView, PublicName, PublicNameView};
use crate::config::Language;
use crate::text::{chars_of, same_text};
use vstd::prelude::*;

verus! {

pub struct Python;

/// Statements whose bindings are not the module's unconditional surface:
/// imports, and conditional or looping blocks.
pub open spec fn skipped_statement(kind: Seq<char>) -> bool {
    ||| kind == "import_statement"@
    ||| kind == "import_from_statement"@
    ||| kind == "future_import_statement"@
    ||| kind == "if_statement"@
    ||| kind == "try_statement"@
    ||| kind == "while_statement"@
    ||| kind == "for_statement"@
    ||| kind == "with_statement"@
    ||| kind == "match_statement"@
}

/// Whether node `m` is an identifier.
pub open spec fn is_identifier(ns: Seq<NodeView>) -> spec_fn(int) -> bool {
    |m: int| ns[m].kind == "identifier"@
}

/// The first identifier in node `i`'s subtree, itself included, in document
/// order.
pub open spec fn first_identifier(ns: Seq<NodeView>, i: int) -> Option<int> {
    first_where(i, subtree_end(ns, i), is_identifier(ns))
}

/// A name as an export, unless it is empty or `_`-prefixed.
pub open spec fn recorded(name: Seq<char>, line: usize, construct: Seq<char>) -> Seq<PublicNameView> {
    if name.len() == 0 || name[0] == '_' {
        Seq::empty()
    } else {
        seq![PublicNameView { name, construct, line }]
    }
}

/// The export a definition makes through the child filling `field`; for a
/// generic alias, the first identifier under it.
pub open spec fn defined(ns: Seq<NodeView>, source: Seq<char>, i: int, field: Seq<char>, construct: Seq<char>) -> Seq<PublicNameView> {
    match child_by_field(ns, i, field) {
        None => Seq::empty(),
        Some(target) => {
            let name_node = match first_identifier(ns, target) {
                Some(n) => n,
                None => target,
            };
            recorded(node_text(source, ns[name_node]), line_after(ns[i].row), construct)
        },
    }
}

/// The identifiers among some nodes, in order.
pub open spec fn identifiers_among(ns: Seq<NodeView>, ks: Seq<int>) -> Seq<int>
    decreases ks.len(),
{
    if ks.len() == 0 {
        Seq::empty()
    } else {
        let before = identifiers_among(ns, ks.drop_last());
        if ns[ks.last()].kind == "identifier"@ {
            before.push(ks.last())
        } else {
            before
        }
    }
}

/// The identifiers a left-hand side binds: one, or several for
/// `A, B = ...`. Attribute and subscript targets bind nothing new.
pub open spec fn assignment_targets(ns: Seq<NodeView>, left: int) -> Seq<int> {
    let kind = ns[left].kind;
    if kind == "identifier"@ {
        seq![left]
    } else if kind == "pattern_list"@ || kind == "tuple_pattern"@ || kind == "list_pattern"@ {
        identifiers_among(ns, kids(ns, left))
    } else {
        Seq::empty()
    }
}

/// The exports some assignment targets make.
pub open spec fn target_records(ns: Seq<NodeView>, source: Seq<char>, targets: Seq<int>) -> Seq<PublicNameView>
    decreases targets.len(),
{
    if targets.len() == 0 {
        Seq::empty()
    } else {
        let t = targets.last();
        target_records(ns, source, targets.drop_last()) + recorded(
            node_text(source, ns[t]),
            line_after(ns[t].row),
            "assignment"@,
        )
    }
}

/// The exports a module-level assignment makes, in source order:
/// `A = B = value` nests, and the outer targets come before the inner ones.
pub open spec fn assignment_records(ns: Seq<NodeView>, source: Seq<char>, i: int) -> Seq<PublicNameView>
    decreases ns.len() - i,
{
    if i < 0 || i >= ns.len() {
        Seq::empty()
    } else {
        let inner = match child_by_field(ns, i, "right"@) {
            Some(r) => if ns[r].kind == "assignment"@ {
                proof {
                    lemma_first_where_bounds(i + 1, ns.len() as int, no_deeper(ns, i));
                    lemma_first_where_bounds(i + 1, subtree_end(ns, i), fills_field(ns, i, "right"@));
                }
                assignment_records(ns, source, r)
            } else {
                Seq::empty()
            },
            None => Seq::empty(),
        };
        (match child_by_field(ns, i, "left"@) {
            Some(l) => target_records(ns, source, assignment_targets(ns, l)),
            None => Seq::empty(),
        }) + inner
    }
}

/// The exports of the assignments among some children of an expression
/// statement.
pub open spec fn statement_records(ns: Seq<NodeView>, source: Seq<char>, ks: Seq<int>) -> Seq<PublicNameView>
    decreases ks.len(),
{
    if ks.len() == 0 {
        Seq::empty()
    } else {
        let k = ks.last();
        statement_records(ns, source, ks.drop_last()) + if ns[k].kind == "assignment"@ {
            assignment_records(ns, source, k)
        } else {
            Seq::empty()
        }
    }
}

/// The exports a top-level statement makes.
pub open spec fn statement_exports(ns: Seq<NodeView>, source: Seq<char>, i: int) -> Seq<PublicNameView>
    decreases ns.len() - i,
{
    if i < 0 || i >= ns.len() {
        Seq::empty()
    } else {
        let kind = ns[i].kind;
        if skipped_statement(kind) {
            Seq::empty()
        } else if kind == "decorated_definition"@ {
            match child_by_field(ns, i, "definition"@) {
                Some(d) => {
                    proof {
                        lemma_first_where_bounds(i + 1, ns.len() as int, no_deeper(ns, i));
                        lemma_first_where_bounds(i + 1, subtree_end(ns, i), fills_field(ns, i, "definition"@));
                    }
                    statement_exports(ns, source, d)
                },
                None => Seq::empty(),
            }
        } else if kind == "function_definition"@ {
            defined(ns, source, i, "name"@, "def"@)
        } else if kind == "class_definition"@ {
            defined(ns, source, i, "name"@, "class"@)
        } else if kind == "type_alias_statement"@ {
            defined(ns, source, i, "left"@, "type"@)
        } else if kind == "expression_statement"@ {
            statement_records(ns, source, kids(ns, i))
        } else {
            Seq::empty()
        }
    }
}

/// The exports of some top-level statements, in order.
pub open spec fn module_exports(ns: Seq<NodeView>, source: Seq<char>, ks: Seq<int>) -> Seq<PublicNameView>
    decreases ks.len(),
{
    if ks.len() == 0 {
        Seq::empty()
    } else {
        module_exports(ns, source, ks.drop_last()) + statement_exports(ns, source, ks.last())
    }
}

/// What a Python file's parse tree says the module is.
pub open spec fn python_module(ns: Seq<NodeView>, source: Seq<char>) -> ModuleView {
    if ns.len() == 0 {
        ModuleView { code_lines: code_line_count(source, ns, Seq::empty()) as usize, ..empty_module() }
    } else {
        let all = module_exports(ns, source, kids(ns, 0));
        ModuleView {
            names: first_of_each(all, all.len() as int),
            has_syntax_errors: ns[0].has_error,
            code_lines: code_line_count(source, ns, Seq::empty()) as usize,
        }
    }
}

/// What reading a Python source text gives.
pub open spec fn python_reading(source: Seq<char>) -> ModuleView {
    match syntax_of(source, Grammar::Python) {
        ParsedView::NoGrammar => empty_module(),
        ParsedView::NoTree => ModuleView { has_syntax_errors: true, ..empty_module() },
        ParsedView::Nodes(ns) => python_module(ns, source),
    }
}

/// Whether every name sits on a line in `lo..=hi`.
spec fn lines_between(names: Seq<PublicNameView>, lo: int, hi: int) -> bool {
    forall|k: int| 0 <= k < names.len() ==> lo <= #[trigger] names[k].line <= hi
}

/// The line after the last row a node's subtree reaches.
spec fn last_line(ns: Seq<NodeView>, i: int) -> int {
    ns[subtree_end(ns, i) - 1].row + 1
}

/// Names in order on lines up to `mid`, then names in order from `mid` on,
/// are in order together.
proof fn lemma_lines_concat(a: Seq<PublicNameView>, b: Seq<PublicNameView>, lo: int, mid: int, hi: int)
    requires
        lo <= mid <= hi,
        lines_in_order(a),
        lines_in_order(b),
        lines_between(a, lo, mid),
        lines_between(b, mid, hi),
    ensures
        lines_in_order(a + b),
        lines_between(a + b, lo, hi),
{
    let all = a + b;
    assert forall|x: int, y: int| 0 <= x < y < all.len() implies #[trigger] all[x].line <= #[trigger] all[y].line by {
        if y < a.len() {
            assert(all[x] == a[x] && all[y] == a[y]);
        } else if x < a.len() {
            assert(all[x] == a[x] && all[y] == b[y - a.len()]);
        } else {
            assert(all[x] == b[x - a.len()] && all[y] == b[y - a.len()]);
        }
    }
    assert forall|k: int| 0 <= k < all.len() implies lo <= #[trigger] all[k].line <= hi by {
        if k < a.len() {
            assert(all[k] == a[k]);
        } else {
            assert(all[k] == b[k - a.len()]);
        }
    }
}

/// The identifiers among nodes in increasing order within `a..b` are too.
proof fn lemma_identifiers_among(ns: Seq<NodeView>, ks: Seq<int>, a: int, b: int)
    requires
        forall|x: int, y: int| 0 <= x < y < ks.len() ==> #[trigger] ks[x] < #[trigger] ks[y],
        forall|x: int| 0 <= x < ks.len() ==> a <= #[trigger] ks[x] < b,
    ensures
        forall|x: int, y: int|
            0 <= x < y < identifiers_among(ns, ks).len() ==> #[trigger] identifiers_among(ns, ks)[x]
                < #[trigger] identifiers_among(ns, ks)[y],
        forall|x: int| 0 <= x < identifiers_among(ns, ks).len() ==> a <= #[trigger] identifiers_among(ns, ks)[x] < b,
    decreases ks.len(),
{
    if ks.len() > 0 {
        let rest = ks.drop_last();
        assert forall|x: int| 0 <= x < rest.len() implies a <= #[trigger] rest[x] < ks.last() by {
            assert(rest[x] == ks[x]);
        }
        lemma_identifiers_among(ns, rest, a, ks.last());
        let before = identifiers_among(ns, rest);
        if ns[ks.last()].kind == "identifier"@ {
            let all = before.push(ks.last());
            assert(identifiers_among(ns, ks) == all);
            assert forall|x: int, y: int| 0 <= x < y < all.len() implies #[trigger] all[x] < #[trigger] all[y] by {
                assert(all[x] == before[x]);
                if y < before.len() {
                    assert(all[y] == before[y]);
                }
            }
            assert forall|x: int| 0 <= x < all.len() implies a <= #[trigger] all[x] < b by {
                if x < before.len() {
                    assert(all[x] == before[x]);
                }
            }
        }
    }
}

/// The names some targets in increasing order within `a..b` make lie, in
/// order, on the lines of that stretch.
proof fn lemma_target_records(ns: Seq<NodeView>, source: Seq<char>, targets: Seq<int>, a: int, b: int)
    requires
        rows_in_order(ns),
        0 <= a < b <= ns.len(),
        forall|x: int, y: int| 0 <= x < y < targets.len() ==> #[trigger] targets[x] < #[trigger] targets[y],
        forall|x: int| 0 <= x < targets.len() ==> a <= #[trigger] targets[x] < b,
    ensures
        lines_in_order(target_records(ns, source, targets)),
        lines_between(target_records(ns, source, targets), ns[a].row + 1, ns[b - 1].row + 1),
    decreases targets.len(),
{
    if targets.len() > 0 {
        let t = targets.last();
        let rest = targets.drop_last();
        let before = target_records(ns, source, rest);
        if rest.len() > 0 {
            assert(rest[rest.len() - 1] == targets[targets.len() - 2]);
            assert forall|x: int, y: int| 0 <= x < y < rest.len() implies #[trigger] rest[x] < #[trigger] rest[y] by {
                assert(rest[x] == targets[x] && rest[y] == targets[y]);
            }
            assert forall|x: int| 0 <= x < rest.len() implies a <= #[trigger] rest[x] < t by {
                assert(rest[x] == targets[x]);
            }
            lemma_target_records(ns, source, rest, a, t);
            assert(ns[t - 1].row <= ns[t].row);
        }
        assert(ns[a].row <= ns[t].row <= ns[b - 1].row);
        let last = recorded(node_text(source, ns[t]), line_after(ns[t].row), "assignment"@);
        lemma_lines_concat(before, last, ns[a].row + 1, ns[t].row + 1, ns[b - 1].row + 1);
    }
}

/// A module-level assignment's names lie, in order, on the lines its
/// subtree spans.
proof fn lemma_assignment_records(ns: Seq<NodeView>, source: Seq<char>, i: int)
    requires
        rows_in_order(ns),
        assignments_left_first(ns),
        0 <= i < ns.len(),
        ns[i].kind == "assignment"@,
    ensures
        lines_in_order(assignment_records(ns, source, i)),
        lines_between(assignment_records(ns, source, i), ns[i].row + 1, last_line(ns, i)),
    decreases ns.len() - i,
{
    lemma_subtree(ns, i);
    let e = subtree_end(ns, i);
    assert(left_before_right(ns, i));
    lemma_first_where_bounds(i + 1, e, fills_field(ns, i, "left"@));
    lemma_first_where_bounds(i + 1, e, fills_field(ns, i, "right"@));
    let ub = match child_by_field(ns, i, "right"@) {
        Some(r) => r,
        None => e,
    };
    let head = match child_by_field(ns, i, "left"@) {
        Some(l) => target_records(ns, source, assignment_targets(ns, l)),
        None => Seq::empty(),
    };
    match child_by_field(ns, i, "left"@) {
        Some(l) => {
            lemma_subtree(ns, l);
            lemma_subtree_nests(ns, i, l);
            let le = subtree_end(ns, l);
            if let Some(r) = child_by_field(ns, i, "right"@) {
                lemma_subtree_before(ns, l, r);
            }
            let targets = assignment_targets(ns, l);
            let kind = ns[l].kind;
            if kind == "identifier"@ {
                assert(targets == seq![l]);
            } else if kind == "pattern_list"@ || kind == "tuple_pattern"@ || kind == "list_pattern"@ {
                lemma_kids_before_increase(ns, l, le);
                lemma_identifiers_among(ns, kids(ns, l), l, le);
            }
            lemma_target_records(ns, source, targets, i, ub);
        },
        None => {},
    }
    assert(ns[ub - 1].row <= ns[e - 1].row);
    match child_by_field(ns, i, "right"@) {
        Some(r) => {
            lemma_subtree_nests(ns, i, r);
            lemma_subtree(ns, r);
            if ns[r].kind == "assignment"@ {
                lemma_assignment_records(ns, source, r);
                assert(ns[r - 1].row <= ns[r].row);
                lemma_lines_concat(head, assignment_records(ns, source, r), ns[i].row + 1, ns[r].row + 1, last_line(ns, i));
            } else {
                assert(assignment_records(ns, source, i) == head + Seq::<PublicNameView>::empty());
                lemma_lines_concat(head, Seq::empty(), ns[i].row + 1, last_line(ns, i), last_line(ns, i));
            }
        },
        None => {
            assert(assignment_records(ns, source, i) == head + Seq::<PublicNameView>::empty());
            lemma_lines_concat(head, Seq::empty(), ns[i].row + 1, last_line(ns, i), last_line(ns, i));
        },
    }
}

/// The names the assignments among some children of node `i`, in
/// increasing order, make lie in order on the lines of `i`'s subtree, and
/// no later than the last of those children reaches.
proof fn lemma_statement_records(ns: Seq<NodeView>, source: Seq<char>, ks: Seq<int>, i: int)
    requires
        rows_in_order(ns),
        assignments_left_first(ns),
        0 <= i < ns.len(),
        forall|x: int, y: int| 0 <= x < y < ks.len() ==> #[trigger] ks[x] < #[trigger] ks[y],
        forall|x: int|
            0 <= x < ks.len() ==> i < #[trigger] ks[x] < subtree_end(ns, i) && ns[ks[x]].depth == ns[i].depth + 1,
    ensures
        lines_in_order(statement_records(ns, source, ks)),
        lines_between(statement_records(ns, source, ks), ns[i].row + 1, last_line(ns, i)),
        ks.len() > 0 ==> lines_between(statement_records(ns, source, ks), ns[i].row + 1, last_line(ns, ks.last())),
    decreases ks.len(),
{
    if ks.len() > 0 {
        lemma_subtree(ns, i);
        let k = ks.last();
        let rest = ks.drop_last();
        assert forall|x: int, y: int| 0 <= x < y < rest.len() implies #[trigger] rest[x] < #[trigger] rest[y] by {
            assert(rest[x] == ks[x] && rest[y] == ks[y]);
        }
        assert forall|x: int| 0 <= x < rest.len() implies i < #[trigger] rest[x] < subtree_end(ns, i)
            && ns[rest[x]].depth == ns[i].depth + 1 by {
            assert(rest[x] == ks[x]);
        }
        lemma_statement_records(ns, source, rest, i);
        let before = statement_records(ns, source, rest);
        lemma_subtree(ns, k);
        lemma_subtree_nests(ns, i, k);
        if rest.len() > 0 {
            let p = rest.last();
            assert(p == ks[ks.len() - 2]);
            lemma_subtree(ns, p);
            lemma_subtree_before(ns, p, k);
            assert(ns[subtree_end(ns, p) - 1].row <= ns[k].row);
        }
        assert(ns[i].row <= ns[k].row <= ns[subtree_end(ns, k) - 1].row <= ns[subtree_end(ns, i) - 1].row);
        if ns[k].kind == "assignment"@ {
            lemma_assignment_records(ns, source, k);
            lemma_lines_concat(before, assignment_records(ns, source, k), ns[i].row + 1, ns[k].row + 1, last_line(ns, k));
        } else {
            lemma_lines_concat(before, Seq::empty(), ns[i].row + 1, ns[k].row + 1, last_line(ns, k));
        }
    }
}

/// A top-level statement's names lie, in order, on the lines its subtree
/// spans.
proof fn lemma_statement_exports(ns: Seq<NodeView>, source: Seq<char>, i: int)
    requires
        rows_in_order(ns),
        assignments_left_first(ns),
        0 <= i < ns.len(),
    ensures
        lines_in_order(statement_exports(ns, source, i)),
        lines_between(statement_exports(ns, source, i), ns[i].row + 1, last_line(ns, i)),
    decreases ns.len() - i,
{
    lemma_subtree(ns, i);
    let e = subtree_end(ns, i);
    assert(ns[i].row <= ns[e - 1].row);
    let kind = ns[i].kind;
    if skipped_statement(kind) {
    } else if kind == "decorated_definition"@ {
        lemma_first_where_bounds(i + 1, e, fills_field(ns, i, "definition"@));
        if let Some(d) = child_by_field(ns, i, "definition"@) {
            lemma_subtree_nests(ns, i, d);
            lemma_subtree(ns, d);
            lemma_statement_exports(ns, source, d);
            assert(ns[i].row <= ns[d].row);
            assert(ns[subtree_end(ns, d) - 1].row <= ns[e - 1].row);
        }
    } else if kind == "expression_statement"@ {
        lemma_kids_before_increase(ns, i, e);
        lemma_statement_records(ns, source, kids(ns, i), i);
    }
}

/// The names of top-level statements, children of node `i` in increasing
/// order, lie in order on the lines of `i`'s subtree, and no later than the
/// last of those statements reaches.
proof fn lemma_module_exports(ns: Seq<NodeView>, source: Seq<char>, ks: Seq<int>, i: int)
    requires
        rows_in_order(ns),
        assignments_left_first(ns),
        0 <= i < ns.len(),
        forall|x: int, y: int| 0 <= x < y < ks.len() ==> #[trigger] ks[x] < #[trigger] ks[y],
        forall|x: int|
            0 <= x < ks.len() ==> i < #[trigger] ks[x] < subtree_end(ns, i) && ns[ks[x]].depth == ns[i].depth + 1,
    ensures
        lines_in_order(module_exports(ns, source, ks)),
        ks.len() > 0 ==> lines_between(module_exports(ns, source, ks), ns[i].row + 1, last_line(ns, ks.last())),
    decreases ks.len(),
{
    if ks.len() > 0 {
        lemma_subtree(ns, i);
        let k = ks.last();
        let rest = ks.drop_last();
        assert forall|x: int, y: int| 0 <= x < y < rest.len() implies #[trigger] rest[x] < #[trigger] rest[y] by {
            assert(rest[x] == ks[x] && rest[y] == ks[y]);
        }
        assert forall|x: int| 0 <= x < rest.len() implies i < #[trigger] rest[x] < subtree_end(ns, i)
            && ns[rest[x]].depth == ns[i].depth + 1 by {
            assert(rest[x] == ks[x]);
        }
        lemma_module_exports(ns, source, rest, i);
        let before = module_exports(ns, source, rest);
        lemma_subtree(ns, k);
        if rest.len() > 0 {
            let p = rest.last();
            assert(p == ks[ks.len() - 2]);
            lemma_subtree(ns, p);
            lemma_subtree_before(ns, p, k);
            assert(ns[subtree_end(ns, p) - 1].row <= ns[k].row);
        }
        assert(ns[i].row <= ns[k].row <= ns[subtree_end(ns, k) - 1].row);
        lemma_statement_exports(ns, source, k);
        lemma_lines_concat(before, statement_exports(ns, source, k), ns[i].row + 1, ns[k].row + 1, last_line(ns, k));
    }
}

/// A Python module's exports come in source order, for any parse tree whose
/// nodes start on rows that never decrease along the list and whose
/// assignments list their left-hand side before their right-hand side —
/// both of which the parser's document order and the Python grammar give.
pub proof fn lemma_python_exports_in_source_order(ns: Seq<NodeView>, source: Seq<char>)
    requires
        rows_in_order(ns),
        assignments_left_first(ns),
    ensures
        lines_in_order(python_module(ns, source).names),
{
    if ns.len() > 0 {
        lemma_subtree(ns, 0);
        let ks = kids(ns, 0);
        lemma_kids_before_increase(ns, 0, subtree_end(ns, 0));
        lemma_module_exports(ns, source, ks, 0);
        let all = module_exports(ns, source, ks);
        lemma_first_of_each_keeps_order(all, all.len() as int);
    }
}

fn append_names(out: &mut Vec<PublicName>, more: Vec<PublicName>)
    ensures
        name_views(final(out)@) == name_views(old(out)@) + name_views(more@),
{
    let mut k: usize = 0;
    while k < more.len()
        invariant
            k <= more.len(),
            name_views(out@) == name_views(old(out)@) + name_views(more@.take(k as int)),
        decreases more.len() - k,
    {
        let ghost prev = out@;
        let item = more[k].duplicate();
        out.push(item);
        assert(name_views(out@) =~= name_views(prev).push(item@));
        assert(more@.take(k + 1) =~= more@.take(k as int).push(more@[k as int]));
        assert(name_views(more@.take(k + 1)) =~= name_views(more@.take(k as int)).push(more@[k as int]@));
        k += 1;
        assert(name_views(out@) =~= name_views(old(out)@) + name_views(more@.take(k as int)));
    }
    assert(more@.take(more.len() as int) == more@);
}

fn record(name: String, row: usize, construct: &'static str) -> (res: Vec<PublicName>)
    ensures
        name_views(res@) == recorded(name@, line_after(row), construct@),
{
    let chars = chars_of(name.as_str());
    let mut res: Vec<PublicName> = Vec::new();
    if chars.len() == 0 || chars[0] == '_' {
        assert(name_views(res@) =~= Seq::<PublicNameView>::empty());
        return res;
    }
    let line = next_line(row);
    res.push(PublicName { name, construct, line });
    assert(name_views(res@) =~= recorded(chars@, line_after(row), construct@));
    res
}

fn find_first_identifier(ns: &Vec<SyntaxNode>, i: usize) -> (res: Option<usize>)
    requires
        i < ns.len(),
    ensures
        match res {
            Some(m) => first_identifier(node_views(ns@), i as int) == Some(m as int) && m < ns.len(),
            None => first_identifier(node_views(ns@), i as int) is None,
        },
{
    let ghost v = node_views(ns@);
    let ghost p = is_identifier(v);
    let end = find_subtree_end(ns, i);
    let mut m: usize = i;
    while m < end
        invariant
            v == node_views(ns@),
            p == is_identifier(v),
            end <= ns.len(),
            end as int == subtree_end(v, i as int),
            i <= m <= end,
            forall|k: int| i <= k < m ==> !#[trigger] p(k),
        decreases end - m,
    {
        if same_text(ns[m].kind.as_str(), "identifier") {
            proof {
                lemma_first_where_found(i as int, m as int, end as int, p);
            }
            return Some(m);
        }
        m += 1;
    }
    proof {
        lemma_first_where_none(i as int, end as int, p);
    }
    None
}

fn define(ns: &Vec<SyntaxNode>, source: &str, i: usize, field: &str, construct: &'static str) -> (res: Vec<PublicName>)
    requires
        i < ns.len(),
    ensures
        name_views(res@) == defined(node_views(ns@), source@, i as int, field@, construct@),
{
    match find_child_by_field(ns, i, field) {
        None => {
            let res: Vec<PublicName> = Vec::new();
            assert(name_views(res@) =~= Seq::<PublicNameView>::empty());
            res
        },
        Some(target) => {
            let name_node = match find_first_identifier(ns, target) {
                Some(n) => n,
                None => target,
            };
            record(text_of(source, &ns[name_node]), ns[i].row, construct)
        },
    }
}

fn targets_of(ns: &Vec<SyntaxNode>, left: usize) -> (res: Vec<usize>)
    requires
        left < ns.len(),
    ensures
        res@.map_values(|k: usize| k as int) == assignment_targets(node_views(ns@), left as int),
        forall|t: int| 0 <= t < res.len() ==> #[trigger] res@[t] < ns.len(),
{
    let ghost v = node_views(ns@);
    let kind = ns[left].kind.as_str();
    let mut res: Vec<usize> = Vec::new();
    if same_text(kind, "identifier") {
        res.push(left);
        assert(res@.map_values(|k: usize| k as int) =~= seq![left as int]);
        return res;
    }
    if !(same_text(kind, "pattern_list") || same_text(kind, "tuple_pattern") || same_text(kind, "list_pattern")) {
        assert(res@.map_values(|k: usize| k as int) =~= Seq::<int>::empty());
        return res;
    }
    let ks = children(ns, left);
    let ghost kv = ks@.map_values(|k: usize| k as int);
    let mut t: usize = 0;
    while t < ks.len()
        invariant
            v == node_views(ns@),
            kv == ks@.map_values(|k: usize| k as int),
            forall|u: int| 0 <= u < ks.len() ==> #[trigger] ks@[u] < ns.len(),
            t <= ks.len(),
            res@.map_values(|k: usize| k as int) == identifiers_among(v, kv.take(t as int)),
            forall|u: int| 0 <= u < res.len() ==> #[trigger] res@[u] < ns.len(),
        decreases ks.len() - t,
    {
        assert(kv.take(t + 1).drop_last() == kv.take(t as int));
        if same_text(ns[ks[t]].kind.as_str(), "identifier") {
            res.push(ks[t]);
            assert(res@.map_values(|k: usize| k as int) =~= identifiers_among(v, kv.take(t as int)).push(
                ks@[t as int] as int,
            ));
        }
        t += 1;
    }
    assert(kv.take(ks.len() as int) == kv);
    res
}

fn assignment(ns: &Vec<SyntaxNode>, source: &str, i: usize) -> (res: Vec<PublicName>)
    requires
        i < ns.len(),
    ensures
        name_views(res@) == assignment_records(node_views(ns@), source@, i as int),
    decreases ns.len() - i,
{
    let ghost v = node_views(ns@);
    let mut out: Vec<PublicName> = Vec::new();
    assert(name_views(out@) =~= Seq::<PublicNameView>::empty());
    match find_child_by_field(ns, i, "left") {
        Some(l) => {
            let targets = targets_of(ns, l);
            let ghost tv = targets@.map_values(|k: usize| k as int);
            let mut t: usize = 0;
            while t < targets.len()
                invariant
                    v == node_views(ns@),
                    tv == targets@.map_values(|k: usize| k as int),
                    forall|u: int| 0 <= u < targets.len() ==> #[trigger] targets@[u] < ns.len(),
                    t <= targets.len(),
                    name_views(out@) == target_records(v, source@, tv.take(t as int)),
                decreases targets.len() - t,
            {
                assert(tv.take(t + 1).drop_last() == tv.take(t as int));
                let target = targets[t];
                let more = record(text_of(source, &ns[target]), ns[target].row, "assignment");
                append_names(&mut out, more);
                t += 1;
            }
            assert(tv.take(targets.len() as int) == tv);
        },
        None => {},
    }
    let ghost head = name_views(out@);
    assert(head == match child_by_field(v, i as int, "left"@) {
        Some(l) => target_records(v, source@, assignment_targets(v, l)),
        None => Seq::<PublicNameView>::empty(),
    });
    match find_child_by_field(ns, i, "right") {
        Some(r) => {
            if same_text(ns[r].kind.as_str(), "assignment") {
                let inner = assignment(ns, source, r);
                append_names(&mut out, inner);
            } else {
                assert(name_views(out@) =~= head + Seq::<PublicNameView>::empty());
            }
        },
        None => {
            assert(name_views(out@) =~= head + Seq::<PublicNameView>::empty());
        },
    }
    out
}

fn statement(ns: &Vec<SyntaxNode>, source: &str, i: usize) -> (res: Vec<PublicName>)
    requires
        i < ns.len(),
    ensures
        name_views(res@) == statement_exports(node_views(ns@), source@, i as int),
    decreases ns.len() - i,
{
    let ghost v = node_views(ns@);
    let kind = ns[i].kind.as_str();
    let empty: Vec<PublicName> = Vec::new();
    assert(name_views(empty@) =~= Seq::<PublicNameView>::empty());
    if same_text(kind, "import_statement") || same_text(kind, "import_from_statement")
        || same_text(kind, "future_import_statement") || same_text(kind, "if_statement")
        || same_text(kind, "try_statement") || same_text(kind, "while_statement")
        || same_text(kind, "for_statement") || same_text(kind, "with_statement")
        || same_text(kind, "match_statement") {
        empty
    } else if same_text(kind, "decorated_definition") {
        match find_child_by_field(ns, i, "definition") {
            Some(d) => statement(ns, source, d),
            None => empty,
        }
    } else if same_text(kind, "function_definition") {
        define(ns, source, i, "name", "def")
    } else if same_text(kind, "class_definition") {
        define(ns, source, i, "name", "class")
    } else if same_text(kind, "type_alias_statement") {
        define(ns, source, i, "left", "type")
    } else if same_text(kind, "expression_statement") {
        let ks = children(ns, i);
        let ghost kv = ks@.map_values(|k: usize| k as int);
        let mut out: Vec<PublicName> = Vec::new();
        let mut t: usize = 0;
        while t < ks.len()
            invariant
                v == node_views(ns@),
                kv == ks@.map_values(|k: usize| k as int),
                forall|u: int| 0 <= u < ks.len() ==> i < #[trigger] ks@[u] < ns.len(),
                t <= ks.len(),
                name_views(out@) == statement_records(v, source@, kv.take(t as int)),
            decreases ks.len() - t,
        {
            assert(kv.take(t + 1).drop_last() == kv.take(t as int));
            if same_text(ns[ks[t]].kind.as_str(), "assignment") {
                let more = assignment(ns, source, ks[t]);
                append_names(&mut out, more);
            } else {
                assert(name_views(out@) =~= name_views(out@) + Seq::<PublicNameView>::empty());
            }
            t += 1;
        }
        assert(kv.take(ks.len() as int) == kv);
        out
    } else {
        empty
    }
}

/// What a Python file's parse tree — its nodes in document order, the
/// root first — says the module is.
pub fn python_module_of(ns: &Vec<SyntaxNode>, source: &str) -> (res: Module)
    ensures
        res@ == python_module(node_views(ns@), source@),
        rows_in_order(node_views(ns@)) && assignments_left_first(node_views(ns@)) ==> lines_in_order(res@.names),
{
    proof {
        if rows_in_order(node_views(ns@)) && assignments_left_first(node_views(ns@)) {
            lemma_python_exports_in_source_order(node_views(ns@), source@);
        }
    }
    let ghost v = node_views(ns@);
    let nothing: Vec<(usize, usize)> = Vec::new();
    assert(nothing@ == Seq::<(usize, usize)>::empty());
    if ns.len() == 0 {
        let mut module = Module::default();
        module.code_lines = code_lines(source, ns, &nothing);
        return module;
    }
    let ks = children(ns, 0);
    let ghost kv = ks@.map_values(|k: usize| k as int);
    let mut all: Vec<PublicName> = Vec::new();
    let mut t: usize = 0;
    while t < ks.len()
        invariant
            v == node_views(ns@),
            kv == ks@.map_values(|k: usize| k as int),
            forall|u: int| 0 <= u < ks.len() ==> #[trigger] ks@[u] < ns.len(),
            t <= ks.len(),
            name_views(all@) == module_exports(v, source@, kv.take(t as int)),
        decreases ks.len() - t,
    {
        assert(kv.take(t + 1).drop_last() == kv.take(t as int));
        let more = statement(ns, source, ks[t]);
        append_names(&mut all, more);
        t += 1;
    }
    assert(kv.take(ks.len() as int) == kv);
    let names = keep_first_of_each(&all);
    let code = code_lines(source, ns, &nothing);
    Module { names, has_syntax_errors: ns[0].has_error, code_lines: code }
}

impl LanguageProfile for Python {
    open spec fn reading(&self, source: Seq<char>) -> ModuleView {
        python_reading(source)
    }

    open spec fn spoken(&self) -> Language {
        Language::Python
    }

    fn language(&self) -> (res: Language) {
        Language::Python
    }

    fn read(&self, source: &str) -> (res: Module)
        ensures
            lines_in_order(res@.names),
    {
        let ns = match parse(source, Grammar::Python) {
            Parsed::NoGrammar => return Module::default(),
            Parsed::NoTree => {
                let mut module = Module::default();
                module.has_syntax_errors = true;
                return module;
            },
            Parsed::Nodes(ns) => ns,
        };
        python_module_of(&ns, source)
    }
}

} // verus!
