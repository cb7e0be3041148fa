//! Rust's answer to the seam question.
//!
//! Exported means "carries a visibility modifier" — `pub`, `pub(crate)`,
//! `pub(super)`, or `pub(in path)`. A bare item is private, which is the
//! exact analogue of Python's `_helper`, except that here the compiler
//! enforces it. `pub(crate)` counts: it is the module's surface to the rest
//! of the crate.

use super::code_lines::{code_line_count, code_lines};
use super::module::empty_module;
use super::public_name::{
    first_of_each, keep_first_of_each, keeps_name, lemma_first_of_each_is_unique,
    lemma_first_of_each_keeps_order, lines_in_order, name_views,
};
use super::syntax::{
    child_by_field, child_of_kind, children, find_child_by_field, find_child_of_kind, kids,
    lemma_first_where_bounds, lemma_kids_before_increase, no_deeper, rows_in_order, subtree_end,
    node_text, node_views, parse, syntax_of, text_of, Grammar, NodeView, Parsed, ParsedView,
    SyntaxNode,
};
use super::{LanguageProfile, Module, ModuleView, PublicName, PublicNameView};
use crate::config::Language;
use crate::text::{chars_of, contains_chars, contains_seq, same_text, strip_spaces, without_spaces};
use vstd::prelude::*;

verus! {

pub struct Rust;

/// The keyword an item node stands for, or `None` for nodes that declare no
/// module-level name of their own: `mod`, `use`, `impl`, `extern crate` and
/// attributes either name a file, re-export, or attach to something already
/// counted.
pub open spec fn rust_construct(kind: Seq<char>) -> Option<Seq<char>> {
    if kind == "function_item"@ {
        Some("fn"@)
    } else if kind == "struct_item"@ {
        Some("struct"@)
    } else if kind == "enum_item"@ {
        Some("enum"@)
    } else if kind == "trait_item"@ {
        Some("trait"@)
    } else if kind == "union_item"@ {
        Some("union"@)
    } else if kind == "type_item"@ {
        Some("type"@)
    } else if kind == "const_item"@ {
        Some("const"@)
    } else if kind == "static_item"@ {
        Some("static"@)
    } else if kind == "macro_definition"@ {
        Some("macro_rules"@)
    } else {
        None
    }
}

/// Whether a `#[macro_export]` attribute sits among the siblings before the
/// `t`-th top-level item, looking back through attributes and comments only.
pub open spec fn macro_export_before(ns: Seq<NodeView>, source: Seq<char>, items: Seq<int>, t: int) -> bool
    decreases t,
{
    if t <= 0 {
        false
    } else {
        let node = ns[items[t - 1]];
        if node.kind == "attribute_item"@ && contains_seq(node_text(source, node), "macro_export"@) {
            true
        } else if node.kind == "attribute_item"@ || contains_seq(node.kind, "comment"@) {
            macro_export_before(ns, source, items, t - 1)
        } else {
            false
        }
    }
}

/// Whether the `t`-th top-level item is exported: `macro_rules!` only via
/// `#[macro_export]`, everything else via a visibility modifier.
pub open spec fn rust_exported(ns: Seq<NodeView>, source: Seq<char>, items: Seq<int>, t: int) -> bool {
    let item = items[t];
    if ns[item].kind == "macro_definition"@ {
        macro_export_before(ns, source, items, t)
    } else {
        child_of_kind(ns, item, "visibility_modifier"@) is Some
    }
}

/// The span of a `#[cfg(test)] mod tests { … }` block, attribute included.
pub open spec fn cfg_test_span(ns: Seq<NodeView>, source: Seq<char>, items: Seq<int>, t: int) -> Option<(usize, usize)> {
    let item = items[t];
    if ns[item].kind == "mod_item"@ && t > 0 && without_spaces(node_text(source, ns[items[t - 1]]))
        == "#[cfg(test)]"@ {
        Some((ns[items[t - 1]].start, ns[item].end))
    } else {
        None
    }
}

/// The export the `t`-th top-level item makes, if any.
pub open spec fn rust_export(ns: Seq<NodeView>, source: Seq<char>, items: Seq<int>, t: int) -> Option<PublicNameView> {
    let item = items[t];
    match rust_construct(ns[item].kind) {
        None => None,
        Some(construct) => if !rust_exported(ns, source, items, t) {
            None
        } else {
            match child_by_field(ns, item, "name"@) {
                None => None,
                Some(name) => Some(
                    PublicNameView {
                        name: node_text(source, ns[name]),
                        construct,
                        line: line_after(ns[item].row),
                    },
                ),
            }
        },
    }
}

/// Over the first `t` top-level items: the exports, and the spans that do
/// not ship.
pub open spec fn rust_scan(ns: Seq<NodeView>, source: Seq<char>, items: Seq<int>, t: int) -> (
    Seq<PublicNameView>,
    Seq<(usize, usize)>,
)
    decreases t,
{
    if t <= 0 {
        (Seq::empty(), Seq::empty())
    } else {
        let (names, spans) = rust_scan(ns, source, items, t - 1);
        let spans = match cfg_test_span(ns, source, items, t - 1) {
            Some(s) => spans.push(s),
            None => spans,
        };
        let names = match rust_export(ns, source, items, t - 1) {
            Some(n) => names.push(n),
            None => names,
        };
        (names, spans)
    }
}

/// The 1-based line of a 0-based row, wrapping as unchecked arithmetic does.
pub open spec fn line_after(row: usize) -> usize {
    if row == usize::MAX {
        0
    } else {
        (row + 1) as usize
    }
}

pub fn next_line(row: usize) -> (res: usize)
    ensures
        res == line_after(row),
{
    if row == usize::MAX {
        0
    } else {
        row + 1
    }
}

/// What a Rust file's parse tree says the module is: its exported names in
/// source order, keeping the first of each name (a type and a function may
/// share one, living in different namespaces).
pub open spec fn rust_module(ns: Seq<NodeView>, source: Seq<char>) -> ModuleView {
    if ns.len() == 0 {
        ModuleView { code_lines: code_line_count(source, ns, Seq::empty()) as usize, ..empty_module() }
    } else {
        let items = kids(ns, 0);
        let (names, spans) = rust_scan(ns, source, items, items.len() as int);
        ModuleView {
            names: first_of_each(names, names.len() as int),
            has_syntax_errors: ns[0].has_error,
            code_lines: code_line_count(source, ns, spans) as usize,
        }
    }
}

proof fn lemma_scan_in_line_order(ns: Seq<NodeView>, source: Seq<char>, items: Seq<int>, t: int)
    requires
        rows_in_order(ns),
        0 <= t <= items.len(),
        forall|a: int, b: int| 0 <= a < b < items.len() ==> #[trigger] items[a] < #[trigger] items[b],
        forall|a: int| 0 <= a < items.len() ==> 0 <= #[trigger] items[a] < ns.len(),
    ensures
        lines_in_order(rust_scan(ns, source, items, t).0),
        t > 0 ==> forall|k: int|
            0 <= k < rust_scan(ns, source, items, t).0.len() ==> #[trigger] rust_scan(ns, source, items, t).0[k].line
                <= ns[items[t - 1]].row + 1,
    decreases t,
{
    if t > 0 {
        lemma_scan_in_line_order(ns, source, items, t - 1);
        let before = rust_scan(ns, source, items, t - 1).0;
        let row = ns[items[t - 1]].row;
        assert(row < usize::MAX);
        if t > 1 {
            assert(items[t - 2] < items[t - 1]);
            assert(ns[items[t - 2]].row <= row);
        }
        assert forall|k: int| 0 <= k < before.len() implies #[trigger] before[k].line <= row + 1 by {}
        match rust_export(ns, source, items, t - 1) {
            Some(n) => {
                let names = before.push(n);
                assert(rust_scan(ns, source, items, t).0 == names);
                assert(n.line == row + 1);
                assert forall|a: int, b: int| 0 <= a < b < names.len() implies #[trigger] names[a].line
                    <= #[trigger] names[b].line by {
                    assert(names[a] == before[a]);
                    if b < before.len() {
                        assert(names[b] == before[b]);
                    }
                }
                assert forall|k: int| 0 <= k < names.len() implies #[trigger] names[k].line <= row + 1 by {
                    if k < before.len() {
                        assert(names[k] == before[k]);
                    }
                }
            },
            None => {},
        }
    }
}

/// A Rust module's exports come in source order, for any parse tree whose
/// nodes start on rows that never decrease along the list — which the
/// parser's document order gives.
pub proof fn lemma_rust_exports_in_source_order(ns: Seq<NodeView>, source: Seq<char>)
    requires
        rows_in_order(ns),
    ensures
        lines_in_order(rust_module(ns, source).names),
{
    if ns.len() > 0 {
        lemma_first_where_bounds(1, ns.len() as int, no_deeper(ns, 0));
        let items = kids(ns, 0);
        lemma_kids_before_increase(ns, 0, subtree_end(ns, 0));
        lemma_scan_in_line_order(ns, source, items, items.len() as int);
        let names = rust_scan(ns, source, items, items.len() as int).0;
        lemma_first_of_each_keeps_order(names, names.len() as int);
    }
}

/// Each item the scan over the first `n` top-level items exports is among
/// the names it collects.
proof fn lemma_scan_collects_exports(ns: Seq<NodeView>, source: Seq<char>, items: Seq<int>, t: int, n: int)
    requires
        0 <= t < n,
        rust_export(ns, source, items, t) is Some,
    ensures
        exists|k: int|
            0 <= k < rust_scan(ns, source, items, n).0.len() && #[trigger] rust_scan(ns, source, items, n).0[k]
                == rust_export(ns, source, items, t)->0,
    decreases n,
{
    let before = rust_scan(ns, source, items, n - 1).0;
    let all = rust_scan(ns, source, items, n).0;
    if t < n - 1 {
        lemma_scan_collects_exports(ns, source, items, t, n - 1);
        let k = choose|k: int| 0 <= k < before.len() && #[trigger] before[k] == rust_export(ns, source, items, t)->0;
        match rust_export(ns, source, items, n - 1) {
            Some(x) => assert(all == before.push(x) && all[k] == before[k]),
            None => assert(all == before),
        }
    } else {
        assert(all[before.len() as int] == rust_export(ns, source, items, t)->0);
    }
}

/// Every top-level item of a named kind that carries a visibility modifier
/// is exported under its name, with the keyword of its kind — `fn`,
/// `struct`, `enum`, `trait`, `union`, `type`, `const` or `static` — on the
/// line it starts on, and the module lists that name.
pub proof fn lemma_public_items_are_exported(
    ns: Seq<NodeView>,
    source: Seq<char>,
    t: int,
    name: int,
    keyword: Seq<char>,
)
    requires
        ns.len() > 0,
        0 <= t < kids(ns, 0).len(),
        ({
            let kind = ns[kids(ns, 0)[t]].kind;
            ||| kind == "function_item"@ && keyword == "fn"@
            ||| kind == "struct_item"@ && keyword == "struct"@
            ||| kind == "enum_item"@ && keyword == "enum"@
            ||| kind == "trait_item"@ && keyword == "trait"@
            ||| kind == "union_item"@ && keyword == "union"@
            ||| kind == "type_item"@ && keyword == "type"@
            ||| kind == "const_item"@ && keyword == "const"@
            ||| kind == "static_item"@ && keyword == "static"@
        }),
        child_of_kind(ns, kids(ns, 0)[t], "visibility_modifier"@) is Some,
        child_by_field(ns, kids(ns, 0)[t], "name"@) == Some(name),
    ensures
        rust_export(ns, source, kids(ns, 0), t) == Some(
            PublicNameView {
                name: node_text(source, ns[name]),
                construct: keyword,
                line: line_after(ns[kids(ns, 0)[t]].row),
            },
        ),
        keeps_name(rust_module(ns, source).names, node_text(source, ns[name])),
{
    let items = kids(ns, 0);
    let kind = ns[items[t]].kind;
    reveal_strlit("function_item");
    reveal_strlit("struct_item");
    reveal_strlit("enum_item");
    reveal_strlit("trait_item");
    reveal_strlit("union_item");
    reveal_strlit("type_item");
    reveal_strlit("const_item");
    reveal_strlit("static_item");
    reveal_strlit("macro_definition");
    assert("function_item"@.len() == 13 && "macro_definition"@.len() == 16);
    assert("struct_item"@.len() == 11 && "static_item"@.len() == 11);
    assert("enum_item"@.len() == 9 && "type_item"@.len() == 9);
    assert("trait_item"@.len() == 10 && "union_item"@.len() == 10 && "const_item"@.len() == 10);
    assert("struct_item"@[2] == 'r' && "static_item"@[2] == 'a');
    assert("enum_item"@[0] == 'e' && "type_item"@[0] == 't');
    assert("trait_item"@[0] == 't' && "union_item"@[0] == 'u' && "const_item"@[0] == 'c');
    assert(rust_construct(kind) == Some(keyword));
    assert(kind != "macro_definition"@);
    lemma_first_where_bounds(1, ns.len() as int, no_deeper(ns, 0));
    lemma_kids_before_increase(ns, 0, subtree_end(ns, 0));
    lemma_scan_collects_exports(ns, source, items, t, items.len() as int);
    let names = rust_scan(ns, source, items, items.len() as int).0;
    let k = choose|k: int| 0 <= k < names.len() && #[trigger] names[k] == rust_export(ns, source, items, t)->0;
    lemma_first_of_each_is_unique(names, names.len() as int);
    assert(keeps_name(first_of_each(names, names.len() as int), names[k].name));
}

/// Only items of a named kind are exported, each under the keyword of its
/// kind and its own name: an item other than `macro_rules!` only with a
/// visibility modifier. `mod`, `use`, `impl` and the like export nothing.
pub proof fn lemma_exports_come_from_named_items(ns: Seq<NodeView>, source: Seq<char>, items: Seq<int>, t: int)
    ensures
        rust_export(ns, source, items, t) matches Some(x) ==> {
            let kind = ns[items[t]].kind;
            &&& {
                ||| kind == "function_item"@ && x.construct == "fn"@
                ||| kind == "struct_item"@ && x.construct == "struct"@
                ||| kind == "enum_item"@ && x.construct == "enum"@
                ||| kind == "trait_item"@ && x.construct == "trait"@
                ||| kind == "union_item"@ && x.construct == "union"@
                ||| kind == "type_item"@ && x.construct == "type"@
                ||| kind == "const_item"@ && x.construct == "const"@
                ||| kind == "static_item"@ && x.construct == "static"@
                ||| kind == "macro_definition"@ && x.construct == "macro_rules"@
            }
            &&& kind != "macro_definition"@ ==> child_of_kind(ns, items[t], "visibility_modifier"@) is Some
            &&& child_by_field(ns, items[t], "name"@) matches Some(n) && x.name == node_text(source, ns[n])
            &&& x.line == line_after(ns[items[t]].row)
        },
{
}

/// What reading a Rust source text gives.
pub open spec fn rust_reading(source: Seq<char>) -> ModuleView {
    match syntax_of(source, Grammar::Rust) {
        ParsedView::NoGrammar => empty_module(),
        ParsedView::NoTree => ModuleView { has_syntax_errors: true, ..empty_module() },
        ParsedView::Nodes(ns) => rust_module(ns, source),
    }
}

fn construct(kind: &str) -> (res: Option<&'static str>)
    ensures
        match res {
            Some(c) => rust_construct(kind@) == Some(c@),
            None => rust_construct(kind@) is None,
        },
{
    if same_text(kind, "function_item") {
        Some("fn")
    } else if same_text(kind, "struct_item") {
        Some("struct")
    } else if same_text(kind, "enum_item") {
        Some("enum")
    } else if same_text(kind, "trait_item") {
        Some("trait")
    } else if same_text(kind, "union_item") {
        Some("union")
    } else if same_text(kind, "type_item") {
        Some("type")
    } else if same_text(kind, "const_item") {
        Some("const")
    } else if same_text(kind, "static_item") {
        Some("static")
    } else if same_text(kind, "macro_definition") {
        Some("macro_rules")
    } else {
        None
    }
}

fn has_macro_export(ns: &Vec<SyntaxNode>, source: &str, items: &Vec<usize>, t: usize) -> (res: bool)
    requires
        t <= items.len(),
        forall|u: int| 0 <= u < items.len() ==> #[trigger] items@[u] < ns.len(),
    ensures
        res == macro_export_before(node_views(ns@), source@, items@.map_values(|k: usize| k as int), t as int),
{
    let ghost v = node_views(ns@);
    let ghost its = items@.map_values(|k: usize| k as int);
    let marker = chars_of("macro_export");
    let comment = chars_of("comment");
    let mut u: usize = t;
    while u > 0
        invariant
            v == node_views(ns@),
            its == items@.map_values(|k: usize| k as int),
            u <= t <= items.len(),
            forall|w: int| 0 <= w < items.len() ==> #[trigger] items@[w] < ns.len(),
            marker@ == "macro_export"@,
            comment@ == "comment"@,
            macro_export_before(v, source@, its, t as int) == macro_export_before(v, source@, its, u as int),
        decreases u,
    {
        let node = &ns[items[u - 1]];
        assert(v[its[u - 1]] == node@);
        let is_attribute = same_text(node.kind.as_str(), "attribute_item");
        if is_attribute && contains_chars(&chars_of(text_of(source, node).as_str()), &marker) {
            return true;
        }
        if !is_attribute && !contains_chars(&chars_of(node.kind.as_str()), &comment) {
            return false;
        }
        u -= 1;
    }
    false
}

fn cfg_test_range(ns: &Vec<SyntaxNode>, source: &str, items: &Vec<usize>, t: usize) -> (res: Option<(usize, usize)>)
    requires
        t < items.len(),
        forall|u: int| 0 <= u < items.len() ==> #[trigger] items@[u] < ns.len(),
    ensures
        res == cfg_test_span(node_views(ns@), source@, items@.map_values(|k: usize| k as int), t as int),
{
    let ghost v = node_views(ns@);
    let item = &ns[items[t]];
    if !same_text(item.kind.as_str(), "mod_item") || t == 0 {
        return None;
    }
    let attribute = &ns[items[t - 1]];
    let squeezed = strip_spaces(&chars_of(text_of(source, attribute).as_str()));
    if same_text(crate::text::string_of(squeezed.as_slice()).as_str(), "#[cfg(test)]") {
        Some((attribute.start, item.end))
    } else {
        None
    }
}

fn export_of(ns: &Vec<SyntaxNode>, source: &str, items: &Vec<usize>, t: usize) -> (res: Option<PublicName>)
    requires
        t < items.len(),
        forall|u: int| 0 <= u < items.len() ==> #[trigger] items@[u] < ns.len(),
    ensures
        match res {
            Some(n) => rust_export(node_views(ns@), source@, items@.map_values(|k: usize| k as int), t as int) == Some(n@),
            None => rust_export(node_views(ns@), source@, items@.map_values(|k: usize| k as int), t as int) is None,
        },
{
    let ghost v = node_views(ns@);
    let index = items[t];
    let item = &ns[index];
    let construct = match construct(item.kind.as_str()) {
        Some(c) => c,
        None => return None,
    };
    let exported = if same_text(item.kind.as_str(), "macro_definition") {
        has_macro_export(ns, source, items, t)
    } else {
        find_child_of_kind(ns, index, "visibility_modifier").is_some()
    };
    if !exported {
        return None;
    }
    let name = match find_child_by_field(ns, index, "name") {
        Some(j) => j,
        None => return None,
    };
    Some(PublicName { name: text_of(source, &ns[name]), construct, line: next_line(item.row) })
}

/// What a Rust file's parse tree — its nodes in document order, the root
/// first — says the module is.
pub fn rust_module_of(ns: &Vec<SyntaxNode>, source: &str) -> (res: Module)
    ensures
        res@ == rust_module(node_views(ns@), source@),
        rows_in_order(node_views(ns@)) ==> lines_in_order(res@.names),
{
    proof {
        if rows_in_order(node_views(ns@)) {
            lemma_rust_exports_in_source_order(node_views(ns@), source@);
        }
    }
    let ghost v = node_views(ns@);
    if ns.len() == 0 {
        let mut module = Module::default();
        let nothing: Vec<(usize, usize)> = Vec::new();
        module.code_lines = code_lines(source, ns, &nothing);
        assert(nothing@ == Seq::<(usize, usize)>::empty());
        return module;
    }
    let items = children(ns, 0);
    let ghost its = items@.map_values(|k: usize| k as int);
    let mut names: Vec<PublicName> = Vec::new();
    let mut not_shipped: Vec<(usize, usize)> = Vec::new();
    let mut t: usize = 0;
    while t < items.len()
        invariant
            v == node_views(ns@),
            its == items@.map_values(|k: usize| k as int),
            its == kids(v, 0),
            forall|u: int| 0 <= u < items.len() ==> 0 < #[trigger] items@[u] < ns.len(),
            t <= items.len(),
            (name_views(names@), not_shipped@) == rust_scan(v, source@, its, t as int),
        decreases items.len() - t,
    {
        match cfg_test_range(ns, source, &items, t) {
            Some(range) => not_shipped.push(range),
            None => {},
        }
        match export_of(ns, source, &items, t) {
            Some(name) => {
                names.push(name);
                assert(name_views(names@) =~= rust_scan(v, source@, its, t as int).0.push(name@));
            },
            None => {},
        }
        t += 1;
    }
    let code = code_lines(source, ns, &not_shipped);
    let names = keep_first_of_each(&names);
    Module { names, has_syntax_errors: ns[0].has_error, code_lines: code }
}

impl LanguageProfile for Rust {
    open spec fn reading(&self, source: Seq<char>) -> ModuleView {
        rust_reading(source)
    }

    open spec fn spoken(&self) -> Language {
        Language::Rust
    }

    fn language(&self) -> (res: Language) {
        Language::Rust
    }

    fn read(&self, source: &str) -> (res: Module)
        ensures
            lines_in_order(res@.names),
    {
        let ns = match parse(source, Grammar::Rust) {
            Parsed::NoGrammar => return Module::default(),
            Parsed::NoTree => {
                let mut module = Module::default();
                module.has_syntax_errors = true;
                return module;
            },
            Parsed::Nodes(ns) => ns,
        };
        rust_module_of(&ns, source)
    }
}

} // verus!
