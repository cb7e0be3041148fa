//! The order a report lists its diagnostics in: by path, then line, then
//! tag, so output never depends on filesystem order. Diagnostics that tie
//! keep the order they were found in.

use crate::diagnostics::diagnostic::diagnostic_views;
use crate::diagnostics::{Diagnostic, DiagnosticView};
use crate::text::{lemma_text_before_transitive, text_before, text_precedes};
use vstd::prelude::*;
use vstd::seq_lib::lemma_multiset_commutative;

verus! {

/// A diagnostic's line for ordering: a line-less one sorts as line 0.
pub open spec fn line_key(d: DiagnosticView) -> int {
    match d.line {
        Some(l) => l as int,
        None => 0,
    }
}

/// Whether `a` sorts strictly before `b`: by path, then line, then tag.
pub open spec fn goes_before(a: DiagnosticView, b: DiagnosticView) -> bool {
    ||| text_before(a.path, b.path)
    ||| a.path == b.path && line_key(a) < line_key(b)
    ||| a.path == b.path && line_key(a) == line_key(b) && a.tag.rank() < b.tag.rank()
}

/// Where a diagnostic joins an ordered list: after every entry it does not
/// sort before.
pub open spec fn insertion_point(sorted: Seq<DiagnosticView>, d: DiagnosticView) -> int
    decreases sorted.len(),
{
    if sorted.len() == 0 {
        0
    } else if goes_before(d, sorted.last()) {
        insertion_point(sorted.drop_last(), d)
    } else {
        sorted.len() as int
    }
}

/// Diagnostics in report order: a stable sort by path, line and tag.
pub open spec fn report_order(ds: Seq<DiagnosticView>) -> Seq<DiagnosticView>
    decreases ds.len(),
{
    if ds.len() == 0 {
        Seq::empty()
    } else {
        let sorted = report_order(ds.drop_last());
        sorted.insert(insertion_point(sorted, ds.last()), ds.last())
    }
}

/// Whether a list is in report order: no entry sorts before an earlier one.
pub open spec fn in_report_order(ds: Seq<DiagnosticView>) -> bool {
    forall|i: int, j: int| 0 <= i < j < ds.len() ==> !goes_before(#[trigger] ds[j], #[trigger] ds[i])
}

proof fn lemma_text_before_asymmetric(a: Seq<char>, b: Seq<char>)
    ensures
        text_before(a, b) ==> !text_before(b, a),
    decreases a.len(),
{
    if a.len() > 0 && b.len() > 0 && a[0] == b[0] {
        lemma_text_before_asymmetric(a.skip(1), b.skip(1));
    }
}

proof fn lemma_text_before_total(a: Seq<char>, b: Seq<char>)
    ensures
        a != b ==> text_before(a, b) || text_before(b, a),
    decreases a.len(),
{
    if a.len() > 0 && b.len() > 0 && a[0] == b[0] {
        lemma_text_before_total(a.skip(1), b.skip(1));
        if a.skip(1) == b.skip(1) {
            assert(a =~= seq![a[0]] + a.skip(1));
            assert(b =~= seq![b[0]] + b.skip(1));
        }
    } else if a.len() == 0 && b.len() == 0 {
        assert(a =~= b);
    } else if a.len() > 0 && b.len() > 0 {
        assert(a[0] as int != b[0] as int);
    }
}

/// Not sorting before is transitive: keys form a total preorder.
proof fn lemma_not_before_transitive(a: DiagnosticView, b: DiagnosticView, c: DiagnosticView)
    requires
        !goes_before(a, b),
        !goes_before(b, c),
    ensures
        !goes_before(a, c),
{
    lemma_text_before_asymmetric(a.path, b.path);
    lemma_text_before_asymmetric(b.path, c.path);
    lemma_text_before_asymmetric(a.path, c.path);
    lemma_text_before_total(a.path, b.path);
    lemma_text_before_total(b.path, c.path);
    lemma_text_before_total(a.path, c.path);
    lemma_text_before_transitive(c.path, b.path, a.path);
    lemma_text_before_transitive(a.path, c.path, b.path);
    lemma_text_before_transitive(c.path, a.path, b.path);
    lemma_text_before_transitive(b.path, a.path, c.path);
    lemma_text_before_transitive(b.path, c.path, a.path);
    lemma_text_before_transitive(a.path, b.path, c.path);
}

proof fn lemma_before_asymmetric(a: DiagnosticView, b: DiagnosticView)
    ensures
        goes_before(a, b) ==> !goes_before(b, a),
{
    lemma_text_before_asymmetric(a.path, b.path);
}

/// The entries from the insertion point on are exactly those the
/// diagnostic sorts before, scanning back from the end.
proof fn lemma_insertion_point(sorted: Seq<DiagnosticView>, d: DiagnosticView)
    ensures
        0 <= insertion_point(sorted, d) <= sorted.len(),
        forall|i: int|
            insertion_point(sorted, d) <= i < sorted.len() ==> goes_before(d, #[trigger] sorted[i]),
        insertion_point(sorted, d) > 0 ==> !goes_before(d, sorted[insertion_point(sorted, d) - 1]),
    decreases sorted.len(),
{
    if sorted.len() > 0 && goes_before(d, sorted.last()) {
        let rest = sorted.drop_last();
        lemma_insertion_point(rest, d);
        assert forall|i: int|
            insertion_point(sorted, d) <= i < sorted.len() implies goes_before(d, #[trigger] sorted[i]) by {
            if i < rest.len() {
                assert(rest[i] == sorted[i]);
            }
        }
        if insertion_point(sorted, d) > 0 {
            assert(rest[insertion_point(sorted, d) - 1] == sorted[insertion_point(sorted, d) - 1]);
        }
    }
}

/// A report-ordered list stays in report order when a diagnostic joins it
/// at its insertion point.
proof fn lemma_insert_keeps_order(sorted: Seq<DiagnosticView>, d: DiagnosticView)
    requires
        in_report_order(sorted),
    ensures
        in_report_order(sorted.insert(insertion_point(sorted, d), d)),
{
    let p = insertion_point(sorted, d);
    lemma_insertion_point(sorted, d);
    let r = sorted.insert(p, d);
    assert forall|i: int, j: int| 0 <= i < j < r.len() implies !goes_before(#[trigger] r[j], #[trigger] r[i]) by {
        if j < p {
            assert(r[i] == sorted[i] && r[j] == sorted[j]);
        } else if j == p {
            assert(r[i] == sorted[i]);
            if i < p - 1 {
                assert(!goes_before(sorted[p - 1], sorted[i]));
                lemma_not_before_transitive(d, sorted[p - 1], sorted[i]);
            }
        } else if i == p {
            assert(r[j] == sorted[j - 1]);
            lemma_before_asymmetric(d, sorted[j - 1]);
        } else if i < p {
            assert(r[i] == sorted[i] && r[j] == sorted[j - 1]);
        } else {
            assert(r[i] == sorted[i - 1] && r[j] == sorted[j - 1]);
        }
    }
}

/// Report order is what it says: no diagnostic is listed after one it sorts
/// before.
pub proof fn lemma_report_order_is_sorted(ds: Seq<DiagnosticView>)
    ensures
        in_report_order(report_order(ds)),
    decreases ds.len(),
{
    if ds.len() > 0 {
        lemma_report_order_is_sorted(ds.drop_last());
        lemma_insert_keeps_order(report_order(ds.drop_last()), ds.last());
    }
}

/// Report order drops and duplicates nothing: it holds each diagnostic as
/// often as the findings do.
pub proof fn lemma_report_order_permutes(ds: Seq<DiagnosticView>)
    ensures
        report_order(ds).to_multiset() == ds.to_multiset(),
    decreases ds.len(),
{
    broadcast use vstd::multiset::group_multiset_axioms;

    if ds.len() == 0 {
        assert(ds =~= Seq::<DiagnosticView>::empty());
    } else {
        let s = report_order(ds.drop_last());
        let d = ds.last();
        let p = insertion_point(s, d);
        lemma_report_order_permutes(ds.drop_last());
        lemma_insertion_point(s, d);
        assert(s.insert(p, d) =~= s.take(p) + (seq![d] + s.skip(p)));
        assert(s =~= s.take(p) + s.skip(p));
        assert(ds =~= ds.drop_last() + seq![d]);
        lemma_multiset_commutative(s.take(p), seq![d] + s.skip(p));
        lemma_multiset_commutative(seq![d], s.skip(p));
        lemma_multiset_commutative(s.take(p), s.skip(p));
        lemma_multiset_commutative(ds.drop_last(), seq![d]);
        assert(report_order(ds) == s.insert(p, d));
        assert(report_order(ds).to_multiset() == (s.take(p) + (seq![d] + s.skip(p))).to_multiset());
        assert(s.to_multiset() == (s.take(p) + s.skip(p)).to_multiset());
        assert(ds.to_multiset() == (ds.drop_last() + seq![d]).to_multiset());
        assert(report_order(ds).to_multiset() =~= ds.to_multiset());
    }
}

/// Whether two diagnostics tie in report order: same path, line and tag.
pub open spec fn same_key(a: DiagnosticView, b: DiagnosticView) -> bool {
    a.path == b.path && line_key(a) == line_key(b) && a.tag.rank() == b.tag.rank()
}

/// Diagnostics that neither sort before the other tie.
proof fn lemma_tie(a: DiagnosticView, b: DiagnosticView)
    ensures
        !goes_before(a, b) && !goes_before(b, a) ==> same_key(a, b),
        !goes_before(a, a),
{
    lemma_text_before_total(a.path, b.path);
    lemma_text_before_asymmetric(a.path, a.path);
}

/// Entries of a report-ordered list that sit between two tying entries tie
/// with them.
proof fn lemma_ties_span(y: Seq<DiagnosticView>, j: int, m: int)
    requires
        in_report_order(y),
        0 <= j <= m < y.len(),
        same_key(y[j], y[y.len() - 1]),
    ensures
        same_key(y[m], y[j]),
{
    let last = y.len() - 1;
    lemma_tie(y[m], y[j]);
    lemma_tie(y[j], y[j]);
    lemma_tie(y[m], y[m]);
    if m < last {
        assert(!goes_before(y[last], y[m]));
    }
    if j < m {
        assert(!goes_before(y[m], y[j]));
    }
    assert(!goes_before(y[j], y[m]));
}

/// Two report-ordered lists holding the same diagnostics agree on the key
/// at every position.
proof fn lemma_sorted_lists_agree_on_keys(x: Seq<DiagnosticView>, y: Seq<DiagnosticView>)
    requires
        in_report_order(x),
        in_report_order(y),
        x.to_multiset() == y.to_multiset(),
    ensures
        x.len() == y.len(),
        forall|i: int| 0 <= i < x.len() ==> same_key(#[trigger] x[i], y[i]),
    decreases x.len(),
{
    broadcast use vstd::seq_lib::group_to_multiset_ensures;
    broadcast use vstd::multiset::group_multiset_axioms;

    assert(x.len() == x.to_multiset().len());
    assert(y.len() == y.to_multiset().len());
    if x.len() > 0 {
        let n = x.len() as int;
        let u = x[n - 1];
        let v = y[n - 1];
        assert(x.contains(u));
        assert(x.to_multiset().count(u) > 0);
        assert(y.contains(u));
        let j = choose|j: int| 0 <= j < y.len() && y[j] == u;
        assert(y.to_multiset().count(v) > 0);
        assert(x.contains(v));
        let k = choose|k: int| 0 <= k < x.len() && x[k] == v;
        lemma_tie(u, v);
        lemma_tie(u, u);
        if j < n - 1 {
            assert(!goes_before(y[n - 1], y[j]));
        }
        if k < n - 1 {
            assert(!goes_before(x[n - 1], x[k]));
        }
        assert(same_key(u, v));
        let xs = x.drop_last();
        let ys = y.remove(j);
        assert(x.remove(n - 1) =~= xs);
        assert(xs.to_multiset() == x.to_multiset().remove(u));
        assert(ys.to_multiset() == y.to_multiset().remove(u));
        assert forall|a: int, b: int| 0 <= a < b < xs.len() implies !goes_before(#[trigger] xs[b], #[trigger] xs[a]) by {
            assert(xs[a] == x[a] && xs[b] == x[b]);
            assert(!goes_before(x[b], x[a]));
        }
        assert forall|a: int, b: int| 0 <= a < b < ys.len() implies !goes_before(#[trigger] ys[b], #[trigger] ys[a]) by {
            let ya = if a < j { a } else { a + 1 };
            let yb = if b < j { b } else { b + 1 };
            assert(ys[a] == y[ya] && ys[b] == y[yb]);
            assert(!goes_before(y[yb], y[ya]));
        }
        lemma_sorted_lists_agree_on_keys(xs, ys);
        assert forall|i: int| 0 <= i < x.len() implies same_key(#[trigger] x[i], y[i]) by {
            if i < n - 1 {
                assert(x[i] == xs[i]);
                assert(same_key(xs[i], ys[i]));
                if i >= j {
                    assert(ys[i] == y[i + 1]);
                    lemma_ties_span(y, j, i);
                    lemma_ties_span(y, j, i + 1);
                } else {
                    assert(ys[i] == y[i]);
                }
            }
        }
    }
}

/// The order a report lists its findings in depends only on which findings
/// there are, not on the order they were found in — so not on the order a
/// walk lists files and folders: lists holding the same findings come out
/// with the same path, line and tag at every position.
pub proof fn lemma_report_order_ignores_input_order(a: Seq<DiagnosticView>, b: Seq<DiagnosticView>)
    requires
        a.to_multiset() == b.to_multiset(),
    ensures
        report_order(a).len() == report_order(b).len(),
        forall|i: int|
            0 <= i < report_order(a).len() ==> same_key(#[trigger] report_order(a)[i], report_order(b)[i]),
{
    lemma_report_order_is_sorted(a);
    lemma_report_order_is_sorted(b);
    lemma_report_order_permutes(a);
    lemma_report_order_permutes(b);
    lemma_sorted_lists_agree_on_keys(report_order(a), report_order(b));
}

/// Whether `a` sorts strictly before `b` in report order.
fn sorts_before(a: &Diagnostic, b: &Diagnostic) -> (res: bool)
    ensures
        res == goes_before(a@, b@),
{
    if text_precedes(a.path.as_str(), b.path.as_str()) {
        return true;
    }
    if !text_precedes(b.path.as_str(), a.path.as_str()) {
        proof {
            lemma_text_before_total(a.path@, b.path@);
        }
    } else {
        proof {
            lemma_text_before_asymmetric(b.path@, a.path@);
        }
        return false;
    }
    let a_line = match a.line {
        Some(l) => l,
        None => 0,
    };
    let b_line = match b.line {
        Some(l) => l,
        None => 0,
    };
    a_line < b_line || (a_line == b_line && a.tag.index() < b.tag.index())
}

/// Diagnostics in report order.
pub fn sort_diagnostics(ds: Vec<Diagnostic>) -> (res: Vec<Diagnostic>)
    ensures
        diagnostic_views(res@) == report_order(diagnostic_views(ds@)),
{
    let ghost all = diagnostic_views(ds@);
    assert(all.len() == ds.len());
    let mut rest = ds;
    let mut out: Vec<Diagnostic> = Vec::new();
    let mut i: usize = 0;
    assert(diagnostic_views(out@) =~= report_order(all.take(0)));
    while rest.len() > 0
        invariant
            all.len() == i + rest.len(),
            all.len() <= usize::MAX,
            diagnostic_views(rest@) == all.skip(i as int),
            diagnostic_views(out@) == report_order(all.take(i as int)),
        decreases rest.len(),
    {
        let ghost before = diagnostic_views(out@);
        let ghost rest_before = rest@;
        let d = rest.remove(0);
        assert(d@ == all[i as int]) by {
            assert(diagnostic_views(rest_before)[0] == rest_before[0]@);
        }
        assert(diagnostic_views(rest@) =~= all.skip(i + 1)) by {
            assert(rest@ =~= rest_before.subrange(1, rest_before.len() as int));
            assert forall|k: int| 0 <= k < rest@.len() implies #[trigger] diagnostic_views(rest@)[k] == all.skip(i + 1)[k] by {
                assert(rest@[k] == rest_before[k + 1]);
                assert(diagnostic_views(rest_before)[k + 1] == all.skip(i as int)[k + 1]);
            }
        }
        let mut j: usize = out.len();
        assert(before.take(j as int) =~= before);
        while j > 0 && sorts_before(&d, &out[j - 1])
            invariant
                j <= out.len(),
                before == diagnostic_views(out@),
                insertion_point(before, d@) == insertion_point(before.take(j as int), d@),
            decreases j,
        {
            assert(before.take(j as int).drop_last() =~= before.take(j - 1));
            assert(before.take(j as int).last() == out@[j - 1]@);
            j -= 1;
        }
        proof {
            if j > 0 {
                assert(before.take(j as int).last() == out@[j - 1]@);
            }
        }
        assert(insertion_point(before, d@) == j);
        out.insert(j, d);
        assert(all.take(i + 1).drop_last() =~= all.take(i as int));
        assert(diagnostic_views(out@) =~= before.insert(j as int, d@));
        i += 1;
    }
    assert(all.take(i as int) =~= all);
    out
}

} // verus!
