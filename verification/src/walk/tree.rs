//! What one walk found.

use crate::text::{lemma_text_before_transitive, same_text, text_before, text_precedes, views};
use vstd::prelude::*;

verus! {

/// Project-root-relative paths, each as its components, sorted.
#[derive(Debug, Default)]
pub struct Tree {
    pub files: Vec<Vec<String>>,
    pub dirs: Vec<Vec<String>>,
}

/// Whether path `a` sorts before path `b`, as `Path`'s `<` orders them:
/// component by component, each in code-point order, and a path before any
/// longer one it begins.
pub open spec fn path_before(a: Seq<Seq<char>>, b: Seq<Seq<char>>) -> bool
    decreases a.len(),
{
    if b.len() == 0 {
        false
    } else if a.len() == 0 {
        true
    } else if a[0] != b[0] {
        text_before(a[0], b[0])
    } else {
        path_before(a.skip(1), b.skip(1))
    }
}

/// Whether paths come in order.
pub open spec fn paths_sorted(ps: Seq<Seq<Seq<char>>>) -> bool {
    forall|i: int, j: int| 0 <= i < j < ps.len() ==> !path_before(#[trigger] ps[j], #[trigger] ps[i])
}

/// The components of each path.
pub open spec fn path_views(ps: Seq<Vec<String>>) -> Seq<Seq<Seq<char>>> {
    ps.map_values(|p: Vec<String>| views(p@))
}

/// What a walk found, entry by entry: a path's components, and whether it
/// is a directory.
pub open spec fn entry_views(es: Seq<(Vec<String>, bool)>) -> Seq<(Seq<Seq<char>>, bool)> {
    es.map_values(|e: (Vec<String>, bool)| (views(e.0@), e.1))
}

/// The non-empty paths among some entries that are directories (`dir`), or
/// that are not.
pub open spec fn kept_paths(es: Seq<(Seq<Seq<char>>, bool)>, dir: bool) -> Seq<Seq<Seq<char>>>
    decreases es.len(),
{
    if es.len() == 0 {
        Seq::empty()
    } else {
        let before = kept_paths(es.drop_last(), dir);
        let e = es.last();
        if e.0.len() > 0 && e.1 == dir {
            before.push(e.0)
        } else {
            before
        }
    }
}

proof fn lemma_text_before_irreflexive(a: Seq<char>)
    ensures
        !text_before(a, a),
    decreases a.len(),
{
    if a.len() > 0 {
        lemma_text_before_irreflexive(a.skip(1));
    }
}

proof fn lemma_path_before_irreflexive(a: Seq<Seq<char>>)
    ensures
        !path_before(a, a),
    decreases a.len(),
{
    if a.len() > 0 {
        lemma_path_before_irreflexive(a.skip(1));
    }
}

proof fn lemma_path_before_transitive(a: Seq<Seq<char>>, b: Seq<Seq<char>>, c: Seq<Seq<char>>)
    ensures
        path_before(a, b) && path_before(b, c) ==> path_before(a, c),
    decreases a.len(),
{
    if a.len() > 0 && b.len() > 0 && c.len() > 0 {
        lemma_text_before_transitive(a[0], b[0], c[0]);
        lemma_text_before_irreflexive(a[0]);
        if a[0] == b[0] && b[0] == c[0] {
            lemma_path_before_transitive(a.skip(1), b.skip(1), c.skip(1));
        }
    }
}

/// Whether path `a` sorts before path `b`.
fn path_precedes(a: &Vec<String>, b: &Vec<String>) -> (res: bool)
    ensures
        res == path_before(views(a@), views(b@)),
{
    let ghost va = views(a@);
    let ghost vb = views(b@);
    let mut i: usize = 0;
    assert(va.skip(0) =~= va && vb.skip(0) =~= vb);
    while i < a.len() && i < b.len()
        invariant
            va == views(a@),
            vb == views(b@),
            i <= a.len(),
            i <= b.len(),
            path_before(va, vb) == path_before(va.skip(i as int), vb.skip(i as int)),
        decreases a.len() - i,
    {
        let ghost (x, y) = (va.skip(i as int), vb.skip(i as int));
        assert(x[0] == a@[i as int]@ && y[0] == b@[i as int]@);
        if !same_text(a[i].as_str(), b[i].as_str()) {
            return text_precedes(a[i].as_str(), b[i].as_str());
        }
        assert(x.skip(1) =~= va.skip(i + 1) && y.skip(1) =~= vb.skip(i + 1));
        i += 1;
    }
    i < b.len()
}

/// Puts a path into sorted paths, where it belongs.
fn insert_sorted(out: &mut Vec<Vec<String>>, x: Vec<String>)
    requires
        paths_sorted(path_views(old(out)@)),
    ensures
        paths_sorted(path_views(final(out)@)),
        path_views(final(out)@).to_multiset() == path_views(old(out)@).to_multiset().insert(views(x@)),
{
    let ghost xv = views(x@);
    let ghost before = path_views(out@);
    let n = out.len();
    let mut p: usize = 0;
    while p < n
        invariant
            n == out.len(),
            before == path_views(out@),
            xv == views(x@),
            p <= n,
            forall|k: int| 0 <= k < p ==> !path_before(xv, #[trigger] before[k]),
        ensures
            p <= n,
            forall|k: int| 0 <= k < p ==> !path_before(xv, #[trigger] before[k]),
            p < n ==> path_before(xv, before[p as int]),
        decreases n - p,
    {
        assert(before[p as int] == views(out@[p as int]@));
        if path_precedes(&x, &out[p]) {
            break;
        }
        p += 1;
    }
    out.insert(p, x);
    let ghost after = path_views(out@);
    assert(after =~= before.insert(p as int, xv));
    proof {
        vstd::seq_lib::to_multiset_insert(before, p as int, xv);
        assert forall|i: int, j: int| 0 <= i < j < after.len() implies !path_before(
            #[trigger] after[j],
            #[trigger] after[i],
        ) by {
            if j < p {
                assert(after[i] == before[i] && after[j] == before[j]);
            } else if j == p {
                assert(after[i] == before[i] && after[j] == xv);
            } else if i > p {
                assert(after[i] == before[i - 1] && after[j] == before[j - 1]);
            } else {
                assert(after[j] == before[j - 1]);
                if i == p {
                    assert(after[i] == xv);
                    lemma_path_before_transitive(before[j - 1], xv, before[p as int]);
                    lemma_path_before_irreflexive(before[p as int]);
                } else {
                    assert(after[i] == before[i]);
                }
            }
        }
    }
}

impl Tree {
    /// What a walk found, from its entries in any order: the non-empty
    /// paths, files apart from directories, each list sorted.
    pub fn from_entries(entries: Vec<(Vec<String>, bool)>) -> (res: Tree)
        ensures
            paths_sorted(path_views(res.files@)),
            paths_sorted(path_views(res.dirs@)),
            path_views(res.files@).to_multiset() == kept_paths(entry_views(entries@), false).to_multiset(),
            path_views(res.dirs@).to_multiset() == kept_paths(entry_views(entries@), true).to_multiset(),
    {
        broadcast use vstd::multiset::group_multiset_axioms, vstd::multiset::group_multiset_properties,
            vstd::seq_lib::group_to_multiset_ensures;

        let ghost all = entry_views(entries@);
        let mut rest = entries;
        let mut files: Vec<Vec<String>> = Vec::new();
        let mut dirs: Vec<Vec<String>> = Vec::new();
        assert(path_views(files@) =~= Seq::<Seq<Seq<char>>>::empty());
        assert(path_views(dirs@) =~= Seq::<Seq<Seq<char>>>::empty());
        assert(all == entry_views(rest@));
        assert(path_views(files@).to_multiset() =~= vstd::multiset::Multiset::empty());
        assert(path_views(dirs@).to_multiset() =~= vstd::multiset::Multiset::empty());
        while rest.len() > 0
            invariant
                paths_sorted(path_views(files@)),
                paths_sorted(path_views(dirs@)),
                kept_paths(all, false).to_multiset() == kept_paths(entry_views(rest@), false).to_multiset().add(
                    path_views(files@).to_multiset(),
                ),
                kept_paths(all, true).to_multiset() == kept_paths(entry_views(rest@), true).to_multiset().add(
                    path_views(dirs@).to_multiset(),
                ),
            decreases rest.len(),
        {
            let ghost es = entry_views(rest@);
            let (path, is_dir) = rest.pop().unwrap();
            assert(entry_views(rest@) =~= es.drop_last());
            let ghost pv = views(path@);
            assert(es.last() == (pv, is_dir));
            assert(pv.len() == path@.len());
            let ghost (kf, kd) = (kept_paths(es.drop_last(), false), kept_paths(es.drop_last(), true));
            if path.len() > 0 {
                if is_dir {
                    insert_sorted(&mut dirs, path);
                    assert(kept_paths(es, true) == kd.push(pv));
                    proof {
                        vstd::seq_lib::to_multiset_build(kd, pv);
                    }
                    assert(kept_paths(es, true).to_multiset() =~= kd.to_multiset().insert(pv));
                } else {
                    insert_sorted(&mut files, path);
                    assert(kept_paths(es, false) == kf.push(pv));
                    proof {
                        vstd::seq_lib::to_multiset_build(kf, pv);
                    }
                    assert(kept_paths(es, false).to_multiset() =~= kf.to_multiset().insert(pv));
                }
            }
            assert(kept_paths(all, false).to_multiset() =~= kept_paths(entry_views(rest@), false).to_multiset().add(
                path_views(files@).to_multiset(),
            ));
            assert(kept_paths(all, true).to_multiset() =~= kept_paths(entry_views(rest@), true).to_multiset().add(
                path_views(dirs@).to_multiset(),
            ));
        }
        assert(kept_paths(entry_views(rest@), false) =~= Seq::<Seq<Seq<char>>>::empty());
        assert(kept_paths(entry_views(rest@), true) =~= Seq::<Seq<Seq<char>>>::empty());
        Tree { files, dirs }
    }
}

} // verus!
