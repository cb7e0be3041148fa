//! One exported item.

use crate::text::same_text;
use vstd::prelude::*;

verus! {

/// A top-level item that forms part of a module's public surface.
#[derive(Debug, Clone)]
pub struct PublicName {
    pub name: String,
    /// The language keyword that introduced it — `fn`, `class`, `struct`.
    ///
    /// The engine never interprets this string. It only asks whether the
    /// profile's `one_per_file` list contains it, which is what keeps the
    /// core free of any language's vocabulary.
    pub construct: &'static str,
    /// 1-based line of the declaration.
    pub line: usize,
}

pub struct PublicNameView {
    pub name: Seq<char>,
    pub construct: Seq<char>,
    pub line: usize,
}

impl View for PublicName {
    type V = PublicNameView;

    open spec fn view(&self) -> PublicNameView {
        PublicNameView { name: self.name@, construct: self.construct@, line: self.line }
    }
}

/// The views of a list of names.
pub open spec fn name_views(names: Seq<PublicName>) -> Seq<PublicNameView> {
    names.map_values(|n: PublicName| n@)
}

impl PublicName {
    /// A copy of this name.
    pub fn duplicate(&self) -> (res: PublicName)
        ensures
            res@ == self@,
    {
        PublicName { name: self.name.clone(), construct: self.construct, line: self.line }
    }
}

/// Whether an earlier name among the first `n` is spelled `name`.
pub open spec fn seen_before(names: Seq<PublicNameView>, n: int, name: Seq<char>) -> bool {
    exists|k: int| 0 <= k < n && #[trigger] names[k].name == name
}

/// The names with every repeat of an earlier name dropped: three `@overload`
/// stubs plus an implementation are four definitions and one export.
pub open spec fn first_of_each(names: Seq<PublicNameView>, n: int) -> Seq<PublicNameView>
    decreases n,
{
    if n <= 0 {
        Seq::empty()
    } else {
        let before = first_of_each(names, n - 1);
        if seen_before(names, n - 1, names[n - 1].name) {
            before
        } else {
            before.push(names[n - 1])
        }
    }
}

/// Whether some name among the first `n` is spelled `name`; the
/// counterpart, among kept names, of `seen_before`.
pub open spec fn keeps_name(kept: Seq<PublicNameView>, name: Seq<char>) -> bool {
    exists|j: int| 0 <= j < kept.len() && #[trigger] kept[j].name == name
}

/// Keeping the first of each name leaves names unique, and loses or invents
/// none: a name defined several times (Python's overload stubs, then the
/// implementation; a Rust type and a function of one name) is one export,
/// and every kept entry is one of the definitions.
pub proof fn lemma_first_of_each_is_unique(names: Seq<PublicNameView>, n: int)
    requires
        0 <= n <= names.len(),
    ensures
        forall|a: int, b: int|
            0 <= a < b < first_of_each(names, n).len() ==> (#[trigger] first_of_each(names, n)[a]).name
                != (#[trigger] first_of_each(names, n)[b]).name,
        forall|k: int| 0 <= k < n ==> keeps_name(first_of_each(names, n), #[trigger] names[k].name),
        forall|j: int|
            0 <= j < first_of_each(names, n).len() ==> exists|k: int|
                0 <= k < n && names[k] == #[trigger] first_of_each(names, n)[j],
    decreases n,
{
    if n > 0 {
        lemma_first_of_each_is_unique(names, n - 1);
        let before = first_of_each(names, n - 1);
        let kept = first_of_each(names, n);
        let last = names[n - 1];
        if seen_before(names, n - 1, last.name) {
            assert(kept == before);
            assert forall|k: int| 0 <= k < n implies keeps_name(kept, #[trigger] names[k].name) by {
                if k == n - 1 {
                    let m = choose|m: int| 0 <= m < n - 1 && #[trigger] names[m].name == last.name;
                    assert(keeps_name(before, names[m].name));
                }
            }
        } else {
            assert(kept == before.push(last));
            assert forall|a: int, b: int|
                0 <= a < b < kept.len() implies (#[trigger] kept[a]).name != (#[trigger] kept[b]).name by {
                if b == kept.len() - 1 {
                    assert(kept[a] == before[a]);
                    let k = choose|k: int| 0 <= k < n - 1 && names[k] == #[trigger] before[a];
                    assert(names[k].name != last.name);
                } else {
                    assert(kept[a] == before[a] && kept[b] == before[b]);
                }
            }
            assert forall|k: int| 0 <= k < n implies keeps_name(kept, #[trigger] names[k].name) by {
                if k == n - 1 {
                    assert(kept[kept.len() - 1].name == last.name);
                } else {
                    assert(keeps_name(before, names[k].name));
                    let j = choose|j: int| 0 <= j < before.len() && #[trigger] before[j].name == names[k].name;
                    assert(kept[j].name == names[k].name);
                }
            }
            assert forall|j: int| 0 <= j < kept.len() implies exists|k: int|
                0 <= k < n && names[k] == #[trigger] kept[j] by {
                if j == kept.len() - 1 {
                    assert(names[n - 1] == kept[j]);
                } else {
                    assert(kept[j] == before[j]);
                }
            }
        }
    }
}

/// Whether names come in line order.
pub open spec fn lines_in_order(names: Seq<PublicNameView>) -> bool {
    forall|i: int, j: int| 0 <= i < j < names.len() ==> #[trigger] names[i].line <= #[trigger] names[j].line
}

/// Keeping the first of each name keeps names in the order they came.
pub proof fn lemma_first_of_each_keeps_order(names: Seq<PublicNameView>, n: int)
    requires
        0 <= n <= names.len(),
        lines_in_order(names),
    ensures
        lines_in_order(first_of_each(names, n)),
    decreases n,
{
    if n > 0 {
        lemma_first_of_each_keeps_order(names, n - 1);
        lemma_first_of_each_is_unique(names, n - 1);
        let before = first_of_each(names, n - 1);
        if !seen_before(names, n - 1, names[n - 1].name) {
            let kept = before.push(names[n - 1]);
            assert(first_of_each(names, n) == kept);
            assert forall|i: int, j: int| 0 <= i < j < kept.len() implies #[trigger] kept[i].line
                <= #[trigger] kept[j].line by {
                if j == kept.len() - 1 {
                    assert(kept[i] == before[i]);
                    let k = choose|k: int| 0 <= k < n - 1 && names[k] == #[trigger] before[i];
                    assert(names[k].line <= names[n - 1].line);
                } else {
                    assert(kept[i] == before[i] && kept[j] == before[j]);
                }
            }
        }
    }
}

/// The names with every repeat of an earlier name dropped.
pub fn keep_first_of_each(all: &Vec<PublicName>) -> (res: Vec<PublicName>)
    ensures
        name_views(res@) == first_of_each(name_views(all@), all.len() as int),
{
    let ghost names = name_views(all@);
    let mut res: Vec<PublicName> = Vec::new();
    let mut n: usize = 0;
    while n < all.len()
        invariant
            names == name_views(all@),
            n <= all.len(),
            name_views(res@) == first_of_each(names, n as int),
        decreases all.len() - n,
    {
        let mut k: usize = 0;
        let mut seen = false;
        while k < n
            invariant
                names == name_views(all@),
                n < all.len(),
                k <= n,
                seen == exists|m: int| 0 <= m < k && #[trigger] names[m].name == names[n as int].name,
            decreases n - k,
        {
            if same_text(all[k].name.as_str(), all[n].name.as_str()) {
                assert(names[k as int].name == names[n as int].name);
                seen = true;
            }
            k += 1;
        }
        if !seen {
            res.push(all[n].duplicate());
            assert(name_views(res@) =~= first_of_each(names, n as int).push(names[n as int]));
        }
        n += 1;
    }
    res
}

} // verus!
