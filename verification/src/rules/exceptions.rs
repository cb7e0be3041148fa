//! Scoped rule waivers.
//!
//! An exception is not a path allowlist — it names a glob and the rules that
//! do not apply beneath it. Globs may use `{root}`, which expands to whatever
//! the `[roots]` map declares for that profile: hardcoding `src/lib.rs` would
//! break a crate whose root is `source/`, and `**/lib.rs` would wrongly match
//! a nested file that happens to be called that.

use super::{Rule, Waivers};
use crate::config::exception::copy_rules;
use crate::config::{ExceptionView, Profile};
use crate::lang::syntax::{first_where, lemma_first_where_found, lemma_first_where_none};
use crate::text::{chars_of, concat, contains_chars, contains_seq, owned, replace_text, replaced, views};
use globset::{GlobBuilder, GlobSet, GlobSetBuilder};
use vstd::prelude::*;
use vstd::seq_lib::lemma_seq_concat_contains_all_elements;

verus! {

#[verifier::external_type_specification]
#[verifier::external_body]
pub struct ExGlobSetBuilder(GlobSetBuilder);

#[verifier::external_type_specification]
#[verifier::external_body]
pub struct ExGlobSet(GlobSet);

/// The patterns of the globs added to a builder, in the order they were
/// added. Every glob this library adds is compiled with `literal_separator`
/// on, so a pattern stands for its glob.
pub uninterp spec fn builder_patterns(builder: GlobSetBuilder) -> Seq<Seq<char>>;

/// The patterns of the globs in a built set; a glob's index in the set is
/// its position here.
pub uninterp spec fn set_patterns(set: GlobSet) -> Seq<Seq<char>>;

/// What `GlobBuilder::build` reports for `pattern` with `literal_separator`
/// on: nothing when the glob compiles, else the error's display text. It is
/// fixed within one build; across targets it can differ, since whether `\`
/// escapes depends on whether the target treats it as a path separator.
pub uninterp spec fn glob_error(pattern: Seq<char>) -> Option<Seq<char>>;

/// What `GlobSetBuilder::build` reports for globs with these patterns:
/// nothing when the set compiles, else the error's display text.
pub uninterp spec fn set_error(patterns: Seq<Seq<char>>) -> Option<Seq<char>>;

/// Whether the glob compiled from `pattern` with `literal_separator` on
/// matches `path`, as `GlobSet::matches` reports it. It is fixed within one
/// build; across targets it can differ, since whether `\` escapes depends on
/// whether the target treats it as a path separator.
pub uninterp spec fn glob_matches(pattern: Seq<char>, path: Seq<char>) -> bool;

/// `GlobSetBuilder::new`, which starts with no globs.
#[verifier::external_body]
fn new_builder() -> (res: GlobSetBuilder)
    ensures
        builder_patterns(res) == Seq::<Seq<char>>::empty(),
{
    GlobSetBuilder::new()
}

/// `GlobBuilder::new(pattern).literal_separator(true).build()`, and on
/// success `GlobSetBuilder::add` of the glob it built, which appends it to
/// the builder's list. On failure the builder is untouched and the error
/// comes back as its display text. Which patterns fail, and with what text,
/// is named, not stated.
#[verifier::external_body]
fn add_glob(builder: &mut GlobSetBuilder, pattern: &str) -> (res: Result<(), String>)
    ensures
        res is Ok <==> glob_error(pattern@) is None,
        res matches Err(text) ==> glob_error(pattern@) == Some(text@),
        res is Ok ==> builder_patterns(*final(builder)) == builder_patterns(*old(builder)).push(
            pattern@,
        ),
        res is Err ==> builder_patterns(*final(builder)) == builder_patterns(*old(builder)),
{
    match GlobBuilder::new(pattern).literal_separator(true).build() {
        Ok(glob) => {
            builder.add(glob);
            Ok(())
        },
        Err(e) => Err(format!("{e}")),
    }
}

/// `GlobSetBuilder::build`: a set of the globs added so far, in their
/// order, or the error's display text. Whether it fails is named, not
/// stated.
#[verifier::external_body]
fn build_set(builder: &GlobSetBuilder) -> (res: Result<GlobSet, String>)
    ensures
        res is Ok <==> set_error(builder_patterns(*builder)) is None,
        res matches Err(text) ==> set_error(builder_patterns(*builder)) == Some(text@),
        res matches Ok(set) ==> set_patterns(set) == builder_patterns(*builder),
{
    match builder.build() {
        Ok(set) => Ok(set),
        Err(e) => Err(format!("{e}")),
    }
}

/// `GlobSet::matches`: the indices of the globs that match `path`, in
/// ascending order without repeats (the crate sorts and dedups them).
#[verifier::external_body]
fn matching_globs(set: &GlobSet, path: &str) -> (res: Vec<usize>)
    ensures
        forall|a: int, b: int| 0 <= a < b < res.len() ==> res@[a] < res@[b],
        forall|k: int| 0 <= k < res.len() ==> res@[k] < set_patterns(*set).len(),
        forall|i: int|
            0 <= i < set_patterns(*set).len() ==> (res@.contains(i as usize) <==> glob_matches(
                set_patterns(*set)[i],
                path@,
            )),
{
    set.matches(path)
}

/// The globs one exception path stands for: one per declared root, with
/// `{root}` replaced by it, where the path holds the placeholder; else the
/// path itself.
pub open spec fn expand_roots(pattern: Seq<char>, roots: Seq<Seq<char>>) -> Seq<Seq<char>> {
    if contains_seq(pattern, "{root}"@) {
        roots.map_values(|root: Seq<char>| replaced(pattern, "{root}"@, root))
    } else {
        seq![pattern]
    }
}

/// Every glob a list of exceptions compiles to, each beside the exception
/// it came from, in order.
pub open spec fn exception_globs(excs: Seq<ExceptionView>, roots: Seq<Seq<char>>) -> Seq<
    (Seq<char>, ExceptionView),
>
    decreases excs.len(),
{
    if excs.len() == 0 {
        Seq::empty()
    } else {
        let e = excs.last();
        exception_globs(excs.drop_last(), roots) + expand_roots(e.path, roots).map_values(
            |p: Seq<char>| (p, e),
        )
    }
}

/// The patterns of some globs.
pub open spec fn glob_patterns(globs: Seq<(Seq<char>, ExceptionView)>) -> Seq<Seq<char>> {
    globs.map_values(|g: (Seq<char>, ExceptionView)| g.0)
}

/// The rules each of some globs waives.
pub open spec fn glob_waivers(globs: Seq<(Seq<char>, ExceptionView)>) -> Seq<Seq<Rule>> {
    globs.map_values(|g: (Seq<char>, ExceptionView)| g.1.waive)
}

/// Whether glob `k` fails to compile.
pub open spec fn glob_fails(globs: Seq<(Seq<char>, ExceptionView)>) -> spec_fn(int) -> bool {
    |k: int| glob_error(globs[k].0) is Some
}

/// Why compiling some globs fails: the first glob that does not compile,
/// named by the exception path it came from; else the set as a whole. None
/// when everything compiles.
pub open spec fn build_error(globs: Seq<(Seq<char>, ExceptionView)>) -> Option<Seq<char>> {
    match first_where(0, globs.len() as int, glob_fails(globs)) {
        Some(k) => Some(
            "invalid exception path `"@ + globs[k].1.path + "`: "@ + glob_error(globs[k].0)->0,
        ),
        None => match set_error(glob_patterns(globs)) {
            Some(text) => Some("could not build exception globs: "@ + text),
            None => None,
        },
    }
}

/// The globs of the first `e` exceptions come first among the globs of all.
proof fn lemma_globs_prefix(excs: Seq<ExceptionView>, roots: Seq<Seq<char>>, e: int)
    requires
        0 <= e <= excs.len(),
    ensures
        exception_globs(excs.take(e), roots).len() <= exception_globs(excs, roots).len(),
        forall|m: int|
            0 <= m < exception_globs(excs.take(e), roots).len() ==> #[trigger] exception_globs(
                excs.take(e),
                roots,
            )[m] == exception_globs(excs, roots)[m],
    decreases excs.len(),
{
    if e == excs.len() {
        assert(excs.take(e) =~= excs);
    } else {
        lemma_globs_prefix(excs.drop_last(), roots, e);
        assert(excs.drop_last().take(e) =~= excs.take(e));
    }
}

/// The globs one exception path stands for.
fn expand(pattern: &str, roots: &[String]) -> (res: Vec<String>)
    ensures
        views(res@) == expand_roots(pattern@, views(roots@)),
{
    let placeholder = "{root}";
    proof {
        reveal_strlit("{root}");
    }
    let mut res: Vec<String> = Vec::new();
    if !contains_chars(&chars_of(pattern), &chars_of(placeholder)) {
        res.push(owned(pattern));
        assert(views(res@) =~= seq![pattern@]);
        return res;
    }
    let mut i: usize = 0;
    while i < roots.len()
        invariant
            placeholder@ == "{root}"@,
            placeholder@.len() > 0,
            i <= roots.len(),
            views(res@) == views(roots@).take(i as int).map_values(
                |root: Seq<char>| replaced(pattern@, "{root}"@, root),
            ),
        decreases roots.len() - i,
    {
        let ghost prev = res@;
        let item = replace_text(pattern, placeholder, roots[i].as_str());
        res.push(item);
        assert(views(res@) =~= views(prev).push(item@));
        assert(views(roots@).take(i + 1) =~= views(roots@).take(i as int).push(roots@[i as int]@));
        i += 1;
        assert(views(res@) =~= views(roots@).take(i as int).map_values(
            |root: Seq<char>| replaced(pattern@, "{root}"@, root),
        ));
    }
    assert(views(roots@).take(roots.len() as int) =~= views(roots@));
    res
}

/// Compiled exception globs, and what each one waives.
pub struct Exceptions {
    globs: GlobSet,
    /// Parallel to the globs: the rules each one waives.
    waived: Vec<Vec<Rule>>,
}

/// Compiled exceptions as the patterns of their globs and, parallel to
/// them, the rules each waives.
pub struct ExceptionsView {
    pub patterns: Seq<Seq<char>>,
    pub waived: Seq<Seq<Rule>>,
}

impl View for Exceptions {
    type V = ExceptionsView;

    closed spec fn view(&self) -> ExceptionsView {
        ExceptionsView {
            patterns: set_patterns(self.globs),
            waived: self.waived@.map_values(|w: Vec<Rule>| w@),
        }
    }
}

/// The rules waived for `path`: everything waived by a glob that matches it.
pub open spec fn waived_for(ex: ExceptionsView, path: Seq<char>) -> Set<Rule> {
    Set::new(
        |r: Rule|
            exists|i: int|
                0 <= i < ex.patterns.len() && glob_matches(ex.patterns[i], path)
                    && #[trigger] ex.waived[i].contains(r),
    )
}

/// The rules waived by the globs at some indices; an index past the last
/// glob waives nothing.
pub open spec fn waived_at(ex: ExceptionsView, hits: Seq<usize>) -> Set<Rule> {
    Set::new(
        |r: Rule|
            exists|m: int|
                0 <= m < hits.len() && hits[m] < ex.waived.len() && #[trigger] ex.waived[hits[m] as int].contains(
                    r,
                ),
    )
}

impl Exceptions {
    #[verifier::type_invariant]
    spec fn aligned(self) -> bool {
        set_patterns(self.globs).len() == self.waived.len()
    }

    /// Compile a profile's exceptions, expanding `{root}` over the roots
    /// declared for its language.
    pub fn build(profile: &Profile, roots: &[String]) -> (res: Result<Exceptions, String>)
        ensures
            ({
                let globs = exception_globs(profile@.exceptions, views(roots@));
                match res {
                    Ok(ex) => {
                        &&& build_error(globs) is None
                        &&& ex@.patterns == glob_patterns(globs)
                        &&& ex@.waived == glob_waivers(globs)
                    },
                    Err(message) => build_error(globs) == Some(message@),
                }
            }),
    {
        let ghost excs = profile@.exceptions;
        let ghost rv = views(roots@);
        let ghost all = exception_globs(excs, rv);
        let mut builder = new_builder();
        let mut waived: Vec<Vec<Rule>> = Vec::new();
        let mut e: usize = 0;
        assert(exception_globs(excs.take(0), rv) =~= Seq::<(Seq<char>, ExceptionView)>::empty());
        assert(waived@.map_values(|w: Vec<Rule>| w@) =~= Seq::<Seq<Rule>>::empty());
        while e < profile.exceptions.len()
            invariant
                excs == profile@.exceptions,
                rv == views(roots@),
                all == exception_globs(excs, rv),
                e <= profile.exceptions.len(),
                builder_patterns(builder) == glob_patterns(exception_globs(excs.take(e as int), rv)),
                waived@.map_values(|w: Vec<Rule>| w@) == glob_waivers(
                    exception_globs(excs.take(e as int), rv),
                ),
                forall|m: int|
                    0 <= m < exception_globs(excs.take(e as int), rv).len()
                        ==> !#[trigger] glob_fails(all)(m),
            decreases profile.exceptions.len() - e,
        {
            let exception = &profile.exceptions[e];
            let ghost done = exception_globs(excs.take(e as int), rv);
            let ghost added = expand_roots(excs[e as int].path, rv).map_values(
                |p: Seq<char>| (p, excs[e as int]),
            );
            proof {
                assert(excs.take(e + 1).drop_last() =~= excs.take(e as int));
                assert(exception_globs(excs.take(e + 1), rv) == done + added);
                lemma_globs_prefix(excs, rv, e + 1);
            }
            let patterns = expand(exception.path.as_str(), roots);
            let mut j: usize = 0;
            while j < patterns.len()
                invariant
                    excs == profile@.exceptions,
                    rv == views(roots@),
                    all == exception_globs(excs, rv),
                    e < profile.exceptions.len(),
                    *exception == profile.exceptions@[e as int],
                    done == exception_globs(excs.take(e as int), rv),
                    added == expand_roots(excs[e as int].path, rv).map_values(
                        |p: Seq<char>| (p, excs[e as int]),
                    ),
                    views(patterns@) == expand_roots(exception.path@, rv),
                    exception_globs(excs.take(e + 1), rv) == done + added,
                    done.len() + added.len() <= all.len(),
                    forall|m: int| 0 <= m < done.len() + added.len() ==> #[trigger] all[m] == (done
                        + added)[m],
                    j <= patterns.len(),
                    builder_patterns(builder) == glob_patterns(done + added.take(j as int)),
                    waived@.map_values(|w: Vec<Rule>| w@) == glob_waivers(done + added.take(j as int)),
                    forall|m: int| 0 <= m < done.len() + j ==> !#[trigger] glob_fails(all)(m),
                decreases patterns.len() - j,
            {
                let ghost at = done.len() + j;
                assert(all[at] == added[j as int]);
                match add_glob(&mut builder, patterns[j].as_str()) {
                    Ok(()) => {
                        let ghost before = waived@;
                        let copied = copy_rules(&exception.waive);
                        assert(copied@ == added[j as int].1.waive);
                        waived.push(copied);
                        assert(waived@.map_values(|w: Vec<Rule>| w@) =~= before.map_values(
                            |w: Vec<Rule>| w@,
                        ).push(copied@));
                        assert(added.take(j + 1) =~= added.take(j as int).push(added[j as int]));
                        assert(done + added.take(j + 1) =~= (done + added.take(j as int)).push(
                            added[j as int],
                        ));
                        assert(builder_patterns(builder) =~= glob_patterns(
                            done + added.take(j + 1),
                        ));
                        assert(waived@.map_values(|w: Vec<Rule>| w@) =~= glob_waivers(
                            done + added.take(j + 1),
                        ));
                        assert(!glob_fails(all)(at));
                    },
                    Err(text) => {
                        proof {
                            lemma_first_where_found(0, at, all.len() as int, glob_fails(all));
                        }
                        let head = concat("invalid exception path `", exception.path.as_str());
                        let middle = concat(head.as_str(), "`: ");
                        return Err(concat(middle.as_str(), text.as_str()));
                    },
                }
                j += 1;
            }
            assert(added.take(patterns.len() as int) =~= added);
            e += 1;
        }
        assert(excs.take(e as int) =~= excs);
        proof {
            lemma_first_where_none(0, all.len() as int, glob_fails(all));
        }
        match build_set(&builder) {
            Ok(globs) => Ok(Exceptions { globs, waived }),
            Err(text) => Err(concat("could not build exception globs: ", text.as_str())),
        }
    }

    /// The union of the rules waived by the globs at some indices, as
    /// matching a path gives them; an index past the last glob waives
    /// nothing.
    pub fn waivers_of_matches(&self, hits: &Vec<usize>) -> (res: Waivers)
        ensures
            res@ == waived_at(self@, hits@),
    {
        let ghost ws = self.waived@.map_values(|w: Vec<Rule>| w@);
        let mut rules: Vec<Rule> = Vec::new();
        let mut k: usize = 0;
        while k < hits.len()
            invariant
                ws == self.waived@.map_values(|w: Vec<Rule>| w@),
                k <= hits.len(),
                forall|r: Rule|
                    rules@.contains(r) <==> exists|m: int|
                        0 <= m < k && hits@[m] < ws.len() && #[trigger] ws[hits@[m] as int].contains(r),
            decreases hits.len() - k,
        {
            if hits[k] < self.waived.len() {
                let w = &self.waived[hits[k]];
                assert(ws[hits@[k as int] as int] == w@);
                let ghost before = rules@;
                let mut j: usize = 0;
                while j < w.len()
                    invariant
                        j <= w.len(),
                        rules@ == before + w@.take(j as int),
                    decreases w.len() - j,
                {
                    rules.push(w[j]);
                    j += 1;
                    assert(rules@ =~= before + w@.take(j as int));
                }
                assert(w@.take(w.len() as int) =~= w@);
                assert forall|r: Rule|
                    rules@.contains(r) <==> exists|m: int|
                        0 <= m < k + 1 && hits@[m] < ws.len() && #[trigger] ws[hits@[m] as int].contains(
                            r,
                        ) by {
                    lemma_seq_concat_contains_all_elements(before, w@, r);
                    if w@.contains(r) {
                        assert(ws[hits@[k as int] as int].contains(r));
                    }
                }
            }
            k += 1;
        }
        let res = Waivers(rules);
        assert(res@ =~= waived_at(self@, hits@));
        res
    }

    /// The union of rules waived for one path.
    pub fn waivers_for(&self, path: &str) -> (res: Waivers)
        ensures
            res@ == waived_for(self@, path@),
    {
        proof {
            use_type_invariant(self);
        }
        let hits = matching_globs(&self.globs, path);
        let res = self.waivers_of_matches(&hits);
        assert(res@ =~= waived_for(self@, path@)) by {
            assert forall|r: Rule| res@.contains(r) implies waived_for(self@, path@).contains(r) by {
                let m = choose|m: int|
                    0 <= m < hits.len() && hits@[m] < self@.waived.len() && #[trigger] self@.waived[hits@[m] as int].contains(r);
                let i = hits@[m] as int;
                assert(hits@.contains(i as usize));
            }
            assert forall|r: Rule| waived_for(self@, path@).contains(r) implies res@.contains(r) by {
                let i = choose|i: int|
                    0 <= i < self@.patterns.len() && glob_matches(self@.patterns[i], path@)
                        && #[trigger] self@.waived[i].contains(r);
                assert(hits@.contains(i as usize));
                let m = choose|m: int| 0 <= m < hits.len() && hits@[m] == i as usize;
                assert(self@.waived[hits@[m] as int].contains(r));
            }
        }
        res
    }
}

} // verus!
