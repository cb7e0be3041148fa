//! The effective configuration: defaults, with any user file merged over them.

use super::profile_override::overridden;
use super::{ConfigFile, Language, Profile, ProfileView};
use crate::text::{
    chars_of, concat, has_prefix, join_first, join_slash, lemma_text_before_transitive, starts_with,
    text_before, text_precedes, views,
};
use vstd::prelude::*;

verus! {

/// The roots map is held in key order with no key twice, the way a map from
/// root to language iterates.
#[derive(Debug, Clone)]
pub struct Config {
    pub roots: Vec<(String, Language)>,
    pub python: Option<Profile>,
    pub typescript: Option<Profile>,
    pub rust: Option<Profile>,
    pub cpp: Option<Profile>,
}

/// The view of an optional profile.
pub open spec fn profile_view(p: Option<Profile>) -> Option<ProfileView> {
    match p {
        Some(p) => Some(p@),
        None => None,
    }
}

/// Whether roots are in strictly ascending key order — so no key occurs
/// twice — the way a map from root to language iterates.
pub open spec fn in_key_order(roots: Seq<(Seq<char>, Language)>) -> bool {
    forall|i: int, j: int|
        0 <= i < j < roots.len() ==> text_before(#[trigger] roots[i].0, #[trigger] roots[j].0)
}

/// The roots map as (root, language) pairs, in order.
pub open spec fn root_entries(roots: Seq<(String, Language)>) -> Seq<(Seq<char>, Language)> {
    roots.map_values(|e: (String, Language)| (e.0@, e.1))
}

/// How many `/` a string holds.
pub open spec fn slashes(s: Seq<char>) -> nat
    decreases s.len(),
{
    if s.len() == 0 {
        0
    } else {
        slashes(s.drop_last()) + if s.last() == '/' { 1nat } else { 0nat }
    }
}

/// How many path components a root spans.
pub open spec fn root_depth(root: Seq<char>) -> nat {
    slashes(root) + 1
}

/// Whether a root owns a path: the path's leading components, joined with
/// `/`, spell the root.
pub open spec fn root_owns(root: Seq<char>, components: Seq<Seq<char>>) -> bool {
    &&& components.len() >= root_depth(root)
    &&& join_slash(components.take(root_depth(root) as int)) == root
}

/// Among the first `n` entries, the owner of a path with the deepest root;
/// of equally deep owners, the later one.
pub open spec fn deepest_owner(
    roots: Seq<(Seq<char>, Language)>,
    components: Seq<Seq<char>>,
    n: int,
) -> Option<int>
    decreases n,
{
    if n <= 0 {
        None
    } else {
        let before = deepest_owner(roots, components, n - 1);
        if root_owns(roots[n - 1].0, components) && match before {
            None => true,
            Some(b) => root_depth(roots[n - 1].0) >= root_depth(roots[b].0),
        } {
            Some(n - 1)
        } else {
            before
        }
    }
}

/// A root must be a relative path with no leading or trailing slash.
pub open spec fn malformed_root(root: Seq<char>) -> bool {
    root.len() == 0 || root[0] == '/' || root.last() == '/'
}

/// Whether `root` sits inside `outer`.
pub open spec fn nested_in(root: Seq<char>, outer: Seq<char>) -> bool {
    outer != root && starts_with(root, outer.push('/'))
}

/// The first of the first `n` roots that `root` sits inside.
pub open spec fn first_outer(roots: Seq<(Seq<char>, Language)>, root: Seq<char>, n: int) -> Option<int>
    decreases n,
{
    if n <= 0 {
        None
    } else {
        match first_outer(roots, root, n - 1) {
            Some(i) => Some(i),
            None => if nested_in(root, roots[n - 1].0) {
                Some(n - 1)
            } else {
                None
            },
        }
    }
}

/// What is wrong with the root at `i`, if anything.
pub open spec fn root_problem(roots: Seq<(Seq<char>, Language)>, i: int) -> Option<Seq<char>> {
    let root = roots[i].0;
    if malformed_root(root) {
        Some("root `"@ + root + "` must be a relative path with no leading or trailing slash"@)
    } else {
        match first_outer(roots, root, roots.len() as int) {
            Some(o) => Some("root `"@ + root + "` is nested inside root `"@ + roots[o].0 + "`"@),
            None => None,
        }
    }
}

/// The problem with the first of the first `n` roots that has one.
pub open spec fn first_root_problem(roots: Seq<(Seq<char>, Language)>, n: int) -> Option<Seq<char>>
    decreases n,
{
    if n <= 0 {
        None
    } else {
        match first_root_problem(roots, n - 1) {
            Some(p) => Some(p),
            None => root_problem(roots, n - 1),
        }
    }
}

/// The roots declared for one language, in order.
pub open spec fn roots_of(roots: Seq<(Seq<char>, Language)>, language: Language) -> Seq<Seq<char>>
    decreases roots.len(),
{
    if roots.len() == 0 {
        Seq::empty()
    } else {
        let before = roots_of(roots.drop_last(), language);
        if roots.last().1 == language {
            before.push(roots.last().0)
        } else {
            before
        }
    }
}

impl Config {
    /// The profile declared for a language, as a view.
    pub open spec fn profile_for(self, language: Language) -> Option<ProfileView> {
        match language {
            Language::Python => profile_view(self.python),
            Language::Typescript => profile_view(self.typescript),
            Language::Rust => profile_view(self.rust),
            Language::Cpp => profile_view(self.cpp),
        }
    }

    pub open spec fn entries(self) -> Seq<(Seq<char>, Language)> {
        root_entries(self.roots@)
    }

    pub fn profile(&self, language: Language) -> (res: Option<&Profile>)
        ensures
            match res {
                Some(p) => self.profile_for(language) == Some(p@),
                None => self.profile_for(language) is None,
            },
    {
        match language {
            Language::Python => self.python.as_ref(),
            Language::Typescript => self.typescript.as_ref(),
            Language::Rust => self.rust.as_ref(),
            Language::Cpp => self.cpp.as_ref(),
        }
    }

    fn set_profile(&mut self, language: Language, profile: Profile)
        ensures
            final(self).roots == old(self).roots,
            final(self).profile_for(language) == Some(profile@),
            forall|other: Language|
                other != language ==> #[trigger] final(self).profile_for(other) == old(
                    self,
                ).profile_for(other),
    {
        match language {
            Language::Python => self.python = Some(profile),
            Language::Typescript => self.typescript = Some(profile),
            Language::Rust => self.rust = Some(profile),
            Language::Cpp => self.cpp = Some(profile),
        }
    }

    /// The declared root that owns a path, if any.
    ///
    /// A root may be more than one component deep — `src/my_package` —
    /// because in an installable Python project the package directory is the
    /// root of the source tree. The longest match wins, so a nested root
    /// beats the one containing it.
    pub fn root_for(&self, components: &[String]) -> (res: Option<(&str, Language, usize)>)
        ensures
            match res {
                Some((root, language, depth)) => {
                    let i = deepest_owner(self.entries(), views(components@), self.roots.len() as int)->0;
                    &&& deepest_owner(self.entries(), views(components@), self.roots.len() as int) is Some
                    &&& root@ == self.entries()[i].0
                    &&& language == self.entries()[i].1
                    &&& depth == root_depth(root@)
                },
                None => deepest_owner(self.entries(), views(components@), self.roots.len() as int) is None,
            },
    {
        let ghost entries = self.entries();
        let ghost comps = views(components@);
        let mut best: Option<(usize, usize)> = None;
        let mut i: usize = 0;
        while i < self.roots.len()
            invariant
                entries == self.entries(),
                comps == views(components@),
                i <= self.roots.len(),
                match best {
                    Some((b, d)) => deepest_owner(entries, comps, i as int) == Some(b as int)
                        && d == root_depth(entries[b as int].0) && b < self.roots.len(),
                    None => deepest_owner(entries, comps, i as int) is None,
                },
            decreases self.roots.len() - i,
        {
            let root = &self.roots[i].0;
            assert(entries[i as int].0 == root@);
            let count = count_slashes(root);
            assert(comps.len() == components.len());
            if count < usize::MAX {
                let depth = count + 1;
                if components.len() >= depth {
                    let joined = join_first(components, depth, "/");
                    proof {
                        reveal_strlit("/");
                        assert("/"@ == seq!['/']);
                    }
                    assert(comps.take(depth as int) == views(components@.take(depth as int)));
                    if joined == *root {
                        let better = match best {
                            None => true,
                            Some((_, d)) => depth >= d,
                        };
                        if better {
                            best = Some((i, depth));
                        }
                    }
                }
            }
            i += 1;
        }
        match best {
            Some((b, d)) => Some((self.roots[b].0.as_str(), self.roots[b].1, d)),
            None => None,
        }
    }

    /// Roots may not overlap: a path must belong to exactly one, and nesting
    /// one inside another would make "which profile governs this" ambiguous
    /// in ways no longest-match rule can make honest.
    pub fn check_roots(&self) -> (res: Result<(), String>)
        ensures
            match res {
                Ok(()) => first_root_problem(self.entries(), self.roots.len() as int) is None,
                Err(message) => first_root_problem(self.entries(), self.roots.len() as int)
                    == Some(message@),
            },
    {
        let ghost entries = self.entries();
        let mut i: usize = 0;
        while i < self.roots.len()
            invariant
                entries == self.entries(),
                i <= self.roots.len(),
                first_root_problem(entries, i as int) is None,
            decreases self.roots.len() - i,
        {
            let root = &self.roots[i].0;
            assert(entries[i as int].0 == root@);
            let chars = chars_of(root.as_str());
            if chars.len() == 0 || chars[0] == '/' || chars[chars.len() - 1] == '/' {
                let head = concat("root `", root.as_str());
                let message = concat(
                    head.as_str(),
                    "` must be a relative path with no leading or trailing slash",
                );
                proof {
                    lemma_first_problem_stays(entries, i as int + 1, self.roots.len() as int);
                }
                return Err(message);
            }
            match self.first_outer_of(root) {
                Some(o) => {
                    let head = concat("root `", root.as_str());
                    let middle = concat(head.as_str(), "` is nested inside root `");
                    let with_outer = concat(middle.as_str(), self.roots[o].0.as_str());
                    let message = concat(with_outer.as_str(), "`");
                    proof {
                        lemma_first_problem_stays(entries, i as int + 1, self.roots.len() as int);
                    }
                    return Err(message);
                },
                None => {},
            }
            i += 1;
        }
        Ok(())
    }

    fn first_outer_of(&self, root: &String) -> (res: Option<usize>)
        ensures
            match res {
                Some(o) => first_outer(self.entries(), root@, self.roots.len() as int) == Some(o as int)
                    && o < self.roots.len(),
                None => first_outer(self.entries(), root@, self.roots.len() as int) is None,
            },
    {
        let ghost entries = self.entries();
        let chars = chars_of(root.as_str());
        let mut j: usize = 0;
        while j < self.roots.len()
            invariant
                entries == self.entries(),
                chars@ == root@,
                j <= self.roots.len(),
                first_outer(entries, root@, j as int) is None,
            decreases self.roots.len() - j,
        {
            let other = &self.roots[j].0;
            assert(entries[j as int].0 == other@);
            if *other != *root {
                let mut outer = chars_of(other.as_str());
                outer.push('/');
                if has_prefix(&chars, &outer) {
                    proof {
                        lemma_first_outer_stays(entries, root@, j as int + 1, self.roots.len() as int);
                    }
                    return Some(j);
                }
            }
            j += 1;
        }
        None
    }

    /// Whether the roots are in strictly ascending key order, as a map from
    /// root to language holds them.
    pub fn roots_in_key_order(&self) -> (res: bool)
        ensures
            res == in_key_order(self.entries()),
    {
        let ghost entries = self.entries();
        let mut i: usize = 1;
        if self.roots.len() == 0 {
            return true;
        }
        while i < self.roots.len()
            invariant
                entries == self.entries(),
                1 <= i <= self.roots.len(),
                forall|a: int| 0 < a < i ==> text_before(#[trigger] entries[a - 1].0, entries[a].0),
            decreases self.roots.len() - i,
        {
            if !text_precedes(self.roots[i - 1].0.as_str(), self.roots[i].0.as_str()) {
                assert(!text_before(entries[i - 1].0, entries[i as int].0));
                return false;
            }
            i += 1;
        }
        proof {
            lemma_adjacent_order(entries);
        }
        true
    }

    /// The roots declared for one language, in declaration order.
    pub fn roots_for(&self, language: Language) -> (res: Vec<String>)
        ensures
            views(res@) == roots_of(self.entries(), language),
    {
        let ghost entries = self.entries();
        let mut res: Vec<String> = Vec::new();
        let mut i: usize = 0;
        while i < self.roots.len()
            invariant
                entries == self.entries(),
                i <= self.roots.len(),
                views(res@) == roots_of(entries.take(i as int), language),
            decreases self.roots.len() - i,
        {
            assert(entries.take(i + 1).drop_last() == entries.take(i as int));
            assert(entries.take(i + 1).last() == (self.roots@[i as int].0@, self.roots@[i as int].1));
            if self.roots[i].1 == language {
                res.push(self.roots[i].0.clone());
                assert(views(res@) =~= roots_of(entries.take(i as int), language).push(
                    self.roots@[i as int].0@,
                ));
            }
            i += 1;
        }
        assert(entries.take(self.roots.len() as int) == entries);
        res
    }

    /// User settings win field by field; exceptions are the exception —
    /// those append, so nobody has to re-declare the default waivers. A
    /// language with no built-in profile starts from the shared baseline.
    pub fn merge(&mut self, file: ConfigFile)
        ensures
            final(self).entries() == match file.roots {
                Some(r) => root_entries(r@),
                None => old(self).entries(),
            },
            in_key_order(old(self).entries()) && match file.roots {
                Some(r) => in_key_order(root_entries(r@)),
                None => true,
            } ==> in_key_order(final(self).entries()),
            forall|language: Language| #[trigger] final(self).profile_for(language) == match file.override_for(language) {
                Some(over) => Some(overridden(over, match old(self).profile_for(language) {
                    Some(p) => p,
                    None => super::profile::baseline_profile(),
                })),
                None => old(self).profile_for(language),
            },
    {
        if let Some(roots) = &file.roots {
            self.roots = copy_roots(roots);
        }
        let ghost start = *self;
        let mut i: usize = 0;
        while i < 4
            invariant
                i <= 4,
                self.entries() == match file.roots {
                    Some(r) => root_entries(r@),
                    None => old(self).entries(),
                },
                start.entries() == self.entries(),
                forall|language: Language| start.profile_for(language) == old(self).profile_for(language),
                forall|language: Language| #[trigger] self.profile_for(language) == if language.rank() < i {
                    match file.override_for(language) {
                        Some(over) => Some(overridden(over, match old(self).profile_for(language) {
                            Some(p) => p,
                            None => super::profile::baseline_profile(),
                        })),
                        None => old(self).profile_for(language),
                    }
                } else {
                    old(self).profile_for(language)
                },
            decreases 4 - i,
        {
            let language = Language::ALL[i];
            assert(language.rank() == i);
            match file.profile_override(language) {
                Some(over) => {
                    let mut profile = match self.profile(language) {
                        Some(p) => p.duplicate(),
                        None => Profile::default(),
                    };
                    over.apply_to(&mut profile);
                    self.set_profile(language, profile);
                },
                None => {},
            }
            i += 1;
        }
    }
}

/// A copy of a roots map.
pub fn copy_roots(roots: &Vec<(String, Language)>) -> (res: Vec<(String, Language)>)
    ensures
        root_entries(res@) == root_entries(roots@),
{
    let mut res: Vec<(String, Language)> = Vec::new();
    let mut i: usize = 0;
    while i < roots.len()
        invariant
            i <= roots.len(),
            res.len() == i,
            forall|j: int| 0 <= j < i ==> #[trigger] res@[j].0@ == roots@[j].0@ && res@[j].1 == roots@[j].1,
        decreases roots.len() - i,
    {
        res.push((roots[i].0.clone(), roots[i].1));
        i += 1;
    }
    assert(root_entries(res@) =~= root_entries(roots@));
    res
}

fn count_slashes(s: &String) -> (res: usize)
    ensures
        res == slashes(s@),
{
    let chars = chars_of(s.as_str());
    let mut count: usize = 0;
    let mut i: usize = 0;
    while i < chars.len()
        invariant
            chars@ == s@,
            i <= chars.len(),
            count == slashes(chars@.take(i as int)),
            count <= i,
        decreases chars.len() - i,
    {
        assert(chars@.take(i + 1).drop_last() == chars@.take(i as int));
        if chars[i] == '/' {
            count += 1;
        }
        i += 1;
    }
    assert(chars@.take(chars.len() as int) == chars@);
    count
}

proof fn lemma_first_problem_stays(roots: Seq<(Seq<char>, Language)>, n: int, m: int)
    requires
        0 < n <= m,
        first_root_problem(roots, n - 1) is None,
        root_problem(roots, n - 1) is Some,
    ensures
        first_root_problem(roots, m) == root_problem(roots, n - 1),
    decreases m - n,
{
    if m > n {
        lemma_first_problem_stays(roots, n, m - 1);
    }
}

proof fn lemma_first_outer_stays(roots: Seq<(Seq<char>, Language)>, root: Seq<char>, n: int, m: int)
    requires
        0 < n <= m,
        first_outer(roots, root, n - 1) is None,
        nested_in(root, roots[n - 1].0),
    ensures
        first_outer(roots, root, m) == Some(n - 1),
    decreases m - n,
{
    if m > n {
        lemma_first_outer_stays(roots, root, n, m - 1);
    }
}

proof fn lemma_no_outer(roots: Seq<(Seq<char>, Language)>, root: Seq<char>, n: int)
    requires
        first_outer(roots, root, n) is None,
    ensures
        forall|j: int| 0 <= j < n ==> !nested_in(root, #[trigger] roots[j].0),
    decreases n,
{
    if n > 0 {
        lemma_no_outer(roots, root, n - 1);
    }
}

proof fn lemma_no_problem(roots: Seq<(Seq<char>, Language)>, n: int)
    requires
        first_root_problem(roots, n) is None,
    ensures
        forall|i: int| 0 <= i < n ==> #[trigger] root_problem(roots, i) is None,
    decreases n,
{
    if n > 0 {
        lemma_no_problem(roots, n - 1);
    }
}

/// Roots that pass the check do not overlap: each is a relative path with
/// no leading or trailing slash, and none sits inside another, so a path
/// belongs to at most one chain of roots and the deepest owner is the only
/// candidate worth naming.
pub proof fn lemma_accepted_roots_do_not_nest(roots: Seq<(Seq<char>, Language)>)
    requires
        first_root_problem(roots, roots.len() as int) is None,
    ensures
        forall|i: int| 0 <= i < roots.len() ==> !malformed_root(#[trigger] roots[i].0),
        forall|i: int, j: int|
            0 <= i < roots.len() && 0 <= j < roots.len() ==> !nested_in(
                #[trigger] roots[i].0,
                #[trigger] roots[j].0,
            ),
{
    lemma_no_problem(roots, roots.len() as int);
    assert forall|i: int| 0 <= i < roots.len() implies !malformed_root(#[trigger] roots[i].0) by {
        assert(root_problem(roots, i) is None);
    }
    assert forall|i: int, j: int|
        0 <= i < roots.len() && 0 <= j < roots.len() implies !nested_in(
            #[trigger] roots[i].0,
            #[trigger] roots[j].0,
        ) by {
        assert(root_problem(roots, i) is None);
        lemma_no_outer(roots, roots[i].0, roots.len() as int);
    }
}

/// The owner of a path is its deepest owning root: no root that owns the
/// path is deeper; and a path no root owns has no owner.
pub proof fn lemma_deepest_owner_is_deepest(
    roots: Seq<(Seq<char>, Language)>,
    components: Seq<Seq<char>>,
    n: int,
)
    requires
        0 <= n <= roots.len(),
    ensures
        match deepest_owner(roots, components, n) {
            Some(o) => {
                &&& 0 <= o < n
                &&& root_owns(roots[o].0, components)
                &&& forall|j: int|
                    0 <= j < n && root_owns(#[trigger] roots[j].0, components) ==> root_depth(roots[j].0)
                        <= root_depth(roots[o].0)
            },
            None => forall|j: int| 0 <= j < n ==> !root_owns(#[trigger] roots[j].0, components),
        },
    decreases n,
{
    if n > 0 {
        lemma_deepest_owner_is_deepest(roots, components, n - 1);
    }
}

/// A list whose neighbours are in order is in order throughout.
proof fn lemma_adjacent_order(roots: Seq<(Seq<char>, Language)>)
    requires
        forall|a: int| 0 < a < roots.len() ==> text_before(#[trigger] roots[a - 1].0, roots[a].0),
    ensures
        in_key_order(roots),
    decreases roots.len(),
{
    if roots.len() > 1 {
        let rest = roots.drop_last();
        assert forall|a: int| 0 < a < rest.len() implies text_before(#[trigger] rest[a - 1].0, rest[a].0) by {
            assert(rest[a - 1] == roots[a - 1] && rest[a] == roots[a]);
        }
        lemma_adjacent_order(rest);
        assert forall|i: int, j: int| 0 <= i < j < roots.len() implies text_before(
            #[trigger] roots[i].0,
            #[trigger] roots[j].0,
        ) by {
            if j < roots.len() - 1 {
                assert(rest[i] == roots[i] && rest[j] == roots[j]);
            } else if i < j - 1 {
                assert(rest[i] == roots[i] && rest[j - 1] == roots[j - 1]);
                lemma_text_before_transitive(roots[i].0, roots[j - 1].0, roots[j].0);
            }
        }
    }
}

} // verus!
