//! The `--format text` renderer.

use super::{Diagnostic, DiagnosticView};
use super::diagnostic::diagnostic_views;
use crate::config::CONFIG_FILE;
use crate::text::{
    char_utf8_width, char_views, chars_of, concat_all, decimal, decimal_string, first_colon_space,
    first_colon_space_before, join, join_with, lemma_concat_all_step, lines, lines_of, space_string,
    spaces, string_of, utf8_len, views,
};
use vstd::prelude::*;

verus! {

/// Whether two diagnostics share one block: neither is tied to a line, and
/// everything but the path agrees.
pub open spec fn mergeable(a: DiagnosticView, b: DiagnosticView) -> bool {
    &&& a.line is None
    &&& b.line is None
    &&& a.tag == b.tag
    &&& a.rule == b.rule
    &&& a.message == b.message
    &&& a.notes == b.notes
    &&& a.help == b.help
}

/// The first of the first `n` groups whose leader `d` merges with.
pub open spec fn first_group(ds: Seq<DiagnosticView>, groups: Seq<Seq<int>>, d: DiagnosticView, n: int) -> Option<int>
    decreases n,
{
    if n <= 0 {
        None
    } else {
        match first_group(ds, groups, d, n - 1) {
            Some(g) => Some(g),
            None => if mergeable(d, ds[groups[n - 1][0]]) {
                Some(n - 1)
            } else {
                None
            },
        }
    }
}

/// The first `n` diagnostics in blocks: each joins the first block it
/// merges with, or opens a new one.
pub open spec fn grouping(ds: Seq<DiagnosticView>, n: nat) -> Seq<Seq<int>>
    decreases n,
{
    if n == 0 {
        Seq::empty()
    } else {
        let groups = grouping(ds, (n - 1) as nat);
        match first_group(ds, groups, ds[n - 1], groups.len() as int) {
            Some(g) => groups.update(g, groups[g].push(n - 1)),
            None => groups.push(seq![n - 1]),
        }
    }
}

/// `count` followed by the right noun.
pub open spec fn plural_text(count: nat, one: Seq<char>, many: Seq<char>) -> Seq<char> {
    decimal(count) + " "@ + if count == 1 { one } else { many }
}

/// The closing line: how many files were checked and what was found.
pub open spec fn summary_text(errors: nat, files_checked: nat) -> Seq<char> {
    let files = plural_text(files_checked, "file"@, "files"@);
    if errors == 0 {
        "checked "@ + files + " -- no violations"@
    } else {
        "checked "@ + files + " -- "@ + plural_text(errors, "violation"@, "violations"@)
    }
}

/// A width, capped at the largest a string can have.
pub open spec fn saturated(n: nat) -> nat {
    if n > usize::MAX {
        usize::MAX as nat
    } else {
        n
    }
}

/// A help text laid out after `=`, its continuation lines aligned under the
/// first item of a labelled list.
pub open spec fn help_text(help: Seq<char>) -> Seq<char> {
    let ls = lines_of(help);
    if ls.len() == 0 {
        Seq::empty()
    } else {
        let first = ls[0];
        let indent = match first_colon_space(first) {
            Some(at) => spaces(saturated(5 + utf8_len(first.take(at)) + 2)),
            None => spaces(5),
        };
        "   = "@ + first + "\n"@ + concat_all(ls.skip(1).map_values(|l: Seq<char>| indent + l + "\n"@))
    }
}

/// The block for one group: the leader's headline and location, the other
/// members' paths, then the leader's notes and help.
pub open spec fn block_text(leader: DiagnosticView, paths: Seq<Seq<char>>) -> Seq<char> {
    let also = concat_all(paths.skip(1).map_values(|p: Seq<char>| "      "@ + p + "\n"@));
    let notes = if leader.notes.len() == 0 {
        Seq::empty()
    } else {
        "   |\n"@ + concat_all(leader.notes.map_values(|n: Seq<char>| "   | "@ + n + "\n"@))
    };
    let help = if leader.help.len() == 0 {
        Seq::empty()
    } else {
        "   |\n"@ + concat_all(leader.help.map_values(|h: Seq<char>| help_text(h)))
    };
    head_text(leader) + also + notes + help
}

/// The paths of a group's members, in order.
pub open spec fn group_paths(ds: Seq<DiagnosticView>, group: Seq<int>) -> Seq<Seq<char>> {
    group.map_values(|i: int| ds[i].path)
}

/// The whole report: one block per group, the summary, and a note when
/// nothing was checked.
pub open spec fn report_text(ds: Seq<DiagnosticView>, files_checked: nat, roots: Seq<Seq<char>>) -> Seq<char> {
    let note = if files_checked == 0 {
        no_files_text(roots)
    } else {
        Seq::empty()
    };
    blocks_text(ds) + summary_text(ds.len(), files_checked) + "\n"@ + note
}

/// Every block is non-empty and names diagnostics that exist.
pub open spec fn well_grouped(groups: Seq<Seq<int>>, n: int) -> bool {
    forall|g: int|
        0 <= g < groups.len() ==> {
            &&& #[trigger] groups[g].len() > 0
            &&& forall|k: int| 0 <= k < groups[g].len() ==> 0 <= #[trigger] groups[g][k] < n
        }
}

/// The `--format text` renderer.
pub fn render_text(diagnostics: &[Diagnostic], files_checked: usize, roots: &[String]) -> (res: String)
    ensures
        res@ == report_text(diagnostic_views(diagnostics@), files_checked as nat, views(roots@)),
{
    let ghost ds = diagnostic_views(diagnostics@);
    let blocks = render_blocks(diagnostics);
    let mut out = blocks;
    out.append(summary(diagnostics.len(), files_checked).as_str());
    out.append("\n");
    // "no violations" after looking at nothing is a lie of omission: the
    // usual cause is being pointed somewhere above or below the roots.
    if files_checked == 0 {
        out.append(no_files_note(roots).as_str());
    }
    out
}

/// The note printed when no file was checked.
pub open spec fn no_files_text(roots: Seq<Seq<char>>) -> Seq<char> {
    "note: nothing here sits under a declared root ("@ + join_with(roots, ", "@)
        + "); check from the project root, or declare roots in "@ + "app-organizer.toml"@ + "\n"@
}

fn no_files_note(roots: &[String]) -> (res: String)
    ensures
        res@ == no_files_text(views(roots@)),
{
    let mut out = String::new();
    out.append("note: nothing here sits under a declared root (");
    out.append(join(roots, ", ").as_str());
    out.append("); check from the project root, or declare roots in ");
    out.append(CONFIG_FILE);
    out.append("\n");
    out
}

/// The blocks of all groups, each followed by a blank line.
pub open spec fn blocks_text(ds: Seq<DiagnosticView>) -> Seq<char> {
    concat_all(
        grouping(ds, ds.len()).map_values(|g: Seq<int>| block_text(ds[g[0]], group_paths(ds, g)) + "\n"@),
    )
}

fn render_blocks(diagnostics: &[Diagnostic]) -> (res: String)
    ensures
        res@ == blocks_text(diagnostic_views(diagnostics@)),
{
    let ghost ds = diagnostic_views(diagnostics@);
    let groups = group(diagnostics);
    let ghost gs = grouping(ds, ds.len());
    let ghost parts = gs.map_values(|g: Seq<int>| block_text(ds[g[0]], group_paths(ds, g)) + "\n"@);
    let mut out = String::new();
    let mut k: usize = 0;
    while k < groups.len()
        invariant
            ds == diagnostic_views(diagnostics@),
            gs == grouping(ds, ds.len()),
            parts == gs.map_values(|g: Seq<int>| block_text(ds[g[0]], group_paths(ds, g)) + "\n"@),
            index_views(groups@) == gs,
            well_grouped(gs, ds.len() as int),
            k <= groups.len(),
            out@ == concat_all(parts.take(k as int)),
        decreases groups.len() - k,
    {
        proof {
            lemma_concat_all_step(parts, k as int);
        }
        assert(gs[k as int] == groups@[k as int]@.map_values(|i: usize| i as int));
        assert forall|j: int| 0 <= j < groups@[k as int].len() implies #[trigger] groups@[k as int]@[j] < diagnostics.len() by {
            assert(gs[k as int][j] == groups@[k as int]@[j] as int);
        }
        let block = render_one(diagnostics, &groups[k]);
        out.append(block.as_str());
        out.append("\n");
        k += 1;
    }
    assert(parts.take(groups.len() as int) == parts);
    out
}

/// The views of a list of index lists.
pub open spec fn index_views(groups: Seq<Vec<usize>>) -> Seq<Seq<int>> {
    groups.map_values(|g: Vec<usize>| g@.map_values(|i: usize| i as int))
}

fn summary(errors: usize, files_checked: usize) -> (res: String)
    ensures
        res@ == summary_text(errors as nat, files_checked as nat),
{
    let files = plural(files_checked, "file", "files");
    let mut out = String::new();
    out.append("checked ");
    out.append(files.as_str());
    if errors == 0 {
        out.append(" -- no violations");
    } else {
        out.append(" -- ");
        out.append(plural(errors, "violation", "violations").as_str());
    }
    out
}

fn plural(count: usize, one: &str, many: &str) -> (res: String)
    ensures
        res@ == plural_text(count as nat, one@, many@),
{
    let mut out = decimal_string(count);
    out.append(" ");
    out.append(if count == 1 { one } else { many });
    out
}

fn same_strings(a: &Vec<String>, b: &Vec<String>) -> (res: bool)
    ensures
        res == (views(a@) == views(b@)),
{
    if a.len() != b.len() {
        return false;
    }
    let mut i: usize = 0;
    while i < a.len()
        invariant
            a.len() == b.len(),
            i <= a.len(),
            forall|j: int| 0 <= j < i ==> a@[j]@ == b@[j]@,
        decreases a.len() - i,
    {
        if a[i] != b[i] {
            assert(views(a@)[i as int] != views(b@)[i as int]);
            return false;
        }
        i += 1;
    }
    assert(views(a@) =~= views(b@));
    true
}

fn can_merge(a: &Diagnostic, b: &Diagnostic) -> (res: bool)
    ensures
        res == mergeable(a@, b@),
{
    a.line.is_none() && b.line.is_none() && a.tag == b.tag && a.rule == b.rule && a.message
        == b.message && same_strings(&a.notes, &b.notes) && same_strings(&a.help, &b.help)
}

/// One structural mistake usually shows up in many files at once, so
/// identical diagnostics share a block. A line number makes a diagnostic
/// specific to one file's contents, so those never merge.
fn group(diagnostics: &[Diagnostic]) -> (res: Vec<Vec<usize>>)
    ensures
        index_views(res@) == grouping(diagnostic_views(diagnostics@), diagnostics@.len()),
        well_grouped(index_views(res@), diagnostics@.len() as int),
{
    let ghost ds = diagnostic_views(diagnostics@);
    let mut groups: Vec<Vec<usize>> = Vec::new();
    let mut i: usize = 0;
    while i < diagnostics.len()
        invariant
            ds == diagnostic_views(diagnostics@),
            i <= diagnostics.len(),
            index_views(groups@) == grouping(ds, i as nat),
            well_grouped(index_views(groups@), i as int),
        decreases diagnostics.len() - i,
    {
        let ghost gs = index_views(groups@);
        let mut found: Option<usize> = None;
        let mut g: usize = 0;
        while g < groups.len()
            invariant
                gs == index_views(groups@),
                well_grouped(gs, i as int),
                i < diagnostics.len(),
                ds == diagnostic_views(diagnostics@),
                g <= groups.len(),
                found is None ==> first_group(ds, gs, ds[i as int], g as int) is None,
                found matches Some(f) ==> first_group(ds, gs, ds[i as int], groups.len() as int) == Some(f as int) && f < groups.len(),
            decreases groups.len() - g,
        {
            if found.is_none() {
                assert(gs[g as int].len() > 0);
                let leader = groups[g][0];
                assert(gs[g as int][0] == leader as int);
                if can_merge(&diagnostics[i], &diagnostics[leader]) {
                    found = Some(g);
                    proof {
                        lemma_first_group_stays(ds, gs, ds[i as int], g as int + 1, groups.len() as int);
                    }
                }
            }
            g += 1;
        }
        match found {
            Some(f) => {
                let mut members = copy_indices(&groups[f]);
                members.push(i);
                assert(members@.map_values(|x: usize| x as int) =~= gs[f as int].push(i as int));
                groups.set(f, members);
                assert(index_views(groups@) =~= gs.update(f as int, gs[f as int].push(i as int)));
            },
            None => {
                let mut members: Vec<usize> = Vec::new();
                members.push(i);
                assert(members@.map_values(|x: usize| x as int) =~= seq![i as int]);
                groups.push(members);
                assert(index_views(groups@) =~= gs.push(seq![i as int]));
            },
        }
        i += 1;
    }
    groups
}

fn copy_indices(v: &Vec<usize>) -> (res: Vec<usize>)
    ensures
        res@ == v@,
{
    let mut res: Vec<usize> = Vec::new();
    let mut i: usize = 0;
    while i < v.len()
        invariant
            i <= v.len(),
            res@ == v@.take(i as int),
        decreases v.len() - i,
    {
        res.push(v[i]);
        i += 1;
        assert(res@ =~= v@.take(i as int));
    }
    assert(v@.take(v.len() as int) == v@);
    res
}

proof fn lemma_first_group_stays(ds: Seq<DiagnosticView>, groups: Seq<Seq<int>>, d: DiagnosticView, n: int, m: int)
    requires
        0 < n <= m,
        first_group(ds, groups, d, n - 1) is None,
        mergeable(d, ds[groups[n - 1][0]]),
    ensures
        first_group(ds, groups, d, m) == Some(n - 1),
    decreases m - n,
{
    if m > n {
        lemma_first_group_stays(ds, groups, d, n, m - 1);
    }
}

fn render_one(diagnostics: &[Diagnostic], group: &Vec<usize>) -> (res: String)
    requires
        group.len() > 0,
        forall|k: int| 0 <= k < group.len() ==> #[trigger] group@[k] < diagnostics.len(),
    ensures
        res@ == block_text(
            diagnostic_views(diagnostics@)[group@[0] as int],
            group_paths(diagnostic_views(diagnostics@), group@.map_values(|i: usize| i as int)),
        ),
{
    let diagnostic = &diagnostics[group[0]];
    let mut out = render_head(diagnostic);
    out.append(render_also(diagnostics, group).as_str());
    out.append(render_notes(&diagnostic.notes).as_str());
    out.append(render_helps(&diagnostic.help).as_str());
    out
}

/// The headline and location of a block.
pub open spec fn head_text(leader: DiagnosticView) -> Seq<char> {
    "error["@ + leader.tag.label() + "]: "@ + leader.message + "\n"@ + match leader.line {
        Some(l) => "  --> "@ + leader.path + ":"@ + decimal(l as nat) + "\n"@,
        None => "  --> "@ + leader.path + "\n"@,
    }
}

fn render_head(diagnostic: &Diagnostic) -> (res: String)
    ensures
        res@ == head_text(diagnostic@),
{
    let mut out = String::new();
    out.append("error[");
    out.append(diagnostic.tag.as_str());
    out.append("]: ");
    out.append(diagnostic.message.as_str());
    out.append("\n");
    let ghost top = out@;
    let mut location = String::new();
    location.append("  --> ");
    location.append(diagnostic.path.as_str());
    match diagnostic.line {
        Some(line) => {
            location.append(":");
            location.append(decimal_string(line).as_str());
        },
        None => {},
    }
    location.append("\n");
    out.append(location.as_str());
    out
}

fn render_also(diagnostics: &[Diagnostic], group: &Vec<usize>) -> (res: String)
    requires
        group.len() > 0,
        forall|k: int| 0 <= k < group.len() ==> #[trigger] group@[k] < diagnostics.len(),
    ensures
        res@ == concat_all(group_paths(diagnostic_views(diagnostics@), group@.map_values(|i: usize| i as int)).skip(1).map_values(
            |p: Seq<char>| "      "@ + p + "\n"@,
        )),
{
    let ghost ds = diagnostic_views(diagnostics@);
    let ghost paths = group_paths(ds, group@.map_values(|i: usize| i as int));
    let ghost also = paths.skip(1).map_values(|p: Seq<char>| "      "@ + p + "\n"@);
    let mut out = String::new();
    let mut k: usize = 1;
    while k < group.len()
        invariant
            1 <= k <= group.len(),
            forall|j: int| 0 <= j < group.len() ==> #[trigger] group@[j] < diagnostics.len(),
            ds == diagnostic_views(diagnostics@),
            paths == group_paths(ds, group@.map_values(|i: usize| i as int)),
            also == paths.skip(1).map_values(|p: Seq<char>| "      "@ + p + "\n"@),
            out@ == concat_all(also.take(k - 1)),
        decreases group.len() - k,
    {
        proof {
            lemma_concat_all_step(also, k - 1);
        }
        out.append("      ");
        out.append(diagnostics[group[k]].path.as_str());
        out.append("\n");
        k += 1;
    }
    assert(also.take(group.len() - 1) == also);
    out
}

fn render_notes(notes: &Vec<String>) -> (res: String)
    ensures
        res@ == if notes.len() == 0 {
            Seq::empty()
        } else {
            "   |\n"@ + concat_all(views(notes@).map_values(|n: Seq<char>| "   | "@ + n + "\n"@))
        },
{
    let mut out = String::new();
    if notes.len() > 0 {
        out.append("   |\n");
        let ghost parts = views(notes@).map_values(|n: Seq<char>| "   | "@ + n + "\n"@);
        let mut n: usize = 0;
        while n < notes.len()
            invariant
                n <= notes.len(),
                parts == views(notes@).map_values(|n: Seq<char>| "   | "@ + n + "\n"@),
                out@ == "   |\n"@ + concat_all(parts.take(n as int)),
            decreases notes.len() - n,
        {
            proof {
                lemma_concat_all_step(parts, n as int);
            }
            out.append("   | ");
            out.append(notes[n].as_str());
            out.append("\n");
            n += 1;
        }
        assert(parts.take(notes.len() as int) == parts);
    }
    out
}

fn render_helps(help: &Vec<String>) -> (res: String)
    ensures
        res@ == if help.len() == 0 {
            Seq::empty()
        } else {
            "   |\n"@ + concat_all(views(help@).map_values(|h: Seq<char>| help_text(h)))
        },
{
    let mut out = String::new();
    if help.len() > 0 {
        out.append("   |\n");
        let ghost parts = views(help@).map_values(|h: Seq<char>| help_text(h));
        let mut h: usize = 0;
        while h < help.len()
            invariant
                h <= help.len(),
                parts == views(help@).map_values(|h: Seq<char>| help_text(h)),
                out@ == "   |\n"@ + concat_all(parts.take(h as int)),
            decreases help.len() - h,
        {
            proof {
                lemma_concat_all_step(parts, h as int);
            }
            out.append(render_help(&help[h]).as_str());
            h += 1;
        }
        assert(parts.take(help.len() as int) == parts);
    }
    out
}

/// Help text may be a labelled list (`tried: a\nb\nc`); continuation lines
/// are indented to line up under the first item.
fn render_help(help: &String) -> (res: String)
    ensures
        res@ == help_text(help@),
{
    let all = lines(&chars_of(help.as_str()));
    if all.len() == 0 {
        return String::new();
    }
    let first = &all[0];
    let ghost ls = lines_of(help@);
    let ghost indent_view = match first_colon_space(first@) {
        Some(at) => spaces(saturated(5 + utf8_len(first@.take(at)) + 2)),
        None => spaces(5),
    };
    let indent = match find_colon_space(first) {
        Some(at) => {
            match byte_width(first, at, usize::MAX - 7) {
                Some(width) => space_string(5 + width + 2),
                None => space_string(usize::MAX),
            }
        },
        None => space_string(5),
    };
    let mut out = String::new();
    out.append("   = ");
    out.append(string_of(first.as_slice()).as_str());
    out.append("\n");
    let ghost head = out@;
    let ghost rest = ls.skip(1).map_values(|l: Seq<char>| indent_view + l + "\n"@);
    let mut k: usize = 1;
    while k < all.len()
        invariant
            1 <= k <= all.len(),
            ls == char_views(all@),
            indent@ == indent_view,
            rest == ls.skip(1).map_values(|l: Seq<char>| indent_view + l + "\n"@),
            out@ == head + concat_all(rest.take(k - 1)),
        decreases all.len() - k,
    {
        proof {
            lemma_concat_all_step(rest, k - 1);
        }
        out.append(indent.as_str());
        out.append(string_of(all[k].as_slice()).as_str());
        out.append("\n");
        k += 1;
    }
    assert(rest.take(all.len() - 1) == rest);
    out
}

fn find_colon_space(s: &Vec<char>) -> (res: Option<usize>)
    ensures
        match res {
            Some(k) => first_colon_space(s@) == Some(k as int) && k < s.len(),
            None => first_colon_space(s@) is None,
        },
{
    let mut n: usize = 0;
    while n < s.len()
        invariant
            n <= s.len(),
            first_colon_space_before(s@, n as int) is None,
        decreases s.len() - n,
    {
        if n + 1 < s.len() && s[n] == ':' && s[n + 1] == ' ' {
            proof {
                lemma_colon_space_stays(s@, n as int + 1, s.len() as int);
            }
            return Some(n);
        }
        n += 1;
    }
    None
}

proof fn lemma_colon_space_stays(s: Seq<char>, n: int, m: int)
    requires
        0 < n <= m,
        first_colon_space_before(s, n - 1) is None,
        first_colon_space_before(s, n) is Some,
    ensures
        first_colon_space_before(s, m) == first_colon_space_before(s, n),
    decreases m - n,
{
    if m > n {
        lemma_colon_space_stays(s, n, m - 1);
    }
}

/// The UTF-8 length of the first `n` characters, or `None` past `limit`.
fn byte_width(s: &Vec<char>, n: usize, limit: usize) -> (res: Option<usize>)
    requires
        n <= s.len(),
    ensures
        match res {
            Some(w) => w == utf8_len(s@.take(n as int)) && w <= limit,
            None => utf8_len(s@.take(n as int)) > limit,
        },
{
    let mut total: usize = 0;
    let mut i: usize = 0;
    while i < n
        invariant
            n <= s.len(),
            i <= n,
            total == utf8_len(s@.take(i as int)),
            total <= limit,
        decreases n - i,
    {
        assert(s@.take(i + 1).drop_last() == s@.take(i as int));
        let w = char_utf8_width(s[i]);
        if w > limit || total > limit - w {
            proof {
                lemma_utf8_len_prefix_grows(s@, i as int + 1, n as int);
            }
            return None;
        }
        total = total + w;
        i += 1;
    }
    Some(total)
}

proof fn lemma_utf8_len_prefix_grows(s: Seq<char>, i: int, n: int)
    requires
        0 <= i <= n <= s.len(),
    ensures
        utf8_len(s.take(i)) <= utf8_len(s.take(n)),
    decreases n - i,
{
    if i < n {
        lemma_utf8_len_prefix_grows(s, i, n - 1);
        assert(s.take(n).drop_last() == s.take(n - 1));
    }
}

} // verus!

verus! {

/// Whether diagnostic `i` sits in some block.
pub open spec fn placed(groups: Seq<Seq<int>>, i: int) -> bool {
    exists|g: int, k: int| 0 <= g < groups.len() && 0 <= k < groups[g].len() && #[trigger] groups[g][k] == i
}

/// What grouping promises of its blocks over the first `n` diagnostics:
/// every diagnostic sits in exactly one block, a block lists its members in
/// input order, every member after the first merges with the block's
/// leader, and no two leaders merge.
pub open spec fn sound_grouping(ds: Seq<DiagnosticView>, groups: Seq<Seq<int>>, n: int) -> bool {
    &&& well_grouped(groups, n)
    &&& forall|g: int, k: int|
        0 <= g < groups.len() && 0 < k < groups[g].len() ==> mergeable(
            ds[#[trigger] groups[g][k]],
            ds[groups[g][0]],
        )
    &&& forall|g: int, k: int, j: int|
        0 <= g < groups.len() && 0 <= j < k < groups[g].len() ==> #[trigger] groups[g][j]
            < #[trigger] groups[g][k]
    &&& forall|g: int, k: int, h: int, j: int|
        0 <= g < groups.len() && 0 <= h < groups.len() && 0 <= k < groups[g].len() && 0 <= j
            < groups[h].len() && #[trigger] groups[g][k] == #[trigger] groups[h][j] ==> g == h && k == j
    &&& forall|i: int| 0 <= i < n ==> #[trigger] placed(groups, i)
    &&& forall|g: int, h: int|
        0 <= g < h < groups.len() ==> !mergeable(
            ds[#[trigger] groups[h][0]],
            ds[#[trigger] groups[g][0]],
        )
}

proof fn lemma_first_group_meaning(ds: Seq<DiagnosticView>, groups: Seq<Seq<int>>, d: DiagnosticView, n: int)
    ensures
        match first_group(ds, groups, d, n) {
            Some(g) => 0 <= g < n && mergeable(d, ds[groups[g][0]]),
            None => forall|h: int| 0 <= h < n ==> !mergeable(d, ds[#[trigger] groups[h][0]]),
        },
    decreases n,
{
    if n > 0 {
        lemma_first_group_meaning(ds, groups, d, n - 1);
    }
}

/// Identical diagnostics share a block, and grouping loses, repeats and
/// reorders nothing: every diagnostic sits in exactly one block, blocks list
/// their members in input order, every member merges with its block's
/// leader (so a diagnostic tied to a line is alone in its block), and no two
/// leaders merge.
pub proof fn lemma_grouping_is_sound(ds: Seq<DiagnosticView>, n: nat)
    requires
        n <= ds.len(),
    ensures
        sound_grouping(ds, grouping(ds, n), n as int),
    decreases n,
{
    if n > 0 {
        let m = (n - 1) as nat;
        lemma_grouping_is_sound(ds, m);
        let before = grouping(ds, m);
        let d = ds[m as int];
        let groups = grouping(ds, n);
        lemma_first_group_meaning(ds, before, d, before.len() as int);
        match first_group(ds, before, d, before.len() as int) {
            Some(f) => {
                assert(groups == before.update(f, before[f].push(m as int)));
                assert forall|g: int| 0 <= g < groups.len() implies groups[g][0] == before[g][0] by {
                    if g == f {
                        assert(groups[g] == before[f].push(m as int));
                    }
                }
                assert forall|g: int, k: int|
                    0 <= g < groups.len() && 0 <= k < groups[g].len() implies (k < before[g].len()
                        && #[trigger] groups[g][k] == before[g][k]) || (g == f && k == before[f].len()
                        && groups[g][k] == m) by {
                    if g == f {
                        assert(groups[g] == before[f].push(m as int));
                    }
                }
                assert(well_grouped(groups, n as int));
                assert forall|i: int| 0 <= i < n implies #[trigger] placed(groups, i) by {
                    if i == m {
                        assert(groups[f][before[f].len() as int] == i);
                    } else {
                        assert(placed(before, i));
                        let (g, k) = choose|g: int, k: int|
                            0 <= g < before.len() && 0 <= k < before[g].len() && #[trigger] before[g][k] == i;
                        assert(groups[g][k] == i);
                    }
                }
            },
            None => {
                assert(groups == before.push(seq![m as int]));
                assert forall|g: int, k: int|
                    0 <= g < groups.len() && 0 <= k < groups[g].len() implies (g < before.len() && k
                        < before[g].len() && #[trigger] groups[g][k] == before[g][k]) || (g == before.len()
                        && k == 0 && groups[g][k] == m) by {}
                assert(well_grouped(groups, n as int));
                assert forall|i: int| 0 <= i < n implies #[trigger] placed(groups, i) by {
                    if i == m {
                        assert(groups[before.len() as int][0] == i);
                    } else {
                        assert(placed(before, i));
                        let (g, k) = choose|g: int, k: int|
                            0 <= g < before.len() && 0 <= k < before[g].len() && #[trigger] before[g][k] == i;
                        assert(groups[g][k] == i);
                    }
                }
            },
        }
    }
}

/// Diagnostics that share a block differ at most in their path: neither is
/// tied to a line, and tag, rule, message, notes and help all agree. So two
/// diagnostics with different messages are never rendered as one block.
pub proof fn lemma_block_members_differ_only_in_path(ds: Seq<DiagnosticView>, n: nat, g: int, j: int, k: int)
    requires
        n <= ds.len(),
        0 <= g < grouping(ds, n).len(),
        0 <= j < k < grouping(ds, n)[g].len(),
    ensures
        ({
            let a = ds[grouping(ds, n)[g][j]];
            let b = ds[grouping(ds, n)[g][k]];
            &&& a.line is None
            &&& b.line is None
            &&& a.tag == b.tag
            &&& a.rule == b.rule
            &&& a.message == b.message
            &&& a.notes == b.notes
            &&& a.help == b.help
        }),
{
    lemma_grouping_is_sound(ds, n);
    let groups = grouping(ds, n);
    assert(mergeable(ds[groups[g][k]], ds[groups[g][0]]));
    if j > 0 {
        assert(mergeable(ds[groups[g][j]], ds[groups[g][0]]));
    }
}

/// Diagnostics that differ at most in their path, neither tied to a line,
/// share a block.
pub proof fn lemma_alike_diagnostics_share_a_block(ds: Seq<DiagnosticView>, n: nat, a: int, b: int)
    requires
        n <= ds.len(),
        0 <= a < n,
        0 <= b < n,
        ds[a].line is None,
        ds[b].line is None,
        ds[a].tag == ds[b].tag,
        ds[a].rule == ds[b].rule,
        ds[a].message == ds[b].message,
        ds[a].notes == ds[b].notes,
        ds[a].help == ds[b].help,
    ensures
        exists|g: int, j: int, k: int|
            0 <= g < grouping(ds, n).len() && 0 <= j < grouping(ds, n)[g].len() && 0 <= k < grouping(
                ds,
                n,
            )[g].len() && #[trigger] grouping(ds, n)[g][j] == a && #[trigger] grouping(ds, n)[g][k] == b,
{
    lemma_grouping_is_sound(ds, n);
    let groups = grouping(ds, n);
    assert(placed(groups, a));
    assert(placed(groups, b));
    let (g, j) = choose|g: int, j: int| 0 <= g < groups.len() && 0 <= j < groups[g].len() && #[trigger] groups[g][j] == a;
    let (h, k) = choose|h: int, k: int| 0 <= h < groups.len() && 0 <= k < groups[h].len() && #[trigger] groups[h][k] == b;
    if j > 0 {
        assert(mergeable(ds[groups[g][j]], ds[groups[g][0]]));
    }
    if k > 0 {
        assert(mergeable(ds[groups[h][k]], ds[groups[h][0]]));
    }
    if g < h {
        assert(!mergeable(ds[groups[h][0]], ds[groups[g][0]]));
    } else if h < g {
        assert(!mergeable(ds[groups[g][0]], ds[groups[h][0]]));
    }
    assert(g == h);
    assert(groups[g][j] == a && groups[g][k] == b);
}

} // verus!
