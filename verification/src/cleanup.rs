//! Which files of a repository are mere state of a Maven client, and what
//! cleaning them up reports.
use vstd::prelude::*;

use crate::text;

verus! {

/// The name of a file in which a Maven client keeps track of its downloads.
pub open spec fn is_state_name(name: Seq<char>) -> bool {
    name == "_remote.repositories"@ || text::ends(name, ".lastUpdated"@)
}

/// What to clean up: a repository, and whether to only say so.
#[derive(Debug, Clone)]
pub struct CleanupArgs {
    /// The root of the repository.
    pub repo: String,
    /// Delete nothing.
    pub dry_run: bool,
}

/// Something that a walk through a repository met.
#[derive(Debug)]
pub struct WalkEntry {
    /// The file name, if it is text.
    pub name: Option<String>,
    /// It is a regular file.
    pub is_file: bool,
}

impl WalkEntry {
    /// The entry is a file that a clean-up removes.
    pub open spec fn is_selected(self) -> bool {
        self.is_file && self.name is Some && is_state_name(self.name->0@)
    }
}

/// The positions, below `n`, of the entries that a clean-up removes.
pub open spec fn selected(entries: Seq<WalkEntry>, n: int) -> Seq<int>
    decreases n,
{
    if n <= 0 {
        seq![]
    } else if entries[n - 1].is_selected() {
        selected(entries, n - 1).push(n - 1)
    } else {
        selected(entries, n - 1)
    }
}

/// Whether a file with this name is state of a Maven client. A path without a
/// file name, or with one that is not text, counts as the empty name.
pub fn is_cleanup_file(name: Option<&str>) -> (r: bool)
    ensures
        r == is_state_name(text::or_empty(text::opt_str(name))),
{
    let name = text::text_or_empty(name);
    text::equals(name, "_remote.repositories") || text::ends_with(name, ".lastUpdated")
}

proof fn lemma_empty_is_no_state_name()
    ensures
        !is_state_name(Seq::<char>::empty()),
{
    reveal_strlit("_remote.repositories");
    reveal_strlit(".lastUpdated");
    assert("_remote.repositories"@.len() == 20);
}

/// The positions of the entries that a clean-up removes, in the order in which
/// the walk met them.
pub fn collect_files(entries: &Vec<WalkEntry>) -> (positions: Vec<usize>)
    ensures
        positions@.map_values(|p: usize| p as int) == selected(entries@, entries@.len() as int),
{
    let mut positions: Vec<usize> = Vec::new();
    for i in 0..entries.len()
        invariant
            positions@.map_values(|p: usize| p as int) == selected(entries@, i as int),
    {
        let ghost before = positions@.map_values(|p: usize| p as int);
        let name = text::text_in(&entries[i].name);
        proof {
            lemma_empty_is_no_state_name();
        }
        if entries[i].is_file && is_cleanup_file(name) {
            positions.push(i);
            assert(positions@.map_values(|p: usize| p as int) == before.push(i as int));
        }
    }
    positions
}

/// The line about one file.
pub open spec fn file_report(dry_run: bool, path: Seq<char>) -> Seq<char> {
    if dry_run {
        "将删除: "@ + path
    } else {
        "已删除: "@ + path
    }
}

/// The line at the end.
pub open spec fn summary(dry_run: bool, count: nat) -> Seq<char> {
    (if dry_run {
        "找到"@
    } else {
        "清理"@
    }) + " "@ + text::decimal(count) + " 个 Maven 状态文件"@
}

/// The line about one file.
pub fn report_file(args: &CleanupArgs, path: &str) -> (line: String)
    ensures
        line@ == file_report(args.dry_run, path@),
{
    let mut line = if args.dry_run {
        "将删除: ".to_string()
    } else {
        "已删除: ".to_string()
    };
    line.append(path);
    line
}

/// What a clean-up does.
#[derive(Debug)]
pub struct CleanupPlan {
    /// The positions of the entries that are concerned.
    pub files: Vec<usize>,
    /// They are removed, not only reported.
    pub delete: bool,
    /// What is said when all of them are dealt with.
    pub summary: String,
}

/// What a clean-up does, given the canonical path of the repository, whether it
/// is a directory, and the entries that a walk through it met: a path that is
/// no directory is refused.
pub fn run_cleanup(args: &CleanupArgs, repo: &str, is_dir: bool, entries: &Vec<WalkEntry>) -> (r:
    Result<CleanupPlan, String>)
    ensures
        match r {
            Ok(plan) => is_dir && plan.files@.map_values(|p: usize| p as int) == selected(
                entries@,
                entries@.len() as int,
            ) && plan.delete == !args.dry_run && plan.summary@ == summary(
                args.dry_run,
                plan.files@.len(),
            ),
            Err(message) => !is_dir && message@ == "Maven 仓库路径不是目录: "@ + repo@,
        },
{
    if !is_dir {
        let mut message = "Maven 仓库路径不是目录: ".to_string();
        message.append(repo);
        return Err(message);
    }
    let files = collect_files(entries);
    let mut line = if args.dry_run {
        "找到".to_string()
    } else {
        "清理".to_string()
    };
    line.append(" ");
    text::push_decimal(&mut line, files.len() as u128);
    line.append(" 个 Maven 状态文件");
    Ok(CleanupPlan { files, delete: !args.dry_run, summary: line })
}

/// A clean-up removes regular files only, and of those no JAR, no POM and no
/// XML file, such as repository metadata.
pub proof fn law_cleanup_spares_artifacts(entry: WalkEntry)
    ensures
        !entry.is_file ==> !entry.is_selected(),
        entry.name matches Some(name) && (text::ends(name@, ".jar"@) || text::ends(name@, ".pom"@)
            || text::ends(name@, ".xml"@)) ==> !entry.is_selected(),
{
    reveal_strlit("_remote.repositories");
    reveal_strlit(".lastUpdated");
    reveal_strlit(".jar");
    reveal_strlit(".pom");
    reveal_strlit(".xml");
    let name = text::opt_view(entry.name).unwrap_or(seq![]);
    let last = name.last();
    if text::ends(name, ".jar"@) {
        assert(".jar"@[3] == 'r');
        assert(name.subrange(name.len() - 4, name.len() as int)[3] == last);
    }
    if text::ends(name, ".pom"@) {
        assert(".pom"@[3] == 'm');
        assert(name.subrange(name.len() - 4, name.len() as int)[3] == last);
    }
    if text::ends(name, ".lastUpdated"@) {
        assert(".lastUpdated"@[11] == 'd');
        assert(name.subrange(name.len() - 12, name.len() as int)[11] == last);
    }
    if text::ends(name, ".xml"@) {
        assert(".xml"@[3] == 'l');
        assert(name.subrange(name.len() - 4, name.len() as int)[3] == last);
    }
    assert("_remote.repositories"@.last() == 's');
}

/// The names of state files.
pub proof fn law_state_names(name: Seq<char>)
    ensures
        is_state_name(name) <==> (name == "_remote.repositories"@ || exists|stem: Seq<char>|
            name == #[trigger] (stem + ".lastUpdated"@)),
{
    text::law_affixes(name, ".lastUpdated"@);
}

/// An entry of the walk is removed if and only if it is a regular file whose
/// name is `_remote.repositories` or ends with `.lastUpdated`.
pub proof fn law_cleanup_is_exact(entries: Seq<WalkEntry>, n: int, p: int)
    requires
        0 <= n <= entries.len(),
    ensures
        selected(entries, n).contains(p) <==> 0 <= p < n && entries[p].is_file
            && (entries[p].name matches Some(name) && (name@ == "_remote.repositories"@ || exists|
            stem: Seq<char>,
        | name@ == #[trigger] (stem + ".lastUpdated"@))),
{
    lemma_selected(entries, n, p);
    if 0 <= p < n && entries[p].name is Some {
        law_state_names(entries[p].name->0@);
    }
}

/// The entries are removed in the order of the walk, each once.
pub proof fn law_cleanup_keeps_order(entries: Seq<WalkEntry>, n: int, i: int, j: int)
    requires
        0 <= n <= entries.len(),
        0 <= i < j < selected(entries, n).len(),
    ensures
        selected(entries, n)[i] < selected(entries, n)[j],
    decreases n,
{
    if n > 0 {
        let before = selected(entries, n - 1);
        if j < before.len() {
            law_cleanup_keeps_order(entries, n - 1, i, j);
        } else {
            assert(before.contains(before[i]));
            lemma_selected(entries, n - 1, before[i]);
        }
    }
}

/// What is said of a file and at the end tells a dry run from a deletion.
pub proof fn law_reports(path: Seq<char>, count: nat)
    ensures
        file_report(true, path) == "将删除: "@ + path,
        file_report(false, path) == "已删除: "@ + path,
        summary(true, count) == "找到"@ + " "@ + text::decimal(count) + " 个 Maven 状态文件"@,
        summary(false, count) == "清理"@ + " "@ + text::decimal(count) + " 个 Maven 状态文件"@,
{
}

proof fn lemma_selected(entries: Seq<WalkEntry>, n: int, p: int)
    requires
        0 <= n <= entries.len(),
    ensures
        selected(entries, n).contains(p) <==> 0 <= p < n && entries[p].is_selected(),
    decreases n,
{
    if n > 0 {
        lemma_selected(entries, n - 1, p);
        let before = selected(entries, n - 1);
        if entries[n - 1].is_selected() {
            let after = before.push(n - 1);
            if before.contains(p) {
                let i = before.index_of(p);
                assert(after[i] == p);
            }
            if p == n - 1 {
                assert(after[before.len() as int] == p);
            }
            if after.contains(p) && p != n - 1 {
                let i = after.index_of(p);
                assert(before[i] == p);
            }
        }
    }
}

} // verus!
