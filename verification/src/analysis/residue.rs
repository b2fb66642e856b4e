//! Development residue: build output and caches such as `target/` or
//! `node_modules/`, sized from the scan's own entries.
use vstd::prelude::*;
use vstd::string::*;
use crate::analysis::{Analyzer, Finding, FindingKind, FindingView, RiskLevel};
use crate::config::AppConfig;
use crate::fs::metadata::FileEntry;
use crate::order::{is_stable_sort, lemma_stable_sort_keeps_input, stable_sort, strict_weak_order, view_seq};
use crate::paths::{file_name, lemma_path_lt_order, path_file_name, path_less, path_lt, path_starts_with, starts_with};
use crate::text::{copy_strings, push_chars, str_chars};

verus! {

/// The rule a directory matches: its name, when the name is one of `rules`.
pub open spec fn residue_name(e: FileEntry, rules: Seq<Seq<char>>) -> Option<Seq<char>> {
    match file_name(e.path@) {
        Some(name) => if e.is_dir && rules.contains(name) {
            Some(name)
        } else {
            None
        },
        None => None,
    }
}

/// Total size of the files of `entries` that lie under `dir`.
pub open spec fn dir_bytes(entries: Seq<FileEntry>, dir: Seq<char>) -> nat
    decreases entries.len(),
{
    if entries.len() == 0 {
        0
    } else {
        let e = entries.last();
        dir_bytes(entries.drop_last(), dir) + if !e.is_dir && starts_with(e.path@, dir) {
            e.size as nat
        } else {
            0nat
        }
    }
}

/// The reason given for a residue directory.
pub open spec fn residue_reason(name: Seq<char>) -> Seq<char> {
    "matched development residue directory rule: "@ + name
}

/// The findings for the residue directories among `prefix`, in scan order,
/// each sized by the files of `all` below it.
pub open spec fn residue_candidates(prefix: Seq<FileEntry>, all: Seq<FileEntry>, rules: Seq<Seq<char>>) -> Seq<FindingView>
    decreases prefix.len(),
{
    if prefix.len() == 0 {
        seq![]
    } else {
        let rest = residue_candidates(prefix.drop_last(), all, rules);
        let e = prefix.last();
        match residue_name(e, rules) {
            Some(name) => rest.push(
                FindingView {
                    path: e.path@,
                    kind: FindingKind::DevResidue,
                    size: dir_bytes(all, e.path@) as u64,
                    risk: RiskLevel::Safe,
                    reason: residue_reason(name),
                },
            ),
            None => rest,
        }
    }
}

/// Larger residue first; equal sizes by path.
pub open spec fn residue_before() -> spec_fn(FindingView, FindingView) -> bool {
    |x: FindingView, y: FindingView| x.size > y.size || (x.size == y.size && path_lt(x.path, y.path))
}

proof fn lemma_dir_bytes_prefix(entries: Seq<FileEntry>, dir: Seq<char>, i: int)
    requires
        0 <= i <= entries.len(),
    ensures
        dir_bytes(entries.take(i), dir) <= dir_bytes(entries, dir),
    decreases entries.len() - i,
{
    if i < entries.len() {
        lemma_dir_bytes_prefix(entries, dir, i + 1);
        assert(entries.take(i + 1).drop_last() =~= entries.take(i));
    } else {
        assert(entries.take(i) =~= entries);
    }
}

/// Every residue directory among `entries` has its files' sizes add up
/// within `u64`.
pub open spec fn residue_sizes_fit(entries: Seq<FileEntry>, rules: Seq<Seq<char>>) -> bool {
    forall|i: int|
        0 <= i < entries.len() && #[trigger] residue_name(entries[i], rules) is Some ==> dir_bytes(
            entries,
            entries[i].path@,
        ) <= u64::MAX
}

/// Recognises residue directories by name.
#[derive(Debug, Clone)]
pub struct ResidueAnalyzer {
    rules: Vec<String>,
}

impl ResidueAnalyzer {
    /// The directory names that count as residue.
    pub closed spec fn rules(&self) -> Seq<Seq<char>> {
        self.rules.deep_view()
    }

    /// An analyzer with the configuration's residue rules.
    pub fn new(config: &AppConfig) -> (r: Self)
        ensures
            r.rules() == config.residue_dirs.deep_view(),
    {
        ResidueAnalyzer { rules: copy_strings(&config.residue_dirs) }
    }

    /// The rule a directory entry matches, if any.
    fn residue_rule(&self, entry: &FileEntry) -> (r: Option<Vec<char>>)
        ensures
            match r {
                Some(name) => residue_name(*entry, self.rules()) == Some(name@),
                None => residue_name(*entry, self.rules()) is None,
            },
    {
        let p = str_chars(entry.path.as_str());
        let name = path_file_name(&p)?;
        if !entry.is_dir {
            return None;
        }
        let n = self.rules.len();
        let mut k: usize = 0;
        while k < n
            invariant
                n == self.rules@.len(),
                self.rules().len() == n,
                k <= n,
                file_name(entry.path@) == Some(name@),
                entry.is_dir,
                forall|j: int| 0 <= j < k ==> self.rules()[j] != name@,
            decreases n - k,
        {
            assert(self.rules()[k as int] == self.rules@[k as int]@);
            let rule = str_chars(self.rules[k].as_str());
            if crate::text::chars_equal(&rule, &name) {
                assert(self.rules()[k as int] == name@);
                assert(self.rules().contains(name@));
                return Some(name);
            }
            k = k + 1;
        }
        None
    }

    /// Total size of the files of `entries` under `dir`.
    fn directory_size(&self, dir: &FileEntry, entries: &[FileEntry]) -> (r: u64)
        requires
            dir_bytes(entries@, dir.path@) <= u64::MAX,
        ensures
            r == dir_bytes(entries@, dir.path@),
    {
        let d = str_chars(dir.path.as_str());
        let mut sum: u64 = 0;
        let mut i: usize = 0;
        while i < entries.len()
            invariant
                i <= entries@.len(),
                d@ == dir.path@,
                dir_bytes(entries@, dir.path@) <= u64::MAX,
                sum == dir_bytes(entries@.take(i as int), dir.path@),
            decreases entries.len() - i,
        {
            proof {
                assert(entries@.take(i + 1).drop_last() =~= entries@.take(i as int));
                lemma_dir_bytes_prefix(entries@, dir.path@, i + 1);
            }
            let e = &entries[i];
            if e.is_file() {
                let p = str_chars(e.path.as_str());
                if path_starts_with(&p, &d) {
                    sum = sum + e.size;
                }
            }
            i = i + 1;
        }
        assert(entries@.take(entries@.len() as int) =~= entries@);
        sum
    }
}

impl Analyzer for ResidueAnalyzer {
    /// Scans in which every residue directory's files add up within `u64`.
    open spec fn accepts(&self, entries: Seq<FileEntry>) -> bool {
        residue_sizes_fit(entries, self.rules())
    }

    fn name(&self) -> (r: &'static str)
        ensures
            r@ == "dev-residue"@,
    {
        "dev-residue"
    }

    /// The residue directories among the entries, each sized by the files
    /// below it, larger first and equal sizes ordered by path.
    fn analyze(&self, entries: &[FileEntry]) -> (r: Vec<Finding>)
        ensures
            is_stable_sort(view_seq(r@), residue_candidates(entries@, entries@, self.rules()), residue_before()),
    {
        let mut found: Vec<Finding> = Vec::new();
        let mut i: usize = 0;
        while i < entries.len()
            invariant
                i <= entries@.len(),
                residue_sizes_fit(entries@, self.rules()),
                view_seq(found@) == residue_candidates(entries@.take(i as int), entries@, self.rules()),
            decreases entries.len() - i,
        {
            assert(entries@.take(i + 1).drop_last() =~= entries@.take(i as int));
            let e = &entries[i];
            match self.residue_rule(e) {
                Some(name) => {
                    assert(residue_name(entries@[i as int], self.rules()) is Some);
                    let size = self.directory_size(e, entries);
                    let mut reason = String::new();
                    reason.append("matched development residue directory rule: ");
                    push_chars(&mut reason, &name);
                    let f = Finding {
                        path: e.path.clone(),
                        kind: FindingKind::DevResidue,
                        size,
                        risk: RiskLevel::Safe,
                        reason,
                    };
                    let ghost before = view_seq(found@);
                    found.push(f);
                    assert(view_seq(found@) =~= before.push(f@));
                },
                None => {},
            }
            i = i + 1;
        }
        assert(entries@.take(entries@.len() as int) =~= entries@);
        let before = |x: &Finding, y: &Finding| -> (res: bool)
            ensures
                res == (x.size > y.size || (x.size == y.size && path_lt(x.path@, y.path@))),
            {
                if x.size != y.size {
                    x.size > y.size
                } else {
                    let a = str_chars(x.path.as_str());
                    let b = str_chars(y.path.as_str());
                    path_less(&a, &b)
                }
            };
        proof {
            let b = residue_before();
            assert forall|x: FindingView| !#[trigger] b(x, x) by {
                lemma_path_lt_order(x.path, x.path, x.path);
            }
            assert forall|x: FindingView, y: FindingView, z: FindingView|
                #[trigger] b(x, y) && #[trigger] b(y, z) implies b(x, z) by {
                lemma_path_lt_order(x.path, y.path, z.path);
            }
            assert forall|x: FindingView, y: FindingView, z: FindingView|
                !#[trigger] b(x, y) && !#[trigger] b(y, z) implies !b(x, z) by {
                lemma_path_lt_order(x.path, y.path, z.path);
                lemma_path_lt_order(y.path, x.path, z.path);
                lemma_path_lt_order(x.path, z.path, y.path);
                lemma_path_lt_order(z.path, y.path, x.path);
                lemma_path_lt_order(y.path, z.path, x.path);
                lemma_path_lt_order(z.path, x.path, y.path);
            }
            assert(strict_weak_order(b));
        }
        stable_sort(&found, &before, Ghost(residue_before()))
    }
}

/// The finding reported for residue directory `e` matching rule `name`.
pub open spec fn residue_finding(e: FileEntry, all: Seq<FileEntry>, name: Seq<char>) -> FindingView {
    FindingView {
        path: e.path@,
        kind: FindingKind::DevResidue,
        size: dir_bytes(all, e.path@) as u64,
        risk: RiskLevel::Safe,
        reason: "matched development residue directory rule: "@ + name,
    }
}

proof fn lemma_candidates_complete(prefix: Seq<FileEntry>, all: Seq<FileEntry>, rules: Seq<Seq<char>>, i: int, name: Seq<char>)
    requires
        0 <= i < prefix.len(),
        prefix[i].is_dir,
        file_name(prefix[i].path@) == Some(name),
        rules.contains(name),
    ensures
        exists|k: int|
            0 <= k < residue_candidates(prefix, all, rules).len() && #[trigger] residue_candidates(prefix, all, rules)[k]
                == residue_finding(prefix[i], all, name),
    decreases prefix.len(),
{
    let rest = residue_candidates(prefix.drop_last(), all, rules);
    if i == prefix.len() - 1 {
        assert(residue_candidates(prefix, all, rules)[rest.len() as int] == residue_finding(prefix[i], all, name));
    } else {
        assert(prefix.drop_last()[i] == prefix[i]);
        lemma_candidates_complete(prefix.drop_last(), all, rules, i, name);
        let k = choose|k: int| 0 <= k < rest.len() && #[trigger] rest[k] == residue_finding(prefix[i], all, name);
        assert(residue_candidates(prefix, all, rules)[k] == rest[k]);
    }
}

/// Every directory whose name is one of the rules is reported, whatever
/// the name looks like: the findings hold one for its path, as safe
/// residue sized by the files below it, naming the rule it matched.
pub proof fn lemma_residue_findings_complete(
    r: Seq<FindingView>,
    entries: Seq<FileEntry>,
    rules: Seq<Seq<char>>,
    i: int,
    name: Seq<char>,
)
    requires
        is_stable_sort(r, residue_candidates(entries, entries, rules), residue_before()),
        0 <= i < entries.len(),
        entries[i].is_dir,
        file_name(entries[i].path@) == Some(name),
        rules.contains(name),
    ensures
        exists|k: int|
            0 <= k < r.len() && (#[trigger] r[k]).path == entries[i].path@ && r[k].kind == FindingKind::DevResidue
                && r[k].risk == RiskLevel::Safe && r[k].size == dir_bytes(entries, entries[i].path@) as u64
                && r[k].reason == "matched development residue directory rule: "@ + name,
{
    lemma_candidates_complete(entries, entries, rules, i, name);
    let c = residue_candidates(entries, entries, rules);
    let j = choose|j: int| 0 <= j < c.len() && #[trigger] c[j] == residue_finding(entries[i], entries, name);
    lemma_stable_sort_keeps_input(r, c, residue_before(), j);
    let k = choose|k: int| 0 <= k < r.len() && #[trigger] r[k] == c[j];
    assert(r[k].path == entries[i].path@);
}

} // verus!
