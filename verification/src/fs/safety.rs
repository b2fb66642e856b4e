//! Protection of system directories: cleaning never touches a protected root
//! or, except for the filesystem root itself, anything below one.
//!
//! Paths are compared as given; a caller that wants symbolic links and
//! relative parts resolved hands in the canonical form of each path.
use vstd::prelude::*;
use crate::config::AppConfig;
use crate::paths::{components, path_components, path_starts_with, starts_with};
use crate::text::{copy_strings, string_from_chars};

verus! {

/// The path has no parent: it is empty or it is the root.
pub open spec fn is_top(p: Seq<char>) -> bool {
    let cs = components(p);
    cs.len() == 0 || cs.last() == seq!['/']
}

/// `path` falls under `root`: a top-level root only protects itself, any
/// other root protects itself and everything below it.
pub open spec fn protected_by(path: Seq<char>, root: Seq<char>) -> bool {
    if is_top(root) {
        components(path) == components(root)
    } else {
        starts_with(path, root)
    }
}

/// The protected roots of a guard.
#[derive(Debug, Clone)]
pub struct SafetyGuard {
    protected_roots: Vec<String>,
}

impl SafetyGuard {
    /// The roots this guard protects.
    pub closed spec fn roots(&self) -> Seq<Seq<char>> {
        self.protected_roots.deep_view()
    }

    /// `path` lies in one of the protected roots.
    pub open spec fn protects(&self, path: Seq<char>) -> bool {
        exists|k: int| 0 <= k < self.roots().len() && protected_by(path, #[trigger] self.roots()[k])
    }

    /// `path` is one of the protected roots.
    pub open spec fn is_root(&self, path: Seq<char>) -> bool {
        exists|k: int| 0 <= k < self.roots().len() && components(path) == components(#[trigger] self.roots()[k])
    }

    /// A guard over the configuration's protected roots.
    pub fn new(config: &AppConfig) -> (r: Self)
        ensures
            r.roots() == config.protected_roots.deep_view(),
    {
        SafetyGuard { protected_roots: copy_strings(&config.protected_roots) }
    }

    /// A guard over the given roots.
    pub fn from_roots(roots: Vec<String>) -> (r: Self)
        ensures
            r.roots() == roots.deep_view(),
    {
        SafetyGuard { protected_roots: roots }
    }

    /// Whether `path` lies in a protected root.
    pub fn is_protected(&self, path: &str) -> (r: bool)
        ensures
            r == self.protects(path@),
    {
        let p = crate::text::str_chars(path);
        let pc = path_components(&p);
        let n = self.protected_roots.len();
        let mut k: usize = 0;
        while k < n
            invariant
                n == self.protected_roots@.len(),
                self.roots().len() == n,
                k <= n,
                p@ == path@,
                pc.deep_view() == components(path@),
                forall|j: int| 0 <= j < k ==> !protected_by(path@, #[trigger] self.roots()[j]),
            decreases n - k,
        {
            let root = crate::text::str_chars(self.protected_roots[k].as_str());
            assert(root@ == self.roots()[k as int]);
            let rc = path_components(&root);
            let top = rc.len() == 0 || (rc[rc.len() - 1].len() == 1 && rc[rc.len() - 1][0] == '/');
            proof {
                if rc.len() > 0 {
                    let last = rc@[rc@.len() - 1];
                    assert(rc.deep_view()[rc@.len() - 1] =~= last@);
                    if last@.len() == 1 && last@[0] == '/' {
                        assert(last@ =~= seq!['/']);
                    }
                }
            }
            let hit = if top {
                same_components(&pc, &rc)
            } else {
                path_starts_with(&p, &root)
            };
            if hit {
                return true;
            }
            k = k + 1;
        }
        false
    }

    /// Whether `path` is itself one of the protected roots.
    pub fn is_dangerous_root(&self, path: &str) -> (r: bool)
        ensures
            r == self.is_root(path@),
    {
        let p = crate::text::str_chars(path);
        let pc = path_components(&p);
        let n = self.protected_roots.len();
        let mut k: usize = 0;
        while k < n
            invariant
                n == self.protected_roots@.len(),
                self.roots().len() == n,
                k <= n,
                pc.deep_view() == components(path@),
                forall|j: int|
                    0 <= j < k ==> components(path@) != components(#[trigger] self.roots()[j]),
            decreases n - k,
        {
            let root = crate::text::str_chars(self.protected_roots[k].as_str());
            assert(root@ == self.roots()[k as int]);
            let rc = path_components(&root);
            if same_components(&pc, &rc) {
                return true;
            }
            k = k + 1;
        }
        false
    }
}

/// Whether two component lists are equal.
pub fn same_components(a: &Vec<Vec<char>>, b: &Vec<Vec<char>>) -> (r: bool)
    ensures
        r == (a.deep_view() == b.deep_view()),
{
    assert(a.deep_view().len() == a@.len());
    assert(b.deep_view().len() == b@.len());
    if a.len() != b.len() {
        return false;
    }
    let mut k: usize = 0;
    while k < a.len()
        invariant
            a@.len() == b@.len(),
            k <= a@.len(),
            forall|j: int| 0 <= j < k ==> a.deep_view()[j] == b.deep_view()[j],
        decreases a.len() - k,
    {
        assert(a.deep_view()[k as int] =~= a@[k as int]@);
        assert(b.deep_view()[k as int] =~= b@[k as int]@);
        if !crate::text::chars_equal(&a[k], &b[k]) {
            assert(a.deep_view()[k as int] != b.deep_view()[k as int]);
            return false;
        }
        k = k + 1;
    }
    assert(a.deep_view() =~= b.deep_view());
    true
}

/// A protected root is also a protected path.
pub proof fn lemma_dangerous_root_is_protected(guard: SafetyGuard, path: Seq<char>)
    requires
        guard.is_root(path),
    ensures
        guard.protects(path),
{
    let k = choose|k: int| 0 <= k < guard.roots().len() && components(path) == components(#[trigger] guard.roots()[k]);
    let root = guard.roots()[k];
    assert(components(path).take(components(root).len() as int) =~= components(root));
    assert(protected_by(path, root));
}

/// The components of a path, each as a string: `/` for the root, `.` for a
/// leading current directory, then the names.
pub fn path_component_names(path: &str) -> (r: Vec<String>)
    ensures
        r.deep_view() == components(path@),
{
    let p = crate::text::str_chars(path);
    let pc = path_components(&p);
    let mut out: Vec<String> = Vec::new();
    let mut k: usize = 0;
    while k < pc.len()
        invariant
            k <= pc@.len(),
            pc.deep_view() == components(path@),
            out.deep_view() == pc.deep_view().take(k as int),
        decreases pc.len() - k,
    {
        assert(pc.deep_view()[k as int] =~= pc@[k as int]@);
        let s = string_from_chars(&pc[k]);
        let ghost before = out.deep_view();
        let ghost sv = s@;
        out.push(s);
        assert(out.deep_view() =~= before.push(sv));
        assert(out.deep_view() =~= pc.deep_view().take(k + 1));
        k = k + 1;
    }
    assert(pc.deep_view().take(pc@.len() as int) =~= pc.deep_view());
    out
}

} // verus!
