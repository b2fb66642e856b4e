//! Cleanup plans: the findings turned into moves to a quarantine directory.
use vstd::prelude::*;
use crate::analysis::{Finding, FindingView};
use crate::order::view_seq;
use crate::paths::{
    components, lemma_push_components, lemma_rest_after, path_strip_prefix, push_path, push_path_chars, rest_after,
    starts_with, strip_prefix,
};
use crate::text::{str_chars, string_from_chars};

verus! {

/// One step of a cleanup plan.
#[derive(Debug, Clone)]
pub enum CleanAction {
    /// Move a file or directory into the quarantine directory.
    MoveToTrash { from: String, to: String, estimated_bytes: u64 },
    /// Leave a protected path alone, saying why.
    SkipProtected { path: String, reason: String },
}

/// A cleanup action with its strings read as character sequences.
pub enum ActionView {
    MoveToTrash { from: Seq<char>, to: Seq<char>, estimated_bytes: u64 },
    SkipProtected { path: Seq<char>, reason: Seq<char> },
}

impl View for CleanAction {
    type V = ActionView;

    open spec fn view(&self) -> ActionView {
        match self {
            CleanAction::MoveToTrash { from, to, estimated_bytes } => ActionView::MoveToTrash {
                from: from@,
                to: to@,
                estimated_bytes: *estimated_bytes,
            },
            CleanAction::SkipProtected { path, reason } => ActionView::SkipProtected {
                path: path@,
                reason: reason@,
            },
        }
    }
}

/// The actions to take for a scan root.
#[derive(Debug, Clone)]
pub struct CleanPlan {
    pub root: String,
    pub actions: Vec<CleanAction>,
}

/// What a cleanup did, or would do.
#[derive(Debug, Clone)]
pub struct CleanSummary {
    pub planned: usize,
    pub moved: usize,
    pub skipped: usize,
    pub failed: usize,
    pub reclaimed_bytes: u64,
    pub messages: Vec<String>,
}

impl Default for CleanSummary {
    fn default() -> (r: Self)
        ensures
            r.planned == 0,
            r.moved == 0,
            r.skipped == 0,
            r.failed == 0,
            r.reclaimed_bytes == 0,
            r.messages@.len() == 0,
    {
        CleanSummary {
            planned: 0,
            moved: 0,
            skipped: 0,
            failed: 0,
            reclaimed_bytes: 0,
            messages: Vec::new(),
        }
    }
}

/// Where a finding's path goes: into the quarantine directory, keeping its
/// position relative to the root (a path outside the root keeps its own
/// form, so an absolute one stays where it is).
pub open spec fn trash_target(path: Seq<char>, root: Seq<char>, trash_dir: Seq<char>) -> Seq<char> {
    let relative = match strip_prefix(path, root) {
        Some(rest) => rest,
        None => path,
    };
    push_path(trash_dir, relative)
}

/// The move planned for a finding.
pub open spec fn move_action(f: FindingView, root: Seq<char>, trash_dir: Seq<char>) -> ActionView {
    ActionView::MoveToTrash {
        from: f.path,
        to: trash_target(f.path, root, trash_dir),
        estimated_bytes: f.size,
    }
}

/// The bytes a list of actions expects to free: the moves' estimates.
pub open spec fn planned_bytes(actions: Seq<ActionView>) -> nat
    decreases actions.len(),
{
    if actions.len() == 0 {
        0
    } else {
        planned_bytes(actions.drop_last()) + match actions.last() {
            ActionView::MoveToTrash { estimated_bytes, .. } => estimated_bytes as nat,
            ActionView::SkipProtected { .. } => 0nat,
        }
    }
}

impl CleanPlan {
    /// One move per finding, into `trash_dir`, keeping each path's position
    /// relative to `root` (so `root/target` goes to `trash_dir/target`).
    pub fn from_findings(root: String, findings: &[Finding], trash_dir: String) -> (r: Self)
        ensures
            r.root == root,
            r.actions@.len() == findings@.len(),
            forall|k: int|
                0 <= k < findings@.len() ==> #[trigger] r.actions@[k]@ == move_action(
                    findings@[k]@,
                    root@,
                    trash_dir@,
                ),
    {
        let root_chars = str_chars(root.as_str());
        let trash = str_chars(trash_dir.as_str());
        let mut actions: Vec<CleanAction> = Vec::new();
        let mut i: usize = 0;
        while i < findings.len()
            invariant
                i <= findings@.len(),
                root_chars@ == root@,
                trash@ == trash_dir@,
                actions@.len() == i,
                forall|k: int|
                    0 <= k < i ==> #[trigger] actions@[k]@ == move_action(
                        findings@[k]@,
                        root@,
                        trash_dir@,
                    ),
            decreases findings.len() - i,
        {
            let f = &findings[i];
            let from = str_chars(f.path.as_str());
            let relative = match path_strip_prefix(&from, &root_chars) {
                Some(rest) => rest,
                None => from,
            };
            let to = push_path_chars(&trash, &relative);
            actions.push(
                CleanAction::MoveToTrash {
                    from: f.path.clone(),
                    to: string_from_chars(&to),
                    estimated_bytes: f.size,
                },
            );
            i = i + 1;
        }
        CleanPlan { root, actions }
    }

    /// The number of planned actions.
    pub fn estimated_count(&self) -> (r: usize)
        ensures
            r == self.actions@.len(),
    {
        self.actions.len()
    }

    /// The bytes the plan expects to free, which must fit in `u64`.
    pub fn estimated_bytes(&self) -> (r: u64)
        requires
            planned_bytes(view_seq(self.actions@)) <= u64::MAX,
        ensures
            r == planned_bytes(view_seq(self.actions@)),
    {
        let mut sum: u64 = 0;
        let mut i: usize = 0;
        while i < self.actions.len()
            invariant
                i <= self.actions@.len(),
                planned_bytes(view_seq(self.actions@)) <= u64::MAX,
                sum == planned_bytes(view_seq(self.actions@.take(i as int))),
            decreases self.actions.len() - i,
        {
            proof {
                assert(view_seq(self.actions@.take(i + 1)).drop_last() =~= view_seq(self.actions@.take(i as int)));
                lemma_planned_bytes_prefix(view_seq(self.actions@), i + 1);
                assert(view_seq(self.actions@).take(i + 1) =~= view_seq(self.actions@.take(i + 1)));
            }
            match &self.actions[i] {
                CleanAction::MoveToTrash { estimated_bytes, .. } => {
                    sum = sum + *estimated_bytes;
                },
                CleanAction::SkipProtected { .. } => {},
            }
            i = i + 1;
        }
        assert(self.actions@.take(self.actions@.len() as int) =~= self.actions@);
        sum
    }
}

proof fn lemma_planned_bytes_prefix(actions: Seq<ActionView>, i: int)
    requires
        0 <= i <= actions.len(),
    ensures
        planned_bytes(actions.take(i)) <= planned_bytes(actions),
    decreases actions.len() - i,
{
    if i < actions.len() {
        lemma_planned_bytes_prefix(actions, i + 1);
        assert(actions.take(i + 1).drop_last() =~= actions.take(i));
    } else {
        assert(actions.take(i) =~= actions);
    }
}

/// A path under a (non-empty) root is moved into the quarantine directory
/// at the same place below it: the target's components are those of the
/// trash directory followed by the path's components below the root, so
/// `root/target` goes to `trash_dir/target` and nothing lands outside the
/// trash directory.
pub proof fn lemma_trash_target_keeps_position(path: Seq<char>, root: Seq<char>, trash_dir: Seq<char>)
    requires
        components(root).len() > 0,
        starts_with(path, root),
        trash_dir.len() > 0,
    ensures
        components(trash_target(path, root, trash_dir)) == components(trash_dir) + components(path).skip(
            components(root).len() as int,
        ),
        starts_with(trash_target(path, root, trash_dir), trash_dir),
{
    let k = components(root).len();
    let cs = components(path).skip(k as int);
    lemma_rest_after(path, k);
    lemma_push_components(trash_dir, rest_after(path, k));
    assert((components(trash_dir) + cs).take(components(trash_dir).len() as int) =~= components(trash_dir));
}

} // verus!
