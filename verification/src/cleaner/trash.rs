//! Carrying out a cleanup plan: nothing is deleted, paths are moved into a
//! quarantine directory, and every move is checked against the protected
//! roots once more, whatever the plan says.
//!
//! Moving files is the application's part: for each action it asks
//! [`TrashCleaner::should_move`], performs the move when told to, and hands
//! the outcomes to [`TrashCleaner::execute`], which accounts for them.
use vstd::prelude::*;
use vstd::string::*;
use crate::cleaner::plan::{planned_bytes, ActionView, CleanAction, CleanPlan, CleanSummary};
use crate::fs::metadata::saturating;
use crate::fs::safety::SafetyGuard;
use crate::order::view_seq;
use crate::utils::format::{bytes, human_size};

verus! {

/// What happened to one attempted move.
#[derive(Debug, Clone)]
pub enum MoveOutcome {
    /// The path was moved; the number is the size it had.
    Moved(u64),
    /// The move failed with this message.
    Failed(String),
}

/// A move outcome with its message read as a character sequence.
pub enum OutcomeView {
    Moved(u64),
    Failed(Seq<char>),
}

impl View for MoveOutcome {
    type V = OutcomeView;

    open spec fn view(&self) -> OutcomeView {
        match self {
            MoveOutcome::Moved(b) => OutcomeView::Moved(*b),
            MoveOutcome::Failed(m) => OutcomeView::Failed(m@),
        }
    }
}

/// A cleanup summary read as plain values.
pub struct SummaryView {
    pub planned: nat,
    pub moved: nat,
    pub skipped: nat,
    pub failed: nat,
    pub reclaimed: u64,
    pub messages: Seq<Seq<char>>,
}

/// The summary as plain values.
pub open spec fn summary_view(s: CleanSummary) -> SummaryView {
    SummaryView {
        planned: s.planned as nat,
        moved: s.moved as nat,
        skipped: s.skipped as nat,
        failed: s.failed as nat,
        reclaimed: s.reclaimed_bytes,
        messages: s.messages.deep_view(),
    }
}

/// The summary before any action: `planned` actions, nothing done.
pub open spec fn fresh_summary(planned: nat) -> SummaryView {
    SummaryView { planned, moved: 0, skipped: 0, failed: 0, reclaimed: 0, messages: seq![] }
}

/// The summary after rehearsing one action; `protected` tells whether the
/// action's source lies in a protected root.
pub open spec fn dry_step(s: SummaryView, a: ActionView, protected: bool) -> SummaryView {
    match a {
        ActionView::MoveToTrash { from, to, estimated_bytes } => if protected {
            SummaryView {
                skipped: s.skipped + 1,
                messages: s.messages.push("SKIP protected path: "@ + from),
                ..s
            }
        } else {
            SummaryView {
                reclaimed: saturating((s.reclaimed + estimated_bytes) as nat),
                messages: s.messages.push(
                    "DRY-RUN move "@ + from + " -> "@ + to + " ("@ + human_size(estimated_bytes)
                        + ")"@,
                ),
                ..s
            }
        },
        ActionView::SkipProtected { path, reason } => SummaryView {
            skipped: s.skipped + 1,
            messages: s.messages.push("SKIP "@ + path + ": "@ + reason),
            ..s
        },
    }
}

/// The summary after carrying out one action with the given outcome.
pub open spec fn exec_step(s: SummaryView, a: ActionView, protected: bool, outcome: Option<OutcomeView>) -> SummaryView {
    match a {
        ActionView::MoveToTrash { from, to, .. } => if protected {
            SummaryView {
                skipped: s.skipped + 1,
                messages: s.messages.push("SKIP protected path: "@ + from),
                ..s
            }
        } else {
            match outcome {
                Some(OutcomeView::Moved(b)) => SummaryView {
                    moved: s.moved + 1,
                    reclaimed: saturating((s.reclaimed + b) as nat),
                    messages: s.messages.push("MOVED "@ + from + " -> "@ + to),
                    ..s
                },
                Some(OutcomeView::Failed(err)) => SummaryView {
                    failed: s.failed + 1,
                    messages: s.messages.push("FAILED "@ + from + " -> "@ + to + ": "@ + err),
                    ..s
                },
                None => s,
            }
        },
        ActionView::SkipProtected { path, reason } => SummaryView {
            skipped: s.skipped + 1,
            messages: s.messages.push("SKIP "@ + path + ": "@ + reason),
            ..s
        },
    }
}

/// The rehearsal of `actions`, where `sources[i]` is the resolved source of
/// action `i`, starting from a summary of `planned` actions.
pub open spec fn dry_run_summary(guard: SafetyGuard, actions: Seq<ActionView>, sources: Seq<Seq<char>>, planned: nat) -> SummaryView
    decreases actions.len(),
{
    if actions.len() == 0 {
        fresh_summary(planned)
    } else {
        let i = actions.len() - 1;
        dry_step(
            dry_run_summary(guard, actions.drop_last(), sources, planned),
            actions.last(),
            guard.protects(sources[i]),
        )
    }
}

/// The execution of `actions` with the given outcomes.
pub open spec fn execution_summary(
    guard: SafetyGuard,
    actions: Seq<ActionView>,
    sources: Seq<Seq<char>>,
    outcomes: Seq<Option<OutcomeView>>,
    planned: nat,
) -> SummaryView
    decreases actions.len(),
{
    if actions.len() == 0 {
        fresh_summary(planned)
    } else {
        let i = actions.len() - 1;
        exec_step(
            execution_summary(guard, actions.drop_last(), sources, outcomes, planned),
            actions.last(),
            guard.protects(sources[i]),
            outcomes[i],
        )
    }
}

/// Action `a` is a move whose resolved source is not protected.
pub open spec fn moves(guard: SafetyGuard, a: ActionView, source: Seq<char>) -> bool {
    a is MoveToTrash && !guard.protects(source)
}

/// The outcomes belong to the actions: there is one exactly for each move
/// that is carried out.
pub open spec fn outcomes_match(
    guard: SafetyGuard,
    actions: Seq<ActionView>,
    sources: Seq<Seq<char>>,
    outcomes: Seq<Option<OutcomeView>>,
) -> bool {
    &&& sources.len() == actions.len()
    &&& outcomes.len() == actions.len()
    &&& forall|i: int| 0 <= i < actions.len() ==> (#[trigger] outcomes[i] is Some <==> moves(guard, actions[i], sources[i]))
}

/// Carries out or rehearses cleanup plans under a safety guard.
#[derive(Debug, Clone)]
pub struct TrashCleaner {
    guard: SafetyGuard,
}

/// Appends `text` to a message list.
fn push_message(messages: &mut Vec<String>, text: String)
    ensures
        final(messages).deep_view() == old(messages).deep_view().push(text@),
{
    let ghost before = messages.deep_view();
    let ghost t = text@;
    messages.push(text);
    assert(messages.deep_view() =~= before.push(t));
}

impl TrashCleaner {
    /// The guard that checks every move.
    pub closed spec fn safety(&self) -> SafetyGuard {
        self.guard
    }

    /// A cleaner checking moves with `guard`.
    pub fn new(guard: SafetyGuard) -> (r: Self)
        ensures
            r.safety() == guard,
    {
        TrashCleaner { guard }
    }

    /// Whether `action` is to be carried out, given the resolved form of its
    /// source: only a move whose source is outside every protected root.
    pub fn should_move(&self, action: &CleanAction, source: &str) -> (r: bool)
        ensures
            r == moves(self.safety(), action@, source@),
    {
        match action {
            CleanAction::MoveToTrash { .. } => !self.guard.is_protected(source),
            CleanAction::SkipProtected { .. } => false,
        }
    }

    /// Rehearses the plan without touching the filesystem; `sources[i]` is
    /// the resolved source of action `i`. Protected sources and explicit
    /// skips are counted as skipped; every other move adds its estimate to
    /// the bytes that would be reclaimed.
    pub fn dry_run(&self, plan: &CleanPlan, sources: &Vec<String>) -> (r: CleanSummary)
        requires
            sources@.len() == plan.actions@.len(),
        ensures
            summary_view(r) == dry_run_summary(
                self.safety(),
                view_seq(plan.actions@),
                sources.deep_view(),
                plan.actions@.len() as nat,
            ),
    {
        let n = plan.actions.len();
        let mut summary = CleanSummary::default();
        summary.planned = n;
        assert(summary.messages.deep_view() =~= seq![]);
        assert(summary_view(summary) =~= fresh_summary(n as nat));
        let mut i: usize = 0;
        while i < n
            invariant
                n == plan.actions@.len(),
                sources@.len() == n,
                i <= n,
                summary.skipped <= i,
                summary_view(summary) == dry_run_summary(
                    self.safety(),
                    view_seq(plan.actions@.take(i as int)),
                    sources.deep_view(),
                    n as nat,
                ),
            decreases n - i,
        {
            assert(view_seq(plan.actions@.take(i + 1)).drop_last() =~= view_seq(plan.actions@.take(i as int)));
            assert(sources.deep_view()[i as int] == sources@[i as int]@);
            let ghost before = summary_view(summary);
            match &plan.actions[i] {
                CleanAction::MoveToTrash { from, to, estimated_bytes } => {
                    if self.guard.is_protected(sources[i].as_str()) {
                        summary.skipped = summary.skipped + 1;
                        let mut m = String::new();
                        m.append("SKIP protected path: ");
                        m.append(from.as_str());
                        push_message(&mut summary.messages, m);
                    } else {
                        summary.reclaimed_bytes = summary.reclaimed_bytes.saturating_add(*estimated_bytes);
                        let mut m = String::new();
                        m.append("DRY-RUN move ");
                        m.append(from.as_str());
                        m.append(" -> ");
                        m.append(to.as_str());
                        m.append(" (");
                        let b = bytes(*estimated_bytes);
                        m.append(b.as_str());
                        m.append(")");
                        push_message(&mut summary.messages, m);
                    }
                },
                CleanAction::SkipProtected { path, reason } => {
                    summary.skipped = summary.skipped + 1;
                    let mut m = String::new();
                    m.append("SKIP ");
                    m.append(path.as_str());
                    m.append(": ");
                    m.append(reason.as_str());
                    push_message(&mut summary.messages, m);
                },
            }
            assert(summary_view(summary) =~= dry_step(before, plan.actions@[i as int]@, self.safety().protects(sources.deep_view()[i as int])));
            i = i + 1;
        }
        assert(plan.actions@.take(n as int) =~= plan.actions@);
        summary
    }

    /// Accounts for the plan's execution: `sources[i]` is the resolved source
    /// of action `i` and `outcomes[i]` the outcome of its move, present
    /// exactly when [`TrashCleaner::should_move`] says the move is carried
    /// out. Protected sources and explicit skips count as skipped, moves as
    /// moved (adding the moved size) or failed.
    pub fn execute(&self, plan: &CleanPlan, sources: &Vec<String>, outcomes: &Vec<Option<MoveOutcome>>) -> (r: CleanSummary)
        requires
            outcomes_match(
                self.safety(),
                view_seq(plan.actions@),
                sources.deep_view(),
                outcomes@.map_values(|o: Option<MoveOutcome>| outcome_view(o)),
            ),
        ensures
            summary_view(r) == execution_summary(
                self.safety(),
                view_seq(plan.actions@),
                sources.deep_view(),
                outcomes@.map_values(|o: Option<MoveOutcome>| outcome_view(o)),
                plan.actions@.len() as nat,
            ),
    {
        let n = plan.actions.len();
        let ghost outs = outcomes@.map_values(|o: Option<MoveOutcome>| outcome_view(o));
        let mut summary = CleanSummary::default();
        summary.planned = n;
        assert(summary.messages.deep_view() =~= seq![]);
        assert(summary_view(summary) =~= fresh_summary(n as nat));
        assert(sources.deep_view().len() == sources@.len());
        let mut i: usize = 0;
        while i < n
            invariant
                n == plan.actions@.len(),
                sources@.len() == n,
                outcomes@.len() == n,
                outs == outcomes@.map_values(|o: Option<MoveOutcome>| outcome_view(o)),
                outcomes_match(self.safety(), view_seq(plan.actions@), sources.deep_view(), outs),
                i <= n,
                summary.skipped + summary.moved + summary.failed <= i,
                summary_view(summary) == execution_summary(
                    self.safety(),
                    view_seq(plan.actions@.take(i as int)),
                    sources.deep_view(),
                    outs,
                    n as nat,
                ),
            decreases n - i,
        {
            assert(view_seq(plan.actions@.take(i + 1)).drop_last() =~= view_seq(plan.actions@.take(i as int)));
            assert(sources.deep_view()[i as int] == sources@[i as int]@);
            assert(outs[i as int] == outcome_view(outcomes@[i as int]));
            assert(view_seq(plan.actions@)[i as int] == plan.actions@[i as int]@);
            let ghost before = summary_view(summary);
            match &plan.actions[i] {
                CleanAction::MoveToTrash { from, to, .. } => {
                    if self.guard.is_protected(sources[i].as_str()) {
                        summary.skipped = summary.skipped + 1;
                        let mut m = String::new();
                        m.append("SKIP protected path: ");
                        m.append(from.as_str());
                        push_message(&mut summary.messages, m);
                    } else {
                        match &outcomes[i] {
                            Some(MoveOutcome::Moved(b)) => {
                                summary.moved = summary.moved + 1;
                                summary.reclaimed_bytes = summary.reclaimed_bytes.saturating_add(*b);
                                let mut m = String::new();
                                m.append("MOVED ");
                                m.append(from.as_str());
                                m.append(" -> ");
                                m.append(to.as_str());
                                push_message(&mut summary.messages, m);
                            },
                            Some(MoveOutcome::Failed(err)) => {
                                summary.failed = summary.failed + 1;
                                let mut m = String::new();
                                m.append("FAILED ");
                                m.append(from.as_str());
                                m.append(" -> ");
                                m.append(to.as_str());
                                m.append(": ");
                                m.append(err.as_str());
                                push_message(&mut summary.messages, m);
                            },
                            None => {},
                        }
                    }
                },
                CleanAction::SkipProtected { path, reason } => {
                    summary.skipped = summary.skipped + 1;
                    let mut m = String::new();
                    m.append("SKIP ");
                    m.append(path.as_str());
                    m.append(": ");
                    m.append(reason.as_str());
                    push_message(&mut summary.messages, m);
                },
            }
            assert(summary_view(summary) =~= exec_step(
                before,
                plan.actions@[i as int]@,
                self.safety().protects(sources.deep_view()[i as int]),
                outs[i as int],
            ));
            i = i + 1;
        }
        assert(plan.actions@.take(n as int) =~= plan.actions@);
        summary
    }
}

/// A move outcome read as plain values.
pub open spec fn outcome_view(o: Option<MoveOutcome>) -> Option<OutcomeView> {
    match o {
        Some(x) => Some(x@),
        None => None,
    }
}

/// The cleaner never moves a protected path: a move is carried out only when
/// its resolved source lies outside every protected root.
pub proof fn lemma_protected_never_moved(cleaner: TrashCleaner, action: ActionView, source: Seq<char>)
    requires
        cleaner.safety().protects(source),
    ensures
        !moves(cleaner.safety(), action, source),
{
}

/// A rehearsal moves nothing and fails nothing, and it accounts for every
/// action with exactly one message.
pub proof fn lemma_dry_run_accounts(
    guard: SafetyGuard,
    actions: Seq<ActionView>,
    sources: Seq<Seq<char>>,
    planned: nat,
)
    ensures
        dry_run_summary(guard, actions, sources, planned).moved == 0,
        dry_run_summary(guard, actions, sources, planned).failed == 0,
        dry_run_summary(guard, actions, sources, planned).planned == planned,
        dry_run_summary(guard, actions, sources, planned).skipped <= actions.len(),
        dry_run_summary(guard, actions, sources, planned).messages.len() == actions.len(),
    decreases actions.len(),
{
    if actions.len() > 0 {
        lemma_dry_run_accounts(guard, actions.drop_last(), sources, planned);
    }
}

/// An execution accounts for every action exactly once: moved, skipped and
/// failed add up to the number of actions, each with one message.
pub proof fn lemma_execution_accounts(
    guard: SafetyGuard,
    actions: Seq<ActionView>,
    sources: Seq<Seq<char>>,
    outcomes: Seq<Option<OutcomeView>>,
    planned: nat,
)
    requires
        outcomes_match(guard, actions, sources, outcomes),
    ensures
        ({
            let s = execution_summary(guard, actions, sources, outcomes, planned);
            &&& s.moved + s.skipped + s.failed == actions.len()
            &&& s.messages.len() == actions.len()
            &&& s.planned == planned
        }),
    decreases actions.len(),
{
    if actions.len() > 0 {
        let n = actions.len() - 1;
        let a2 = actions.drop_last();
        let s2 = sources.take(n);
        let o2 = outcomes.take(n);
        assert(outcomes_match(guard, a2, s2, o2)) by {
            assert forall|i: int| 0 <= i < a2.len() implies (#[trigger] o2[i] is Some <==> moves(guard, a2[i], s2[i])) by {
                assert(o2[i] == outcomes[i]);
                assert(a2[i] == actions[i]);
                assert(s2[i] == sources[i]);
            }
        }
        lemma_execution_accounts(guard, a2, s2, o2, planned);
        lemma_execution_prefix(guard, a2, sources, outcomes, n, planned);
        assert(outcomes[n] is Some <==> moves(guard, actions[n], sources[n]));
    }
}

/// Only the first `n` sources and outcomes matter for `n` actions.
proof fn lemma_execution_prefix(
    guard: SafetyGuard,
    actions: Seq<ActionView>,
    sources: Seq<Seq<char>>,
    outcomes: Seq<Option<OutcomeView>>,
    n: int,
    planned: nat,
)
    requires
        actions.len() == n,
        n <= sources.len(),
        n <= outcomes.len(),
    ensures
        execution_summary(guard, actions, sources, outcomes, planned) == execution_summary(
            guard,
            actions,
            sources.take(n),
            outcomes.take(n),
            planned,
        ),
    decreases n,
{
    if n > 0 {
        lemma_execution_prefix(guard, actions.drop_last(), sources, outcomes, n - 1, planned);
        lemma_execution_prefix(guard, actions.drop_last(), sources.take(n), outcomes.take(n), n - 1, planned);
        assert(sources.take(n).take(n - 1) =~= sources.take(n - 1));
        assert(outcomes.take(n).take(n - 1) =~= outcomes.take(n - 1));
    }
}

/// When no source is protected and the estimates add up within `u64`, a
/// rehearsal reports exactly the bytes the plan estimates.
pub proof fn lemma_dry_run_reclaims_plan(
    guard: SafetyGuard,
    actions: Seq<ActionView>,
    sources: Seq<Seq<char>>,
    planned: nat,
)
    requires
        actions.len() <= sources.len(),
        forall|i: int| 0 <= i < actions.len() ==> !guard.protects(#[trigger] sources[i]),
        planned_bytes(actions) <= u64::MAX,
    ensures
        dry_run_summary(guard, actions, sources, planned).reclaimed == planned_bytes(actions),
    decreases actions.len(),
{
    if actions.len() > 0 {
        let a2 = actions.drop_last();
        assert forall|i: int| 0 <= i < a2.len() implies !guard.protects(#[trigger] sources[i]) by {
            assert(!guard.protects(sources[i]));
        }
        lemma_dry_run_reclaims_plan(guard, a2, sources, planned);
        assert(!guard.protects(sources[actions.len() - 1]));
    }
}

/// A rehearsal skips exactly what an execution of the same plan skips, so
/// the actions it does not skip are those the execution moves or fails.
pub proof fn lemma_rehearsal_skips_as_execution(
    guard: SafetyGuard,
    actions: Seq<ActionView>,
    sources: Seq<Seq<char>>,
    outcomes: Seq<Option<OutcomeView>>,
    planned: nat,
)
    requires
        outcomes_match(guard, actions, sources, outcomes),
    ensures
        dry_run_summary(guard, actions, sources, planned).skipped == execution_summary(
            guard,
            actions,
            sources,
            outcomes,
            planned,
        ).skipped,
        execution_summary(guard, actions, sources, outcomes, planned).moved + execution_summary(
            guard,
            actions,
            sources,
            outcomes,
            planned,
        ).failed == actions.len() - dry_run_summary(guard, actions, sources, planned).skipped,
{
    lemma_same_skips(guard, actions, sources, outcomes, planned);
    lemma_execution_accounts(guard, actions, sources, outcomes, planned);
}

proof fn lemma_same_skips(
    guard: SafetyGuard,
    actions: Seq<ActionView>,
    sources: Seq<Seq<char>>,
    outcomes: Seq<Option<OutcomeView>>,
    planned: nat,
)
    ensures
        dry_run_summary(guard, actions, sources, planned).skipped == execution_summary(
            guard,
            actions,
            sources,
            outcomes,
            planned,
        ).skipped,
    decreases actions.len(),
{
    if actions.len() > 0 {
        lemma_same_skips(guard, actions.drop_last(), sources, outcomes, planned);
    }
}

/// The number of actions a rehearsal skips: explicit skips, and moves whose
/// resolved source is protected.
pub open spec fn skipped_actions(guard: SafetyGuard, actions: Seq<ActionView>, sources: Seq<Seq<char>>) -> nat
    decreases actions.len(),
{
    if actions.len() == 0 {
        0
    } else {
        let i = actions.len() - 1;
        skipped_actions(guard, actions.drop_last(), sources) + if actions.last() is SkipProtected || guard.protects(
            sources[i],
        ) {
            1nat
        } else {
            0nat
        }
    }
}

/// The estimates of the moves whose resolved source is not protected, added
/// up.
pub open spec fn unprotected_bytes(guard: SafetyGuard, actions: Seq<ActionView>, sources: Seq<Seq<char>>) -> nat
    decreases actions.len(),
{
    if actions.len() == 0 {
        0
    } else {
        let i = actions.len() - 1;
        unprotected_bytes(guard, actions.drop_last(), sources) + match actions.last() {
            ActionView::MoveToTrash { estimated_bytes, .. } => if guard.protects(sources[i]) {
                0nat
            } else {
                estimated_bytes as nat
            },
            ActionView::SkipProtected { .. } => 0nat,
        }
    }
}

/// A rehearsal skips exactly the explicit skips and the moves from protected
/// sources, and reports as reclaimable the estimates of the other moves,
/// added up and capped at `u64::MAX`, which never exceed the plan's
/// estimate.
pub proof fn lemma_dry_run_skips_and_reclaims(
    guard: SafetyGuard,
    actions: Seq<ActionView>,
    sources: Seq<Seq<char>>,
    planned: nat,
)
    ensures
        dry_run_summary(guard, actions, sources, planned).skipped == skipped_actions(guard, actions, sources),
        dry_run_summary(guard, actions, sources, planned).reclaimed == saturating(
            unprotected_bytes(guard, actions, sources),
        ),
        unprotected_bytes(guard, actions, sources) <= planned_bytes(actions),
    decreases actions.len(),
{
    if actions.len() > 0 {
        lemma_dry_run_skips_and_reclaims(guard, actions.drop_last(), sources, planned);
    }
}

} // verus!
