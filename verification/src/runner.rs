//! The course of one orchestration: the steps in their order, one at a time.
//!
//! An `OrchestrationRun` exists only for steps that were validated and
//! ordered, so nothing can be dispatched from steps with a fault or a cycle.
//! The caller asks which step is next, runs it, and records how it ended. A
//! step is handed out only once every step that it depends on has ended well;
//! a step for which that cannot come any more is passed over and counts as
//! skipped. A step that does not end well stops the run where the run was told
//! to stop on failure; the report lists every step either way.

use crate::driver::{StepOutcome, StepResult};
use crate::graph::{dependency_graph, GraphModel};
use crate::plan::lemma_dependency_is_edge;
use crate::steps::{depends_directly, names_unique, OrchestrationStep};
use vstd::prelude::*;

verus! {

/// Whether step `a` was run and ended well.
pub open spec fn has_succeeded(order: Seq<usize>, outcomes: Seq<StepResult>, a: usize) -> bool {
    exists|at: int|
        0 <= at < outcomes.len() && at < order.len() && order[at] == a && #[trigger] outcomes[at]
            == StepResult::Success
}

/// Whether `step` depends on a step that has not ended well.
pub open spec fn is_blocked(
    order: Seq<usize>,
    edges: Seq<(usize, usize)>,
    outcomes: Seq<StepResult>,
    step: usize,
) -> bool {
    exists|k: int|
        0 <= k < edges.len() && (#[trigger] edges[k]).1 == step && !has_succeeded(
            order,
            outcomes,
            edges[k].0,
        )
}

/// The outcomes once every step that is next and blocked has been passed over:
/// each such step counts as skipped.
pub open spec fn pass_over(
    order: Seq<usize>,
    edges: Seq<(usize, usize)>,
    outcomes: Seq<StepResult>,
) -> Seq<StepResult>
    decreases order.len() - outcomes.len(),
{
    if outcomes.len() < order.len() && is_blocked(
        order,
        edges,
        outcomes,
        order[outcomes.len() as int],
    ) {
        pass_over(order, edges, outcomes.push(StepResult::Skipped))
    } else {
        outcomes
    }
}

/// What a run is, for the contracts: the order of the steps, the edges from
/// each step depended on to the step that depends on it, the outcomes so far,
/// one for each step that was run or passed over, and the policy.
pub struct RunnerModel {
    pub order: Seq<usize>,
    pub edges: Seq<(usize, usize)>,
    pub outcomes: Seq<StepResult>,
    pub stop_on_failure: bool,
}

impl RunnerModel {
    /// Whether some step did not end well.
    pub open spec fn failed(self) -> bool {
        exists|i: int| 0 <= i < self.outcomes.len() && #[trigger] self.outcomes[i]
            != StepResult::Success
    }

    /// Whether a step that did not end well has stopped the run.
    pub open spec fn halted(self) -> bool {
        self.stop_on_failure && self.failed()
    }

    /// Whether step `a` was run and ended well.
    pub open spec fn succeeded(self, a: usize) -> bool {
        has_succeeded(self.order, self.outcomes, a)
    }

    /// Whether `step` depends on a step that has not ended well.
    pub open spec fn blocked(self, step: usize) -> bool {
        is_blocked(self.order, self.edges, self.outcomes, step)
    }

    /// The step to run now, if the run goes on.
    pub open spec fn next_step(self) -> Option<usize> {
        if self.halted() || self.outcomes.len() >= self.order.len() {
            None
        } else {
            Some(self.order[self.outcomes.len() as int])
        }
    }

    /// No more outcomes than steps; steps and edges speak of the steps of the
    /// order; and the step that is next is not blocked.
    pub open spec fn wf(self) -> bool {
        &&& self.outcomes.len() <= self.order.len()
        &&& forall|i: int| 0 <= i < self.order.len() ==> #[trigger] self.order[i] < self.order.len()
        &&& forall|k: int|
            0 <= k < self.edges.len() ==> (#[trigger] self.edges[k]).0 < self.order.len()
                && self.edges[k].1 < self.order.len()
        &&& self.outcomes.len() < self.order.len() ==> !self.blocked(
            self.order[self.outcomes.len() as int],
        )
    }

    /// The outcome of the step at place `i` of the order: as recorded, or
    /// skipped where the step was not run.
    pub open spec fn outcome_at(self, i: int) -> StepResult {
        if i < self.outcomes.len() {
            self.outcomes[i]
        } else {
            StepResult::Skipped
        }
    }

    /// A step is handed out only once every step with an edge to it has ended
    /// well, whatever the policy.
    pub proof fn lemma_next_step_is_free(self, step: usize, dependency: usize)
        requires
            self.wf(),
            self.next_step() == Some(step),
            self.edges.contains((dependency, step)),
        ensures
            self.succeeded(dependency),
    {
        let k = choose|k: int| 0 <= k < self.edges.len() && self.edges[k] == (dependency, step);
        assert(self.edges[k].1 == step);
    }

    /// Once a run has stopped on a failure, no step is handed out.
    pub proof fn lemma_halted_stays(self)
        requires
            self.halted(),
        ensures
            self.next_step() is None,
    {
    }
}

/// A step is only run once every step that it depends on has ended well,
/// whether the run stops on failure or goes on.
pub proof fn lemma_runs_after_dependencies(
    steps: Seq<OrchestrationStep>,
    run: RunnerModel,
    step: usize,
    dependency: int,
)
    requires
        names_unique(steps),
        steps.len() <= usize::MAX,
        run.edges == dependency_graph(steps).edges,
        run.wf(),
        run.next_step() == Some(step),
        depends_directly(steps, step as int, dependency),
    ensures
        run.succeeded(dependency as usize),
{
    lemma_dependency_is_edge(steps, step as int, dependency);
    run.lemma_next_step_is_free(step, dependency as usize);
}

/// In an order in which every edge leads forward, no step is passed over
/// before the first outcome.
pub proof fn lemma_first_step_is_free(graph: GraphModel, order: Seq<usize>)
    requires
        graph.wf(),
        graph.is_permutation(order),
        graph.respects_edges(order),
    ensures
        pass_over(order, graph.edges, Seq::empty()) == Seq::<StepResult>::empty(),
{
    let nothing = Seq::<StepResult>::empty();
    if order.len() > 0 && is_blocked(order, graph.edges, nothing, order[0]) {
        let k = choose|k: int|
            0 <= k < graph.edges.len() && (#[trigger] graph.edges[k]).1 == order[0];
        assert(order.contains(graph.edges[k].0));
        let at = choose|at: int| 0 <= at < order.len() && order[at] == graph.edges[k].0;
        assert(graph.has_edge(order[at], order[0]));
    }
}

/// One line of a report: a step and how it ended.
#[derive(Debug, Clone, PartialEq, Eq)]
pub struct StepReport {
    pub step: usize,
    pub outcome: StepOutcome,
}

/// Whether `report` is the report of `run`: one line for each step, in the
/// order of the run, with the outcome recorded or, for a step not run, skipped.
pub open spec fn is_report_of(report: Seq<StepReport>, run: RunnerModel) -> bool {
    &&& report.len() == run.order.len()
    &&& forall|i: int|
        0 <= i < report.len() ==> (#[trigger] report[i]).step == run.order[i] && report[i].outcome@
            == run.outcome_at(i)
}

/// One orchestration under way.
#[derive(Debug, Clone, PartialEq, Eq)]
pub struct OrchestrationRun {
    order: Vec<usize>,
    edges: Vec<(usize, usize)>,
    outcomes: Vec<StepOutcome>,
    /// For each step, whether it was run and ended well.
    succeeded: Vec<bool>,
    /// Whether some step did not end well.
    failed: bool,
    stop_on_failure: bool,
}

impl View for OrchestrationRun {
    type V = RunnerModel;

    closed spec fn view(&self) -> RunnerModel {
        RunnerModel {
            order: self.order@,
            edges: self.edges@,
            outcomes: Seq::new(self.outcomes@.len(), |i: int| self.outcomes@[i]@),
            stop_on_failure: self.stop_on_failure,
        }
    }
}

impl OrchestrationRun {
    /// What the fields that are kept for speed hold, and the bounds that make
    /// them usable.
    spec fn consistent(&self) -> bool {
        &&& self.outcomes@.len() <= self.order@.len()
        &&& forall|i: int|
            0 <= i < self.order@.len() ==> #[trigger] self.order@[i] < self.order@.len()
        &&& forall|k: int|
            0 <= k < self.edges@.len() ==> (#[trigger] self.edges@[k]).0 < self.order@.len()
                && self.edges@[k].1 < self.order@.len()
        &&& self.succeeded@.len() == self.order@.len()
        &&& forall|a: int|
            0 <= a < self.succeeded@.len() ==> #[trigger] self.succeeded@[a] == self@.succeeded(
                a as usize,
            )
        &&& self.failed == self@.failed()
    }

    /// The invariant of the type.
    pub closed spec fn wf(&self) -> bool {
        self.consistent() && self@.wf()
    }

    /// What the invariant says of the model.
    pub proof fn lemma_wf(&self)
        requires
            self.wf(),
        ensures
            self@.wf(),
    {
    }

    /// A run over `order` on which nothing has been recorded.
    pub(crate) fn begin(order: Vec<usize>, edges: Vec<(usize, usize)>, stop_on_failure: bool) -> (run:
        OrchestrationRun)
        requires
            forall|i: int| 0 <= i < order@.len() ==> #[trigger] order@[i] < order@.len(),
            forall|k: int|
                0 <= k < edges@.len() ==> (#[trigger] edges@[k]).0 < order@.len() && edges@[k].1
                    < order@.len(),
        ensures
            run.wf(),
            run@.order == order@,
            run@.edges == edges@,
            run@.outcomes == pass_over(order@, edges@, Seq::empty()),
            run@.stop_on_failure == stop_on_failure,
    {
        let mut succeeded: Vec<bool> = Vec::new();
        let mut a: usize = 0;
        while a < order.len()
            invariant
                a <= order@.len(),
                succeeded@.len() == a,
                forall|b: int| 0 <= b < a ==> !#[trigger] succeeded@[b],
            decreases order@.len() - a,
        {
            succeeded.push(false);
            a += 1;
        }
        let mut run = OrchestrationRun {
            order,
            edges,
            outcomes: Vec::new(),
            succeeded,
            failed: false,
            stop_on_failure,
        };
        assert(run@.outcomes =~= Seq::<StepResult>::empty());
        run.pass_blocked();
        run
    }

    /// The steps in the order in which they run.
    pub fn order(&self) -> (order: &Vec<usize>)
        ensures
            order@ == self@.order,
    {
        &self.order
    }

    /// How many steps were run or passed over.
    pub fn recorded(&self) -> (count: usize)
        ensures
            count == self@.outcomes.len(),
    {
        self.outcomes.len()
    }

    /// Whether a step that did not end well has stopped the run.
    pub fn is_halted(&self) -> (halted: bool)
        requires
            self.wf(),
        ensures
            halted == self@.halted(),
    {
        self.stop_on_failure && self.failed
    }

    /// The step to run now, or nothing where the run is over. Every step that
    /// the step handed out depends on has ended well.
    pub fn next_step(&self) -> (step: Option<usize>)
        requires
            self.wf(),
        ensures
            step == self@.next_step(),
            step matches Some(next) ==> !self@.blocked(next),
    {
        if self.is_halted() || self.outcomes.len() >= self.order.len() {
            None
        } else {
            Some(self.order[self.outcomes.len()])
        }
    }

    /// Whether `step` depends on a step that has not ended well.
    fn blocked(&self, step: usize) -> (blocked: bool)
        requires
            self.consistent(),
        ensures
            blocked == self@.blocked(step),
    {
        let mut k: usize = 0;
        while k < self.edges.len()
            invariant
                self.consistent(),
                k <= self.edges@.len(),
                forall|e: int|
                    0 <= e < k && (#[trigger] self.edges@[e]).1 == step ==> self@.succeeded(
                        self.edges@[e].0,
                    ),
            decreases self.edges@.len() - k,
        {
            let (a, b) = self.edges[k];
            if b == step && !self.succeeded[a] {
                assert(self.edges@[k as int].1 == step);
                return true;
            }
            k += 1;
        }
        false
    }

    /// Passes over every step that is next and blocked.
    fn pass_blocked(&mut self)
        requires
            old(self).consistent(),
        ensures
            final(self).wf(),
            final(self)@.order == old(self)@.order,
            final(self)@.edges == old(self)@.edges,
            final(self)@.stop_on_failure == old(self)@.stop_on_failure,
            final(self)@.outcomes == pass_over(
                old(self)@.order,
                old(self)@.edges,
                old(self)@.outcomes,
            ),
    {
        let ghost begun = self@;
        loop
            invariant
                begun == old(self)@,
                self.consistent(),
                self@.order == begun.order,
                self@.edges == begun.edges,
                self@.stop_on_failure == begun.stop_on_failure,
                pass_over(begun.order, begun.edges, self@.outcomes) == pass_over(
                    begun.order,
                    begun.edges,
                    begun.outcomes,
                ),
            decreases self.order@.len() - self.outcomes@.len(),
        {
            let at = self.outcomes.len();
            if at >= self.order.len() {
                return ;
            }
            let step = self.order[at];
            if !self.blocked(step) {
                return ;
            }
            let ghost before = self@;
            self.outcomes.push(StepOutcome::Skipped);
            self.failed = true;
            proof {
                assert(self@.outcomes =~= before.outcomes.push(StepResult::Skipped));
                assert(self@.outcomes[at as int] != StepResult::Success);
                assert forall|a: int| 0 <= a < self.succeeded@.len() implies #[trigger]
                    self.succeeded@[a] == self@.succeeded(a as usize) by {
                    lemma_success_after_push(
                        before.order,
                        before.outcomes,
                        StepResult::Skipped,
                        a as usize,
                    );
                }
            }
        }
    }

    /// Records how the step that was to run ended, and says whether it did so:
    /// where no step was to run, nothing changes. Steps that the outcome
    /// leaves blocked are passed over.
    pub fn record(&mut self, outcome: StepOutcome) -> (recorded: bool)
        requires
            old(self).wf(),
        ensures
            final(self).wf(),
            final(self)@.order == old(self)@.order,
            final(self)@.edges == old(self)@.edges,
            final(self)@.stop_on_failure == old(self)@.stop_on_failure,
            recorded == old(self)@.next_step() is Some,
            recorded ==> final(self)@.outcomes == pass_over(
                old(self)@.order,
                old(self)@.edges,
                old(self)@.outcomes.push(outcome@),
            ),
            !recorded ==> final(self)@.outcomes == old(self)@.outcomes,
    {
        if self.next_step().is_none() {
            return false;
        }
        let ghost before = self@;
        let ghost flags = self.succeeded@;
        let at = self.outcomes.len();
        let step = self.order[at];
        let success = outcome.is_success();
        if success {
            self.succeeded.set(step, true);
        } else {
            self.failed = true;
        }
        self.outcomes.push(outcome);
        proof {
            assert(self@.outcomes =~= before.outcomes.push(outcome@));
            assert(self@.outcomes[at as int] == outcome@);
            if before.failed() {
                let i = choose|i: int|
                    0 <= i < before.outcomes.len() && #[trigger] before.outcomes[i]
                        != StepResult::Success;
                assert(self@.outcomes[i] != StepResult::Success);
            }
            if !success {
                assert(self@.failed());
            } else if self@.failed() {
                let i = choose|i: int|
                    0 <= i < self@.outcomes.len() && #[trigger] self@.outcomes[i]
                        != StepResult::Success;
                assert(before.outcomes[i] != StepResult::Success);
            }
            assert forall|a: int| 0 <= a < self.succeeded@.len() implies #[trigger]
                self.succeeded@[a] == self@.succeeded(a as usize) by {
                assert(self.succeeded@.len() == self.succeeded.len());
                lemma_success_after_push(before.order, before.outcomes, outcome@, a as usize);
                assert(flags[a] == before.succeeded(a as usize));
            }
        }
        self.pass_blocked();
        true
    }

    /// How every step ended, in the order of the run.
    pub fn report(&self) -> (report: Vec<StepReport>)
        requires
            self.wf(),
        ensures
            is_report_of(report@, self@),
    {
        let mut report: Vec<StepReport> = Vec::new();
        let mut i: usize = 0;
        while i < self.order.len()
            invariant
                i <= self.order@.len(),
                self.outcomes@.len() <= self.order@.len(),
                report@.len() == i,
                forall|j: int|
                    0 <= j < i ==> (#[trigger] report@[j]).step == self@.order[j]
                        && report@[j].outcome@ == self@.outcome_at(j),
            decreases self.order@.len() - i,
        {
            let outcome = if i < self.outcomes.len() {
                self.outcomes[i].duplicate()
            } else {
                StepOutcome::Skipped
            };
            report.push(StepReport { step: self.order[i], outcome });
            i += 1;
        }
        report
    }
}

/// A step has ended well after one more outcome exactly if it had before, or
/// it is the step of that outcome and the outcome is success.
proof fn lemma_success_after_push(
    order: Seq<usize>,
    outcomes: Seq<StepResult>,
    outcome: StepResult,
    a: usize,
)
    requires
        outcomes.len() < order.len(),
    ensures
        has_succeeded(order, outcomes.push(outcome), a) <==> has_succeeded(order, outcomes, a) || (
        order[outcomes.len() as int] == a && outcome == StepResult::Success),
{
    let longer = outcomes.push(outcome);
    if has_succeeded(order, outcomes, a) {
        let at = choose|at: int|
            0 <= at < outcomes.len() && at < order.len() && order[at] == a && #[trigger] outcomes[at]
                == StepResult::Success;
        assert(longer[at] == StepResult::Success);
    }
    if order[outcomes.len() as int] == a && outcome == StepResult::Success {
        assert(longer[outcomes.len() as int] == StepResult::Success);
    }
    if has_succeeded(order, longer, a) {
        let at = choose|at: int|
            0 <= at < longer.len() && at < order.len() && order[at] == a && #[trigger] longer[at]
                == StepResult::Success;
        if at < outcomes.len() {
            assert(outcomes[at] == StepResult::Success);
        }
    }
}

} // verus!
