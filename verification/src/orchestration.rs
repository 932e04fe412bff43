//! From declared steps to a run: validate, order, begin.

use crate::driver::StepResult;
use crate::error::{ConfigError, OrchestrationError};
use crate::github::{GithubWorkflow, WorkflowIdentity};
use crate::graph::{
    build, dependency_graph, is_config_fault, is_first_duplicate, is_first_unresolved,
    is_unresolved,
};
use crate::plan::{
    dependencies_first, is_execution_order, is_orderable, lemma_dependencies_first,
    lemma_same_faults, lemma_same_graph, same_declarations,
};
use crate::runner::{lemma_first_step_is_free, OrchestrationRun};
use crate::steps::{
    dependencies_resolve, names_unique, repeats_earlier_name, OrchestrationStep, OrchestrationYml,
};
use crate::toposort::sort;
use vstd::prelude::*;

verus! {

/// Whether `error` says why `steps` cannot be ordered: a fault in the
/// declarations; or, where there is none, the first step, in the order of
/// declaration, that lies on a cycle.
pub open spec fn is_order_fault(steps: Seq<OrchestrationStep>, error: OrchestrationError) -> bool {
    match error {
        OrchestrationError::Config(fault) => is_config_fault(steps, fault),
        OrchestrationError::Cycle(cycle) => names_unique(steps) && dependencies_resolve(steps)
            && dependency_graph(steps).is_first_on_cycle(cycle.node),
    }
}

/// Whether `plan` is what ordering `steps` comes to: their order, where they
/// can be ordered, and else what is wrong with them.
pub open spec fn is_plan_of(
    steps: Seq<OrchestrationStep>,
    plan: Result<Vec<usize>, OrchestrationError>,
) -> bool {
    match plan {
        Ok(order) => is_orderable(steps) && is_execution_order(steps, order@),
        Err(error) => is_order_fault(steps, error),
    }
}

/// Whether two plans say the same: the same order, or the same error about
/// the same name or step.
pub open spec fn same_plan(
    first: Result<Vec<usize>, OrchestrationError>,
    second: Result<Vec<usize>, OrchestrationError>,
) -> bool {
    match (first, second) {
        (Ok(a), Ok(b)) => a@ == b@,
        (
            Err(OrchestrationError::Config(ConfigError::UnknownDependency(a))),
            Err(OrchestrationError::Config(ConfigError::UnknownDependency(b))),
        ) => a@ == b@,
        (
            Err(OrchestrationError::Config(ConfigError::DuplicateName(a))),
            Err(OrchestrationError::Config(ConfigError::DuplicateName(b))),
        ) => a@ == b@,
        (Err(OrchestrationError::Cycle(a)), Err(OrchestrationError::Cycle(b))) => a.node == b.node,
        _ => false,
    }
}

/// Steps that declare the same names and dependencies come to the same plan:
/// the same order or the same error. Nothing but the declarations has a part
/// in it.
pub proof fn lemma_plan_is_determined(
    first: Seq<OrchestrationStep>,
    second: Seq<OrchestrationStep>,
    first_plan: Result<Vec<usize>, OrchestrationError>,
    second_plan: Result<Vec<usize>, OrchestrationError>,
)
    requires
        same_declarations(first, second),
        is_plan_of(first, first_plan),
        is_plan_of(second, second_plan),
    ensures
        same_plan(first_plan, second_plan),
{
    lemma_same_faults(first, second);
    if !dependencies_resolve(first) {
        let a = lemma_names_first_unresolved(first, first_plan);
        let b = lemma_names_first_unresolved(second, second_plan);
        assert(is_unresolved(first, b.0, b.1) == is_unresolved(second, b.0, b.1));
        assert(is_unresolved(first, a.0, a.1) == is_unresolved(second, a.0, a.1));
        assert(a == b);
        assert(first[a.0].name@ == second[a.0].name@);
    } else if !names_unique(first) {
        let a = lemma_names_first_duplicate(first, first_plan);
        let b = lemma_names_first_duplicate(second, second_plan);
        assert(repeats_earlier_name(first, b) == repeats_earlier_name(second, b));
        assert(repeats_earlier_name(first, a) == repeats_earlier_name(second, a));
        assert(a == b);
        assert(first[a].name@ == second[a].name@);
    } else {
        lemma_same_graph(first, second);
        let graph = dependency_graph(first);
        lemma_unfaulty_plan(first, first_plan);
        lemma_unfaulty_plan(second, second_plan);
        if graph.has_cycle() {
        } else {
            graph.lemma_order_unique(first_plan->Ok_0@, second_plan->Ok_0@);
        }
    }
}

/// Where a dependency names no step, the plan is the error that says so, about
/// the first such dependency.
proof fn lemma_names_first_unresolved(
    steps: Seq<OrchestrationStep>,
    plan: Result<Vec<usize>, OrchestrationError>,
) -> (at: (int, int))
    requires
        is_plan_of(steps, plan),
        !dependencies_resolve(steps),
    ensures
        is_first_unresolved(steps, at.0, at.1),
        plan matches Err(OrchestrationError::Config(ConfigError::UnknownDependency(name)))
            && name@ == steps[at.0].dependencies()[at.1],
{
    match plan {
        Err(OrchestrationError::Config(ConfigError::UnknownDependency(name))) => {
            choose|i: int, k: int| #[trigger]
                is_first_unresolved(steps, i, k) && name@ == steps[i].dependencies()[k]
        },
        _ => (0, 0),
    }
}

/// Where every dependency names a step and a name is repeated, the plan is the
/// error that says so, about the first step that repeats one.
proof fn lemma_names_first_duplicate(
    steps: Seq<OrchestrationStep>,
    plan: Result<Vec<usize>, OrchestrationError>,
) -> (at: int)
    requires
        is_plan_of(steps, plan),
        dependencies_resolve(steps),
        !names_unique(steps),
    ensures
        is_first_duplicate(steps, at),
        plan matches Err(OrchestrationError::Config(ConfigError::DuplicateName(name))) && name@
            == steps[at].name@,
{
    match plan {
        Err(OrchestrationError::Config(ConfigError::DuplicateName(name))) => {
            choose|at: int| #[trigger] is_first_duplicate(steps, at) && name@ == steps[at].name@
        },
        Err(OrchestrationError::Config(ConfigError::UnknownDependency(name))) => {
            let at = choose|i: int, k: int| #[trigger]
                is_first_unresolved(steps, i, k) && name@ == steps[i].dependencies()[k];
            assert(is_unresolved(steps, at.0, at.1));
            0
        },
        _ => 0,
    }
}

/// Where the declarations have no fault, the plan is the order or a cycle,
/// as the graph has a cycle or not.
proof fn lemma_unfaulty_plan(
    steps: Seq<OrchestrationStep>,
    plan: Result<Vec<usize>, OrchestrationError>,
)
    requires
        is_plan_of(steps, plan),
        dependencies_resolve(steps),
        names_unique(steps),
    ensures
        dependency_graph(steps).has_cycle() ==> (plan matches Err(
            OrchestrationError::Cycle(cycle),
        ) && dependency_graph(steps).is_first_on_cycle(cycle.node)),
        !dependency_graph(steps).has_cycle() ==> (plan matches Ok(order) && is_execution_order(
            steps,
            order@,
        )),
{
    match plan {
        Err(OrchestrationError::Config(ConfigError::UnknownDependency(name))) => {
            let at = choose|i: int, k: int| #[trigger]
                is_first_unresolved(steps, i, k) && name@ == steps[i].dependencies()[k];
            assert(is_unresolved(steps, at.0, at.1));
        },
        Err(OrchestrationError::Config(ConfigError::DuplicateName(name))) => {
            let at = choose|at: int| #[trigger]
                is_first_duplicate(steps, at) && name@ == steps[at].name@;
        },
        _ => {},
    }
}

/// Something that declares steps and can be run.
pub trait Orchestration {
    /// The steps, in the order in which they were declared.
    spec fn declared_steps(&self) -> Seq<OrchestrationStep>;

    /// The order in which the steps run, as indices into the steps.
    ///
    /// An order is returned exactly when the steps can be ordered. A fault in
    /// the declarations comes before a cycle, which is reported with a step
    /// that lies on it.
    fn generate_orchestrations(&self) -> (plan: Result<Vec<usize>, OrchestrationError>)
        ensures
            plan is Ok <==> is_orderable(self.declared_steps()),
            plan matches Ok(order) ==> is_execution_order(self.declared_steps(), order@)
                && dependency_graph(self.declared_steps()).is_permutation(order@)
                && dependencies_first(self.declared_steps(), order@),
            plan matches Err(error) ==> is_order_fault(self.declared_steps(), error),
            is_plan_of(self.declared_steps(), plan),
    ;

    /// Validates and orders the steps, and begins a run over them. Steps with
    /// a fault or a cycle give the error and no run, so that nothing can be
    /// dispatched from them.
    fn run_orchestration_safely(&self, stop_on_failure: bool) -> (begun: Result<
        OrchestrationRun,
        OrchestrationError,
    >)
        ensures
            begun is Ok <==> is_orderable(self.declared_steps()),
            begun matches Ok(run) ==> run.wf() && is_execution_order(
                self.declared_steps(),
                run@.order,
            ) && dependency_graph(self.declared_steps()).is_permutation(run@.order)
                && dependencies_first(self.declared_steps(), run@.order) && run@.edges
                == dependency_graph(self.declared_steps()).edges && run@.outcomes == Seq::<
                StepResult,
            >::empty() && run@.stop_on_failure == stop_on_failure,
            begun matches Err(error) ==> is_order_fault(self.declared_steps(), error),
    ;
}

impl Orchestration for OrchestrationYml {
    open spec fn declared_steps(&self) -> Seq<OrchestrationStep> {
        self.steps@
    }

    fn generate_orchestrations(&self) -> (plan: Result<Vec<usize>, OrchestrationError>) {
        match build(self) {
            Ok(graph) => match sort(&graph) {
                Ok(order) => {
                    proof {
                        assert(self.steps@.len() == self.steps.len());
                        lemma_dependencies_first(self.steps@, order@);
                    }
                    Ok(order)
                },
                Err(cycle) => Err(OrchestrationError::Cycle(cycle)),
            },
            Err(error) => Err(OrchestrationError::Config(error)),
        }
    }

    fn run_orchestration_safely(&self, stop_on_failure: bool) -> (begun: Result<
        OrchestrationRun,
        OrchestrationError,
    >) {
        match build(self) {
            Ok(graph) => match sort(&graph) {
                Ok(order) => {
                    let edges = graph.edges();
                    proof {
                        graph.lemma_wf();
                        assert(self.steps@.len() == self.steps.len());
                        lemma_dependencies_first(self.steps@, order@);
                        lemma_first_step_is_free(graph@, order@);
                    }
                    Ok(OrchestrationRun::begin(order, edges, stop_on_failure))
                },
                Err(cycle) => Err(OrchestrationError::Cycle(cycle)),
            },
            Err(error) => Err(OrchestrationError::Config(error)),
        }
    }
}

impl OrchestrationYml {
    /// Step `index` as a workflow, where there is such a step.
    pub fn workflow(&self, index: usize) -> (workflow: Option<GithubWorkflow>)
        ensures
            index >= self.steps@.len() ==> workflow is None,
            index < self.steps@.len() ==> workflow is Some && workflow->0@ == (WorkflowIdentity {
                name: self.steps@[index as int].name@,
                id: self.steps@[index as int].workflow_id@,
                repo: self.steps@[index as int].repo@,
                owner: self.steps@[index as int].owner@,
            }),
    {
        if index < self.steps.len() {
            let step = &self.steps[index];
            Some(
                GithubWorkflow::new(
                    step.name.clone(),
                    step.repo.clone(),
                    step.owner.clone(),
                    step.workflow_id.clone(),
                ),
            )
        } else {
            None
        }
    }
}

} // verus!
