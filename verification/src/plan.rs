//! What it means for steps to run in order, and what follows from it.

use crate::graph::{dependency_graph, edges_of_first, is_unresolved, step_edges};
use crate::steps::{
    dependencies_resolve, depends_directly, lemma_first_match_unique, lemma_own_index,
    lemma_step_index, names_unique, repeats_earlier_name, resolves, step_index, OrchestrationStep,
};
use vstd::prelude::*;

verus! {

/// Whether steps can be ordered at all: names are unique, every dependency
/// names a step, and no step depends, directly or through others, on itself.
pub open spec fn is_orderable(steps: Seq<OrchestrationStep>) -> bool {
    &&& names_unique(steps)
    &&& dependencies_resolve(steps)
    &&& !dependency_graph(steps).has_cycle()
}

/// Whether `order` is the order in which `steps` run: each step comes as early
/// as its dependencies allow, and of the steps that could come at one place the
/// one declared first does.
pub open spec fn is_execution_order(steps: Seq<OrchestrationStep>, order: Seq<usize>) -> bool {
    dependency_graph(steps).is_declaration_order(order)
}

/// Whether every step stands behind each step that it depends on.
pub open spec fn dependencies_first(steps: Seq<OrchestrationStep>, order: Seq<usize>) -> bool {
    forall|i: int, j: int|
        0 <= i < order.len() && 0 <= j < order.len() && #[trigger] depends_directly(
            steps,
            order[j] as int,
            order[i] as int,
        ) ==> i < j
}

/// Whether two lists of steps declare the same names and dependencies.
pub open spec fn same_declarations(
    first: Seq<OrchestrationStep>,
    second: Seq<OrchestrationStep>,
) -> bool {
    &&& first.len() == second.len()
    &&& forall|i: int|
        0 <= i < first.len() ==> (#[trigger] first[i]).name@ == second[i].name@
            && first[i].dependencies() == second[i].dependencies()
}

/// Each dependency of each of the first `count` steps is an edge among the
/// edges of those steps.
proof fn lemma_edges_hold(steps: Seq<OrchestrationStep>, count: int, i: int, k: int)
    requires
        0 <= i < count <= steps.len(),
        0 <= k < steps[i].dependencies().len(),
    ensures
        edges_of_first(steps, count).contains(step_edges(steps, i)[k]),
    decreases count,
{
    let before = edges_of_first(steps, count - 1);
    let last = step_edges(steps, count - 1);
    if i == count - 1 {
        assert((before + last)[before.len() + k] == last[k]);
    } else {
        lemma_edges_hold(steps, count - 1, i, k);
        let at = choose|at: int| 0 <= at < before.len() && before[at] == step_edges(steps, i)[k];
        assert((before + last)[at] == before[at]);
    }
}

/// Where names are unique, a step that lists another step's name has an edge
/// from that step.
pub proof fn lemma_dependency_is_edge(steps: Seq<OrchestrationStep>, b: int, a: int)
    requires
        names_unique(steps),
        steps.len() <= usize::MAX,
        depends_directly(steps, b, a),
    ensures
        dependency_graph(steps).has_edge(a as usize, b as usize),
{
    let names = steps[b].dependencies();
    let k = choose|k: int| 0 <= k < names.len() && names[k] == steps[a].name@;
    lemma_own_index(steps, a);
    lemma_edges_hold(steps, steps.len() as int, b, k);
}

/// In the order in which steps run, every step stands behind each step that it
/// depends on.
pub proof fn lemma_dependencies_first(steps: Seq<OrchestrationStep>, order: Seq<usize>)
    requires
        names_unique(steps),
        steps.len() <= usize::MAX,
        is_execution_order(steps, order),
    ensures
        dependencies_first(steps, order),
{
    let graph = dependency_graph(steps);
    graph.lemma_order_is_topological(order);
    assert forall|i: int, j: int|
        0 <= i < order.len() && 0 <= j < order.len() && #[trigger] depends_directly(
            steps,
            order[j] as int,
            order[i] as int,
        ) implies i < j by {
        lemma_dependency_is_edge(steps, order[j] as int, order[i] as int);
        assert(graph.has_edge(order[i], order[j]));
    }
}

/// Steps that declare the same names and dependencies have the same
/// dependency graph.
pub proof fn lemma_same_graph(first: Seq<OrchestrationStep>, second: Seq<OrchestrationStep>)
    requires
        same_declarations(first, second),
        dependencies_resolve(first),
    ensures
        dependency_graph(first) == dependency_graph(second),
{
    lemma_same_edges(first, second, first.len() as int);
}

proof fn lemma_same_edges(
    first: Seq<OrchestrationStep>,
    second: Seq<OrchestrationStep>,
    count: int,
)
    requires
        same_declarations(first, second),
        dependencies_resolve(first),
        0 <= count <= first.len(),
    ensures
        edges_of_first(first, count) == edges_of_first(second, count),
    decreases count,
{
    if count > 0 {
        lemma_same_edges(first, second, count - 1);
        let i = count - 1;
        assert(first[i].name@ == second[i].name@);
        assert forall|k: int| 0 <= k < first[i].dependencies().len() implies step_edges(first, i)[k]
            == step_edges(second, i)[k] by {
            let name = first[i].dependencies()[k];
            assert(resolves(first, name));
            lemma_step_index(first, name);
            let at = step_index(first, name);
            assert(second[at].name@ == name);
            assert forall|j: int| 0 <= j < at implies (#[trigger] second[j]).name@ != name by {
                assert(first[j].name@ != name);
            }
            assert(resolves(second, name));
            lemma_step_index(second, name);
            lemma_first_match_unique(second, name, at, step_index(second, name));
        }
        assert(step_edges(first, i) == step_edges(second, i));
    }
}

/// Steps that declare the same names and dependencies run in the same order:
/// the order depends on nothing but the declarations.
pub proof fn lemma_order_is_determined(
    first: Seq<OrchestrationStep>,
    second: Seq<OrchestrationStep>,
    first_order: Seq<usize>,
    second_order: Seq<usize>,
)
    requires
        same_declarations(first, second),
        dependencies_resolve(first),
        is_execution_order(first, first_order),
        is_execution_order(second, second_order),
    ensures
        first_order == second_order,
{
    lemma_same_graph(first, second);
    dependency_graph(first).lemma_order_unique(first_order, second_order);
}

/// Steps that declare the same names and dependencies have the same faults:
/// the same names resolve, the same dependencies are unresolved, and the same
/// steps repeat an earlier name.
pub proof fn lemma_same_faults(first: Seq<OrchestrationStep>, second: Seq<OrchestrationStep>)
    requires
        same_declarations(first, second),
    ensures
        same_declarations(second, first),
        forall|name: Seq<char>| #[trigger] resolves(first, name) == resolves(second, name),
        forall|i: int, k: int| #[trigger]
            is_unresolved(first, i, k) == is_unresolved(second, i, k),
        forall|j: int|
            0 <= j < first.len() ==> #[trigger] repeats_earlier_name(first, j)
                == repeats_earlier_name(second, j),
        dependencies_resolve(first) == dependencies_resolve(second),
        names_unique(first) == names_unique(second),
{
    assert forall|i: int| 0 <= i < second.len() implies (#[trigger] second[i]).name@
        == first[i].name@ && second[i].dependencies() == first[i].dependencies() by {
        assert(first[i].name@ == second[i].name@);
    }
    assert forall|name: Seq<char>| #[trigger] resolves(first, name) == resolves(second, name) by {
        if resolves(first, name) {
            let i = choose|i: int| 0 <= i < first.len() && (#[trigger] first[i]).name@ == name;
            assert(second[i].name@ == name);
        }
        if resolves(second, name) {
            let i = choose|i: int| 0 <= i < second.len() && (#[trigger] second[i]).name@ == name;
            assert(first[i].name@ == name);
        }
    }
    assert forall|i: int, k: int| #[trigger]
        is_unresolved(first, i, k) == is_unresolved(second, i, k) by {
        if 0 <= i < first.len() {
            assert(first[i].dependencies() == second[i].dependencies());
            if 0 <= k < first[i].dependencies().len() {
                let name = first[i].dependencies()[k];
                assert(resolves(first, name) == resolves(second, name));
            }
        }
    }
    assert forall|j: int| 0 <= j < first.len() implies #[trigger] repeats_earlier_name(first, j)
        == repeats_earlier_name(second, j) by {
        assert(first[j].name@ == second[j].name@);
        if repeats_earlier_name(first, j) {
            let i = choose|i: int| 0 <= i < j && (#[trigger] first[i]).name@ == first[j].name@;
            assert(second[i].name@ == second[j].name@);
        }
        if repeats_earlier_name(second, j) {
            let i = choose|i: int| 0 <= i < j && (#[trigger] second[i]).name@ == second[j].name@;
            assert(first[i].name@ == first[j].name@);
        }
    }
    if dependencies_resolve(first) {
        lemma_resolution_goes_over(first, second);
    }
    if dependencies_resolve(second) {
        lemma_resolution_goes_over(second, first);
    }
    if names_unique(first) {
        assert forall|j: int| 0 <= j < second.len() implies !#[trigger] repeats_earlier_name(
            second,
            j,
        ) by {
            assert(!repeats_earlier_name(first, j));
        }
    }
    if names_unique(second) {
        assert forall|j: int| 0 <= j < first.len() implies !#[trigger] repeats_earlier_name(
            first,
            j,
        ) by {
            assert(!repeats_earlier_name(second, j));
        }
    }
}

proof fn lemma_resolution_goes_over(first: Seq<OrchestrationStep>, second: Seq<OrchestrationStep>)
    requires
        first.len() == second.len(),
        forall|i: int|
            0 <= i < first.len() ==> (#[trigger] first[i]).dependencies()
                == second[i].dependencies(),
        forall|name: Seq<char>| #[trigger] resolves(first, name) == resolves(second, name),
        dependencies_resolve(first),
    ensures
        dependencies_resolve(second),
{
    assert forall|i: int, k: int|
        0 <= i < second.len() && 0 <= k < second[i].dependencies().len() implies resolves(
        second,
        #[trigger] second[i].dependencies()[k],
    ) by {
        assert(first[i].dependencies() == second[i].dependencies());
        assert(resolves(first, first[i].dependencies()[k]));
    }
}

} // verus!
