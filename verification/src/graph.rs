//! The dependency graph of a list of steps.
//!
//! A graph has one node for each step, numbered as the steps are, and one edge
//! for each dependency, from the step depended on to the step that depends on
//! it. It is stored in a `petgraph` graph; what the code here knows of that
//! graph is what the functions of `digraph` state.

use crate::digraph::{
    digraph_add_edge, digraph_add_node, digraph_edge_count, digraph_edge_endpoints, digraph_edges,
    digraph_new, digraph_node_count, digraph_nodes,
};
use crate::error::ConfigError;
use crate::steps::{
    dependencies_resolve, find_step, lemma_first_match_unique, lemma_step_index, names_unique,
    repeats_earlier_name, resolves, step_index, OrchestrationStep, OrchestrationYml,
};
use vstd::prelude::*;

verus! {

/// What a graph is: a number of nodes, which are `0`, `1`, ... below that
/// number, and edges as pairs of nodes, source first, in the order in which they
/// were added.
pub struct GraphModel {
    pub nodes: nat,
    pub edges: Seq<(usize, usize)>,
}

impl GraphModel {
    /// Every edge joins two nodes of the graph.
    pub open spec fn wf(self) -> bool {
        forall|k: int|
            0 <= k < self.edges.len() ==> (#[trigger] self.edges[k]).0 < self.nodes
                && self.edges[k].1 < self.nodes
    }

    /// Whether an edge leads from `a` to `b`.
    pub open spec fn has_edge(self, a: usize, b: usize) -> bool {
        self.edges.contains((a, b))
    }
}

/// A directed graph over the steps of one orchestration.
pub struct DependencyGraph {
    inner: petgraph::graph::Graph<usize, (), petgraph::Directed, usize>,
}

impl View for DependencyGraph {
    type V = GraphModel;

    closed spec fn view(&self) -> GraphModel {
        GraphModel { nodes: digraph_nodes(self.inner).len(), edges: digraph_edges(self.inner) }
    }
}

impl DependencyGraph {
    /// The invariant of the type: each node is numbered by its place, and every
    /// edge joins two nodes.
    pub closed spec fn wf(&self) -> bool {
        &&& forall|i: int|
            0 <= i < digraph_nodes(self.inner).len() ==> #[trigger] digraph_nodes(self.inner)[i]
                == i
        &&& self@.wf()
    }

    /// In a well-formed graph every edge joins two nodes.
    pub proof fn lemma_wf(&self)
        requires
            self.wf(),
        ensures
            self@.wf(),
    {
    }

    /// The graph without nodes.
    pub fn new() -> (graph: DependencyGraph)
        ensures
            graph.wf(),
            graph@.nodes == 0,
            graph@.edges == Seq::<(usize, usize)>::empty(),
    {
        DependencyGraph { inner: digraph_new() }
    }

    /// Adds a node and returns its number.
    pub fn add_node(&mut self) -> (node: usize)
        requires
            old(self).wf(),
        ensures
            final(self).wf(),
            final(self)@.nodes == old(self)@.nodes + 1,
            final(self)@.edges == old(self)@.edges,
            node == old(self)@.nodes,
    {
        let ghost nodes = digraph_nodes(self.inner);
        let ghost before = self@;
        let weight = digraph_node_count(&self.inner);
        let node = digraph_add_node(&mut self.inner, weight);
        proof {
            assert forall|i: int| 0 <= i < digraph_nodes(self.inner).len() implies #[trigger]
                digraph_nodes(self.inner)[i] == i by {
                if i < nodes.len() {
                    assert(nodes[i] == i);
                }
            }
            assert forall|k: int| 0 <= k < self@.edges.len() implies (#[trigger] self@.edges[k]).0
                < self@.nodes && self@.edges[k].1 < self@.nodes by {
                assert(before.edges[k].0 < before.nodes);
            }
        }
        node
    }

    /// Adds an edge from `a` to `b` and returns its number.
    pub fn add_edge(&mut self, a: usize, b: usize) -> (edge: usize)
        requires
            old(self).wf(),
            a < old(self)@.nodes,
            b < old(self)@.nodes,
        ensures
            final(self).wf(),
            final(self)@.nodes == old(self)@.nodes,
            final(self)@.edges == old(self)@.edges.push((a, b)),
            edge == old(self)@.edges.len(),
    {
        let ghost before = self@;
        let edge = digraph_add_edge(&mut self.inner, a, b);
        proof {
            assert forall|k: int| 0 <= k < self@.edges.len() implies (#[trigger] self@.edges[k]).0
                < self@.nodes && self@.edges[k].1 < self@.nodes by {
                if k < before.edges.len() {
                    assert(before.edges[k].0 < before.nodes);
                }
            }
        }
        edge
    }

    /// The number of nodes.
    pub fn node_count(&self) -> (count: usize)
        ensures
            count == self@.nodes,
    {
        digraph_node_count(&self.inner)
    }

    /// The number of edges.
    pub fn edge_count(&self) -> (count: usize)
        ensures
            count == self@.edges.len(),
    {
        digraph_edge_count(&self.inner)
    }

    /// The edges, in the order in which they were added.
    pub fn edges(&self) -> (edges: Vec<(usize, usize)>)
        ensures
            edges@ == self@.edges,
    {
        let count = digraph_edge_count(&self.inner);
        let mut edges: Vec<(usize, usize)> = Vec::new();
        let mut k: usize = 0;
        while k < count
            invariant
                count == self@.edges.len(),
                k <= count,
                edges@ == self@.edges.take(k as int),
            decreases count - k,
        {
            match digraph_edge_endpoints(&self.inner, k) {
                Some(ends) => {
                    edges.push(ends);
                    assert(self@.edges.take(k + 1) == self@.edges.take(k as int).push(
                        self@.edges[k as int],
                    ));
                },
                None => {},
            }
            k += 1;
        }
        assert(self@.edges.take(count as int) == self@.edges);
        edges
    }
}

/// The edges that step `i` brings: one from each step it depends on, in the
/// order in which it lists them.
pub open spec fn step_edges(steps: Seq<OrchestrationStep>, i: int) -> Seq<(usize, usize)> {
    Seq::new(
        steps[i].dependencies().len(),
        |k: int| (step_index(steps, steps[i].dependencies()[k]) as usize, i as usize),
    )
}

/// The edges that the first `count` steps bring, step by step.
pub open spec fn edges_of_first(steps: Seq<OrchestrationStep>, count: int) -> Seq<(usize, usize)>
    decreases count,
{
    if count <= 0 {
        Seq::empty()
    } else {
        edges_of_first(steps, count - 1) + step_edges(steps, count - 1)
    }
}

/// The graph that a list of steps stands for.
pub open spec fn dependency_graph(steps: Seq<OrchestrationStep>) -> GraphModel {
    GraphModel { nodes: steps.len(), edges: edges_of_first(steps, steps.len() as int) }
}

/// Whether step `j` is the first that repeats the name of an earlier step.
pub open spec fn is_first_duplicate(steps: Seq<OrchestrationStep>, j: int) -> bool {
    &&& 0 <= j < steps.len()
    &&& repeats_earlier_name(steps, j)
    &&& forall|i: int| 0 <= i < j ==> !#[trigger] repeats_earlier_name(steps, i)
}

/// Whether dependency `k` of step `i` resolves to no step.
pub open spec fn is_unresolved(steps: Seq<OrchestrationStep>, i: int, k: int) -> bool {
    &&& 0 <= i < steps.len()
    &&& 0 <= k < steps[i].dependencies().len()
    &&& !resolves(steps, steps[i].dependencies()[k])
}

/// Whether dependency `k` of step `i` is the first, in the order of
/// declaration, that resolves to no step.
pub open spec fn is_first_unresolved(steps: Seq<OrchestrationStep>, i: int, k: int) -> bool {
    &&& is_unresolved(steps, i, k)
    &&& forall|i2: int, k2: int|
        (i2 < i || (i2 == i && k2 < k)) ==> !#[trigger] is_unresolved(steps, i2, k2)
}

/// Whether `error` is what is wrong with `steps`: the first dependency that
/// names no step; or, where every dependency resolves, the name of the first
/// step that repeats an earlier name.
pub open spec fn is_config_fault(steps: Seq<OrchestrationStep>, error: ConfigError) -> bool {
    match error {
        ConfigError::UnknownDependency(name) => exists|i: int, k: int| #[trigger]
            is_first_unresolved(steps, i, k) && name@ == steps[i].dependencies()[k],
        ConfigError::DuplicateName(name) => dependencies_resolve(steps) && exists|j: int| #[trigger]
            is_first_duplicate(steps, j) && name@ == steps[j].name@,
    }
}

/// Builds the dependency graph of the steps of `orchestration`.
///
/// A dependency that names no step is an error, whatever else holds of the
/// steps, and so is a name that two steps carry. Nothing is returned beside an
/// error.
pub fn build(orchestration: &OrchestrationYml) -> (built: Result<DependencyGraph, ConfigError>)
    ensures
        built is Ok <==> names_unique(orchestration.steps@) && dependencies_resolve(orchestration.steps@),
        built matches Ok(graph) ==> graph.wf() && graph@ == dependency_graph(orchestration.steps@),
        built matches Err(error) ==> is_config_fault(orchestration.steps@, error),
        built matches Err(ConfigError::UnknownDependency(_)) <==> !dependencies_resolve(
            orchestration.steps@,
        ),
{
    let steps = &orchestration.steps;
    let count = steps.len();
    let mut graph = DependencyGraph::new();
    let mut j: usize = 0;
    while j < count
        invariant
            j <= count,
            graph.wf(),
            graph@.nodes == j,
            graph@.edges == Seq::<(usize, usize)>::empty(),
        decreases count - j,
    {
        graph.add_node();
        j += 1;
    }
    let mut i: usize = 0;
    while i < count
        invariant
            steps == &orchestration.steps,
            count == steps@.len(),
            i <= count,
            graph.wf(),
            graph@.nodes == count,
            graph@.edges == edges_of_first(steps@, i as int),
            forall|i2: int, k2: int| i2 < i ==> !#[trigger] is_unresolved(steps@, i2, k2),
        decreases count - i,
    {
        let step = &steps[i];
        let many = step.dependency_count();
        let ghost before = graph@.edges;
        let mut k: usize = 0;
        while k < many
            invariant
                steps == &orchestration.steps,
                count == steps@.len(),
                i < count,
                step == steps@[i as int],
                many == step.dependencies().len(),
                k <= many,
                graph.wf(),
                graph@.nodes == count,
                graph@.edges == before + step_edges(steps@, i as int).take(k as int),
                forall|i2: int, k2: int|
                    (i2 < i || (i2 == i && k2 < k)) ==> !#[trigger] is_unresolved(steps@, i2, k2),
            decreases many - k,
        {
            let name = dependency(step, k);
            match find_step(steps, name) {
                Some(a) => {
                    proof {
                        lemma_step_index(steps@, name@);
                        lemma_first_match_unique(
                            steps@,
                            name@,
                            a as int,
                            step_index(steps@, name@),
                        );
                        assert(step_edges(steps@, i as int).take(k + 1) == step_edges(
                            steps@,
                            i as int,
                        ).take(k as int).push((a, i)));
                    }
                    graph.add_edge(a, i);
                    assert(graph@.edges == before + step_edges(steps@, i as int).take(k + 1));
                },
                None => {
                    let unknown = name.clone();
                    proof {
                        assert(is_unresolved(steps@, i as int, k as int));
                        assert(is_first_unresolved(steps@, i as int, k as int));
                        assert(!dependencies_resolve(steps@));
                    }
                    return Err(ConfigError::UnknownDependency(unknown));
                },
            }
            k += 1;
        }
        proof {
            assert(step_edges(steps@, i as int).take(many as int) == step_edges(steps@, i as int));
            assert(edges_of_first(steps@, i + 1) == edges_of_first(steps@, i as int) + step_edges(
                steps@,
                i as int,
            ));
        }
        i += 1;
    }
    proof {
        assert forall|i2: int, k2: int|
            0 <= i2 < steps@.len() && 0 <= k2 < steps@[i2].dependencies().len() implies resolves(
            steps@,
            #[trigger] steps@[i2].dependencies()[k2],
        ) by {
            assert(!is_unresolved(steps@, i2, k2));
        }
    }
    let mut j: usize = 0;
    while j < count
        invariant
            steps == &orchestration.steps,
            count == steps@.len(),
            j <= count,
            dependencies_resolve(steps@),
            forall|i: int| 0 <= i < j ==> !#[trigger] repeats_earlier_name(steps@, i),
        decreases count - j,
    {
        let first = find_step(steps, &steps[j].name);
        proof {
            assert(resolves(steps@, steps@[j as int].name@));
        }
        match first {
            Some(at) => {
                if at < j {
                    let name = steps[j].name.clone();
                    proof {
                        assert(repeats_earlier_name(steps@, j as int));
                        assert(is_first_duplicate(steps@, j as int));
                        assert(!names_unique(steps@));
                    }
                    return Err(ConfigError::DuplicateName(name));
                }
            },
            None => {},
        }
        proof {
            if repeats_earlier_name(steps@, j as int) {
                let i = choose|i: int|
                    0 <= i < j && (#[trigger] steps@[i]).name@ == steps@[j as int].name@;
                assert(false);
            }
        }
        j += 1;
    }
    Ok(graph)
}

/// Dependency `k` of a step.
fn dependency(step: &OrchestrationStep, k: usize) -> (name: &String)
    requires
        k < step.dependencies().len(),
    ensures
        name@ == step.dependencies()[k as int],
{
    match &step.depends_on {
        Some(names) => &names[k],
        None => &step.name,
    }
}

} // verus!
