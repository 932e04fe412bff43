//! The order in which the steps run.
//!
//! The order is the one that always takes, among the steps whose dependencies
//! have all been taken, the step that was declared first. It exists when the
//! graph has no cycle, and only then; otherwise the lowest-numbered node that
//! lies on a cycle is named.

use crate::error::CycleError;
use crate::graph::{DependencyGraph, GraphModel};
use vstd::prelude::*;
use vstd::seq_lib::seq_to_set_is_finite;
use vstd::set_lib::{lemma_int_range, lemma_len_subset, lemma_subset_equality, set_int_range};

verus! {

impl GraphModel {
    /// Whether each node of `path` has an edge to the next.
    pub open spec fn is_walk(self, path: Seq<usize>) -> bool {
        forall|i: int| 0 <= i < path.len() - 1 ==> #[trigger] self.has_edge(path[i], path[i + 1])
    }

    /// Whether `path` is a walk of at least one edge that starts and ends at `v`.
    pub open spec fn is_cycle_through(self, path: Seq<usize>, v: usize) -> bool {
        &&& path.len() >= 2
        &&& path[0] == v
        &&& path[path.len() - 1] == v
        &&& self.is_walk(path)
    }

    /// Whether `v` lies on a cycle. A node with an edge to itself does.
    pub open spec fn on_cycle(self, v: usize) -> bool {
        exists|path: Seq<usize>| self.is_cycle_through(path, v)
    }

    /// Whether some node lies on a cycle.
    pub open spec fn has_cycle(self) -> bool {
        exists|v: usize| self.on_cycle(v)
    }

    /// Whether `v` is the lowest-numbered node that lies on a cycle.
    pub open spec fn is_first_on_cycle(self, v: usize) -> bool {
        &&& self.on_cycle(v)
        &&& forall|u: usize| u < v ==> !self.on_cycle(u)
    }

    /// Whether `path` is a walk of at least one edge from `from` to `to`.
    pub open spec fn is_walk_between(self, path: Seq<usize>, from: usize, to: usize) -> bool {
        &&& path.len() >= 2
        &&& path[0] == from
        &&& path[path.len() - 1] == to
        &&& self.is_walk(path)
    }

    /// Whether a walk of at least one edge leads from `from` to `to`.
    pub open spec fn reaches(self, from: usize, to: usize) -> bool {
        exists|path: Seq<usize>| self.is_walk_between(path, from, to)
    }

    /// A node lies on a cycle exactly if it reaches itself.
    pub proof fn lemma_cycle_is_reach(self, v: usize)
        ensures
            self.on_cycle(v) <==> self.reaches(v, v),
    {
        if self.on_cycle(v) {
            let path = choose|path: Seq<usize>| self.is_cycle_through(path, v);
            assert(self.is_walk_between(path, v, v));
        }
        if self.reaches(v, v) {
            let path = choose|path: Seq<usize>| self.is_walk_between(path, v, v);
            assert(self.is_cycle_through(path, v));
        }
    }

    /// What reaches `a`, or is `a`, reaches the target of an edge from `a`.
    proof fn lemma_reach_step(self, from: usize, a: usize, b: usize)
        requires
            a == from || self.reaches(from, a),
            self.has_edge(a, b),
        ensures
            self.reaches(from, b),
    {
        if self.reaches(from, a) {
            let path = choose|path: Seq<usize>| self.is_walk_between(path, from, a);
            let longer = path.push(b);
            assert forall|i: int| 0 <= i < longer.len() - 1 implies #[trigger] self.has_edge(
                longer[i],
                longer[i + 1],
            ) by {
                if i < path.len() - 1 {
                    assert(self.has_edge(path[i], path[i + 1]));
                }
            }
            assert(self.is_walk_between(longer, from, b));
        } else {
            let path = seq![from, b];
            assert(self.is_walk_between(path, from, b));
        }
    }

    /// Marks that hold the target of every edge from `from` and from a marked
    /// node hold every node of a walk from `from` but the first.
    proof fn lemma_closed_marks(self, from: usize, marks: Seq<bool>, path: Seq<usize>, upto: int)
        requires
            self.wf(),
            marks.len() == self.nodes,
            forall|k: int|
                0 <= k < self.edges.len() && ((#[trigger] self.edges[k]).0 == from
                    || marks[self.edges[k].0 as int]) ==> marks[self.edges[k].1 as int],
            self.is_walk(path),
            path.len() >= 2,
            path[0] == from,
            1 <= upto < path.len(),
        ensures
            path[upto] < self.nodes,
            marks[path[upto] as int],
        decreases upto,
    {
        let before = upto - 1;
        assert(self.has_edge(path[before], path[before + 1]));
        let k = choose|k: int|
            0 <= k < self.edges.len() && self.edges[k] == (path[before], path[before + 1]);
        assert(self.edges[k].0 == path[before]);
        if upto > 1 {
            self.lemma_closed_marks(from, marks, path, before);
        }
    }

    /// Whether `v` can come next after `placed`: it is a node, it is not
    /// placed, and the source of every edge into it is.
    pub open spec fn ready(self, placed: Seq<usize>, v: usize) -> bool {
        &&& v < self.nodes
        &&& !placed.contains(v)
        &&& forall|k: int|
            0 <= k < self.edges.len() && (#[trigger] self.edges[k]).1 == v ==> placed.contains(
                self.edges[k].0,
            )
    }

    /// Whether `v` is the first node, by number, that can come next after
    /// `placed`.
    pub open spec fn is_next(self, placed: Seq<usize>, v: usize) -> bool {
        &&& self.ready(placed, v)
        &&& forall|u: usize| u < v ==> !self.ready(placed, u)
    }

    /// Whether `order` holds every node, each at the earliest place at which
    /// the nodes before it allow it, and the lowest-numbered such node first.
    pub open spec fn is_declaration_order(self, order: Seq<usize>) -> bool {
        &&& order.len() == self.nodes
        &&& forall|i: int|
            0 <= i < order.len() ==> #[trigger] self.is_next(order.take(i), order[i])
    }

    /// Whether the source of every edge stands before its target in `order`.
    pub open spec fn respects_edges(self, order: Seq<usize>) -> bool {
        forall|i: int, j: int|
            0 <= i < order.len() && 0 <= j < order.len() && #[trigger] self.has_edge(
                order[i],
                order[j],
            ) ==> i < j
    }

    /// Whether `order` holds every node exactly once.
    pub open spec fn is_permutation(self, order: Seq<usize>) -> bool {
        &&& order.len() == self.nodes
        &&& order.no_duplicates()
        &&& forall|i: int| 0 <= i < order.len() ==> order[i] < self.nodes
        &&& forall|v: usize| v < self.nodes ==> order.contains(v)
    }

    /// The order of declaration holds every node once, and every edge leads
    /// forward in it.
    pub proof fn lemma_order_is_topological(self, order: Seq<usize>)
        requires
            self.is_declaration_order(order),
        ensures
            self.is_permutation(order),
            self.respects_edges(order),
    {
        assert forall|i: int| 0 <= i < order.len() implies order[i] < self.nodes by {
            assert(self.is_next(order.take(i), order[i]));
        }
        assert forall|i: int, j: int| 0 <= i < j < order.len() implies order[i] != order[j] by {
            assert(self.is_next(order.take(j), order[j]));
            assert(order.take(j)[i] == order[i]);
        }
        lemma_distinct_below(order, self.nodes);
        assert forall|i: int, j: int|
            0 <= i < order.len() && 0 <= j < order.len() && #[trigger] self.has_edge(
                order[i],
                order[j],
            ) implies i < j by {
            let k = choose|k: int|
                0 <= k < self.edges.len() && self.edges[k] == (order[i], order[j]);
            assert(self.is_next(order.take(j), order[j]));
            assert(self.edges[k].1 == order[j]);
            assert(order.take(j).contains(order[i]));
            let at = choose|at: int| 0 <= at < j && order.take(j)[at] == order[i];
            assert(order[at] == order[i]);
        }
    }

    /// A graph that has an order of declaration has no cycle.
    pub proof fn lemma_ordered_is_acyclic(self, order: Seq<usize>)
        requires
            self.wf(),
            self.is_declaration_order(order),
        ensures
            !self.has_cycle(),
    {
        self.lemma_order_is_topological(order);
        if self.has_cycle() {
            let v = choose|v: usize| self.on_cycle(v);
            let path = choose|path: Seq<usize>| self.is_cycle_through(path, v);
            self.lemma_walk_climbs(order, path, path.len() - 1);
        }
    }

    /// Along a walk, the place in a topological order only grows.
    proof fn lemma_walk_climbs(self, order: Seq<usize>, path: Seq<usize>, upto: int)
        requires
            self.wf(),
            self.is_permutation(order),
            self.respects_edges(order),
            self.is_walk(path),
            1 <= upto < path.len(),
        ensures
            exists|i: int, j: int|
                0 <= i < j < order.len() && order[i] == path[0] && order[j] == path[upto],
        decreases upto,
    {
        let before = upto - 1;
        assert(self.has_edge(path[before], path[before + 1]));
        let k = choose|k: int|
            0 <= k < self.edges.len() && self.edges[k] == (path[upto - 1], path[upto]);
        assert(self.edges[k].0 < self.nodes && self.edges[k].1 < self.nodes);
        assert(order.contains(path[upto - 1]));
        assert(order.contains(path[upto]));
        let a = choose|a: int| 0 <= a < order.len() && order[a] == path[upto - 1];
        let b = choose|b: int| 0 <= b < order.len() && order[b] == path[upto];
        assert(self.has_edge(order[a], order[b]));
        if upto > 1 {
            self.lemma_walk_climbs(order, path, upto - 1);
            let (i, j) = choose|i: int, j: int|
                0 <= i < j < order.len() && order[i] == path[0] && order[j] == path[upto - 1];
            assert(j == a);
            assert(0 <= i < b < order.len() && order[i] == path[0] && order[b] == path[upto]);
        } else {
            assert(0 <= a < b < order.len() && order[a] == path[0] && order[b] == path[upto]);
        }
    }

    /// A graph has at most one order of declaration.
    pub proof fn lemma_order_unique(self, first: Seq<usize>, second: Seq<usize>)
        requires
            self.is_declaration_order(first),
            self.is_declaration_order(second),
        ensures
            first == second,
    {
        self.lemma_same_prefix(first, second, self.nodes as int);
        assert(first.take(self.nodes as int) == first);
        assert(second.take(self.nodes as int) == second);
    }

    proof fn lemma_same_prefix(self, first: Seq<usize>, second: Seq<usize>, len: int)
        requires
            self.is_declaration_order(first),
            self.is_declaration_order(second),
            0 <= len <= self.nodes,
        ensures
            first.take(len) == second.take(len),
        decreases len,
    {
        if len > 0 {
            self.lemma_same_prefix(first, second, len - 1);
            assert(self.is_next(first.take(len - 1), first[len - 1]));
            assert(self.is_next(second.take(len - 1), second[len - 1]));
            assert(first[len - 1] == second[len - 1]);
            assert(first.take(len) == first.take(len - 1).push(first[len - 1]));
            assert(second.take(len) == second.take(len - 1).push(second[len - 1]));
        } else {
            assert(first.take(0) == second.take(0));
        }
    }
}

/// Distinct numbers below `n` are at most `n`, and where they are `n` they
/// are all the numbers below `n`.
proof fn lemma_distinct_below(s: Seq<usize>, n: nat)
    requires
        forall|i: int, j: int| 0 <= i < j < s.len() ==> s[i] != s[j],
        forall|i: int| 0 <= i < s.len() ==> s[i] < n,
    ensures
        s.no_duplicates(),
        s.len() <= n,
        s.len() == n ==> forall|v: usize| v < n ==> s.contains(v),
{
    let t = s.map_values(|x: usize| x as int);
    let range = set_int_range(0, n as int);
    assert forall|i: int, j: int| 0 <= i < t.len() && 0 <= j < t.len() && i != j implies t[i]
        != t[j] by {
        if i < j {
            assert(s[i] != s[j]);
        } else {
            assert(s[j] != s[i]);
        }
    }
    t.unique_seq_to_set();
    lemma_int_range(0, n as int);
    assert forall|x: int| t.to_set().contains(x) implies range.contains(x) by {
        let i = choose|i: int| 0 <= i < t.len() && t[i] == x;
        assert(s[i] < n);
    }
    lemma_len_subset(t.to_set(), range);
    if s.len() == n {
        lemma_subset_equality(t.to_set(), range);
        assert forall|v: usize| v < n implies s.contains(v) by {
            assert(range.contains(v as int));
            assert(t.to_set().contains(v as int));
            let i = choose|i: int| 0 <= i < t.len() && t[i] == v as int;
            assert(s[i] == v);
        }
    }
}

/// A sequence that holds every number below `n` has at least `n` items.
proof fn lemma_covering(s: Seq<usize>, n: usize)
    requires
        forall|v: usize| v < n ==> s.contains(v),
    ensures
        s.len() >= n,
{
    let t = s.map_values(|x: usize| x as int);
    let range = set_int_range(0, n as int);
    lemma_int_range(0, n as int);
    assert forall|x: int| range.contains(x) implies t.to_set().contains(x) by {
        let v = x as usize;
        assert(s.contains(v));
        let i = choose|i: int| 0 <= i < s.len() && s[i] == v;
        assert(t[i] == x);
    }
    seq_to_set_is_finite(t);
    lemma_len_subset(range, t.to_set());
    t.lemma_cardinality_of_set();
}

/// For each node one source of an edge into it that is not placed, or `n`
/// where every such source is placed.
fn find_blockers(n: usize, edges: &Vec<(usize, usize)>, placed: &Vec<bool>) -> (blockers: Vec<
    usize,
>)
    requires
        placed@.len() == n,
        forall|k: int| 0 <= k < edges@.len() ==> (#[trigger] edges@[k]).0 < n && edges@[k].1 < n,
    ensures
        blockers@.len() == n,
        forall|v: int|
            0 <= v < n && #[trigger] blockers@[v] != n ==> blockers@[v] < n
                && !placed@[blockers@[v] as int] && edges@.contains((blockers@[v], v as usize)),
        forall|k: int|
            0 <= k < edges@.len() && blockers@[(#[trigger] edges@[k]).1 as int] == n
                ==> placed@[edges@[k].0 as int],
{
    let mut blockers: Vec<usize> = Vec::new();
    let mut v: usize = 0;
    while v < n
        invariant
            v <= n,
            blockers@.len() == v,
            forall|u: int| 0 <= u < v ==> #[trigger] blockers@[u] == n,
        decreases n - v,
    {
        blockers.push(n);
        v += 1;
    }
    let mut k: usize = 0;
    while k < edges.len()
        invariant
            k <= edges@.len(),
            placed@.len() == n,
            blockers@.len() == n,
            forall|k: int|
                0 <= k < edges@.len() ==> (#[trigger] edges@[k]).0 < n && edges@[k].1 < n,
            forall|v: int|
                0 <= v < n && #[trigger] blockers@[v] != n ==> blockers@[v] < n
                    && !placed@[blockers@[v] as int] && edges@.contains(
                    (blockers@[v], v as usize),
                ),
            forall|e: int|
                0 <= e < k && blockers@[(#[trigger] edges@[e]).1 as int] == n
                    ==> placed@[edges@[e].0 as int],
        decreases edges@.len() - k,
    {
        let (a, b) = edges[k];
        if !placed[a] && blockers[b] == n {
            assert(edges@[k as int] == (a, b));
            blockers.set(b, a);
        }
        k += 1;
    }
    blockers
}

/// The first node that is neither placed nor blocked, or `n` where there is
/// none.
fn first_ready(n: usize, placed: &Vec<bool>, blockers: &Vec<usize>) -> (node: usize)
    requires
        placed@.len() == n,
        blockers@.len() == n,
    ensures
        node <= n,
        node < n ==> !placed@[node as int] && blockers@[node as int] == n,
        forall|u: int| 0 <= u < node ==> placed@[u] || #[trigger] blockers@[u] != n,
{
    let mut v: usize = 0;
    while v < n
        invariant
            v <= n,
            placed@.len() == n,
            blockers@.len() == n,
            forall|u: int| 0 <= u < v ==> placed@[u] || #[trigger] blockers@[u] != n,
        decreases n - v,
    {
        if !placed[v] && blockers[v] == n {
            return v;
        }
        v += 1;
    }
    n
}

/// The first node that is not placed, or `n` where all are.
fn first_unplaced(n: usize, placed: &Vec<bool>) -> (node: usize)
    requires
        placed@.len() == n,
    ensures
        node <= n,
        node < n ==> !placed@[node as int],
        forall|u: int| 0 <= u < node ==> placed@[u],
{
    let mut v: usize = 0;
    while v < n
        invariant
            v <= n,
            placed@.len() == n,
            forall|u: int| 0 <= u < v ==> placed@[u],
        decreases n - v,
    {
        if !placed[v] {
            return v;
        }
        v += 1;
    }
    n
}

/// Follows blockers from `start` until a node comes up a second time. That
/// node lies on a cycle.
fn find_cycle(
    n: usize,
    blockers: &Vec<usize>,
    start: usize,
    Ghost(graph): Ghost<GraphModel>,
) -> (node: usize)
    requires
        graph.nodes == n,
        blockers@.len() == n,
        start < n,
        blockers@[start as int] != n,
        forall|v: int|
            0 <= v < n && #[trigger] blockers@[v] != n ==> blockers@[v] < n
                && blockers@[blockers@[v] as int] != n && graph.has_edge(
                blockers@[v],
                v as usize,
            ),
    ensures
        node < n,
        graph.on_cycle(node),
{
    let mut seen: Vec<bool> = Vec::new();
    let mut v: usize = 0;
    while v < n
        invariant
            v <= n,
            seen@.len() == v,
            forall|u: int| 0 <= u < v ==> !#[trigger] seen@[u],
        decreases n - v,
    {
        seen.push(false);
        v += 1;
    }
    let mut current = start;
    let ghost mut walk: Seq<usize> = Seq::empty();
    loop
        invariant
            graph.nodes == n,
            blockers@.len() == n,
            seen@.len() == n,
            current < n,
            blockers@[current as int] != n,
            forall|v: int|
                0 <= v < n && #[trigger] blockers@[v] != n ==> blockers@[v] < n
                    && blockers@[blockers@[v] as int] != n && graph.has_edge(
                    blockers@[v],
                    v as usize,
                ),
            forall|v: int| 0 <= v < n ==> (#[trigger] seen@[v] <==> walk.contains(v as usize)),
            forall|i: int, j: int| 0 <= i < j < walk.len() ==> walk[i] != walk[j],
            forall|i: int| 0 <= i < walk.len() ==> walk[i] < n,
            graph.is_walk(walk),
            walk.len() > 0 ==> graph.has_edge(current, walk[0]),
            walk.len() <= n,
        decreases n - walk.len(),
    {
        let ghost longer = seq![current] + walk;
        proof {
            assert forall|i: int| 0 <= i < longer.len() - 1 implies #[trigger] graph.has_edge(
                longer[i],
                longer[i + 1],
            ) by {
                if i > 0 {
                    let before = i - 1;
                    assert(graph.has_edge(walk[before], walk[before + 1]));
                }
            }
        }
        if seen[current] {
            proof {
                let at = choose|at: int| 0 <= at < walk.len() && walk[at] == current;
                let path = longer.take(at + 2);
                assert(path[0] == current);
                assert(path[at + 1] == walk[at]);
                assert forall|i: int| 0 <= i < path.len() - 1 implies #[trigger] graph.has_edge(
                    path[i],
                    path[i + 1],
                ) by {
                    assert(graph.has_edge(longer[i], longer[i + 1]));
                }
                assert(graph.is_cycle_through(path, current));
            }
            return current;
        }
        proof {
            assert forall|i: int, j: int| 0 <= i < j < longer.len() implies longer[i]
                != longer[j] by {
                if i == 0 {
                    assert(walk[j - 1] == longer[j]);
                    assert(!walk.contains(current));
                } else {
                    assert(walk[i - 1] != walk[j - 1]);
                }
            }
            lemma_distinct_below(longer, n as nat);
            assert forall|v: int| 0 <= v < n implies (seen@.update(current as int, true)[v]
                <==> longer.contains(v as usize)) by {
                if v == current {
                    assert(longer[0] == current);
                } else if seen@[v] {
                    let at = choose|at: int| 0 <= at < walk.len() && walk[at] == v as usize;
                    assert(longer[at + 1] == v as usize);
                } else if longer.contains(v as usize) {
                    let at = choose|at: int| 0 <= at < longer.len() && longer[at] == v as usize;
                    assert(walk[at - 1] == v as usize);
                }
            }
        }
        seen.set(current, true);
        proof {
            walk = longer;
        }
        current = blockers[current];
    }
}

/// One pass over the edges: marks the target of every edge that starts at
/// `from` or at a marked node, and says whether a mark was added.
fn spread_marks(
    n: usize,
    edges: &Vec<(usize, usize)>,
    from: usize,
    marks: &mut Vec<bool>,
    Ghost(graph): Ghost<GraphModel>,
    Ghost(marked): Ghost<Seq<usize>>,
) -> (added: (bool, Ghost<Seq<usize>>))
    requires
        graph.nodes == n,
        graph.edges == edges@,
        graph.wf(),
        old(marks)@.len() == n,
        forall|x: int| 0 <= x < n ==> (#[trigger] old(marks)@[x] <==> marked.contains(x as usize)),
        forall|x: int| 0 <= x < n && #[trigger] old(marks)@[x] ==> graph.reaches(from, x as usize),
        forall|i: int, j: int| 0 <= i < j < marked.len() ==> marked[i] != marked[j],
        forall|i: int| 0 <= i < marked.len() ==> marked[i] < n,
    ensures
        final(marks)@.len() == n,
        forall|x: int|
            0 <= x < n ==> (#[trigger] final(marks)@[x] <==> added.1@.contains(x as usize)),
        forall|x: int|
            0 <= x < n && #[trigger] final(marks)@[x] ==> graph.reaches(from, x as usize),
        forall|i: int, j: int| 0 <= i < j < added.1@.len() ==> added.1@[i] != added.1@[j],
        forall|i: int| 0 <= i < added.1@.len() ==> added.1@[i] < n,
        added.0 ==> added.1@.len() > marked.len(),
        !added.0 ==> final(marks)@ == old(marks)@ && added.1@ == marked && forall|k: int|
            0 <= k < edges@.len() && ((#[trigger] edges@[k]).0 == from
                || final(marks)@[edges@[k].0 as int]) ==> final(marks)@[edges@[k].1 as int],
{
    let mut added = false;
    let ghost mut now = marked;
    let mut k: usize = 0;
    while k < edges.len()
        invariant
            graph.nodes == n,
            graph.edges == edges@,
            graph.wf(),
            k <= edges@.len(),
            marks@.len() == n,
            forall|x: int| 0 <= x < n ==> (#[trigger] marks@[x] <==> now.contains(x as usize)),
            forall|x: int| 0 <= x < n && #[trigger] marks@[x] ==> graph.reaches(from, x as usize),
            forall|i: int, j: int| 0 <= i < j < now.len() ==> now[i] != now[j],
            forall|i: int| 0 <= i < now.len() ==> now[i] < n,
            added ==> now.len() > marked.len(),
            !added ==> marks@ == old(marks)@ && now == marked && forall|e: int|
                0 <= e < k && ((#[trigger] edges@[e]).0 == from || marks@[edges@[e].0 as int])
                    ==> marks@[edges@[e].1 as int],
        decreases edges@.len() - k,
    {
        let (a, b) = edges[k];
        assert(edges@[k as int] == (a, b));
        if (a == from || marks[a]) && !marks[b] {
            let ghost longer = now.push(b);
            proof {
                assert(graph.has_edge(a, b));
                graph.lemma_reach_step(from, a, b);
                assert forall|i: int, j: int| 0 <= i < j < longer.len() implies longer[i]
                    != longer[j] by {
                    if j == now.len() {
                        assert(now[i] == longer[i]);
                        assert(!now.contains(b));
                    }
                }
                assert forall|x: int| 0 <= x < n implies (marks@.update(b as int, true)[x]
                    <==> longer.contains(x as usize)) by {
                    if x == b {
                        assert(longer[now.len() as int] == b);
                    } else if marks@[x] {
                        let at = choose|at: int| 0 <= at < now.len() && now[at] == x as usize;
                        assert(longer[at] == x as usize);
                    } else if longer.contains(x as usize) {
                        let at = choose|at: int|
                            0 <= at < longer.len() && longer[at] == x as usize;
                        assert(now[at] == x as usize);
                    }
                }
            }
            marks.set(b, true);
            added = true;
            proof {
                now = longer;
            }
        }
        k += 1;
    }
    (added, Ghost(now))
}

/// Whether `v` lies on a cycle.
fn lies_on_cycle(n: usize, edges: &Vec<(usize, usize)>, v: usize, Ghost(graph): Ghost<GraphModel>) -> (on:
    bool)
    requires
        graph.nodes == n,
        graph.edges == edges@,
        graph.wf(),
        v < n,
    ensures
        on == graph.on_cycle(v),
{
    let mut marks: Vec<bool> = Vec::new();
    let mut x: usize = 0;
    while x < n
        invariant
            x <= n,
            marks@.len() == x,
            forall|u: int| 0 <= u < x ==> !#[trigger] marks@[u],
        decreases n - x,
    {
        marks.push(false);
        x += 1;
    }
    let ghost mut marked: Seq<usize> = Seq::empty();
    loop
        invariant
            graph.nodes == n,
            graph.edges == edges@,
            graph.wf(),
            v < n,
            marks@.len() == n,
            forall|x: int| 0 <= x < n ==> (#[trigger] marks@[x] <==> marked.contains(x as usize)),
            forall|x: int| 0 <= x < n && #[trigger] marks@[x] ==> graph.reaches(v, x as usize),
            forall|i: int, j: int| 0 <= i < j < marked.len() ==> marked[i] != marked[j],
            forall|i: int| 0 <= i < marked.len() ==> marked[i] < n,
            marked.len() <= n,
        decreases n - marked.len(),
    {
        let (added, Ghost(now)) = spread_marks(n, edges, v, &mut marks, Ghost(graph), Ghost(marked));
        proof {
            lemma_distinct_below(now, n as nat);
            marked = now;
        }
        if !added {
            proof {
                graph.lemma_cycle_is_reach(v);
                if graph.reaches(v, v) {
                    let path = choose|path: Seq<usize>| graph.is_walk_between(path, v, v);
                    graph.lemma_closed_marks(v, marks@, path, path.len() - 1);
                }
            }
            return marks[v];
        }
    }
}

/// The lowest-numbered node that lies on a cycle, given one that does.
fn first_on_cycle(
    n: usize,
    edges: &Vec<(usize, usize)>,
    known: usize,
    Ghost(graph): Ghost<GraphModel>,
) -> (node: usize)
    requires
        graph.nodes == n,
        graph.edges == edges@,
        graph.wf(),
        known < n,
        graph.on_cycle(known),
    ensures
        graph.is_first_on_cycle(node),
{
    let mut v: usize = 0;
    while v < known
        invariant
            graph.nodes == n,
            graph.edges == edges@,
            graph.wf(),
            v <= known < n,
            graph.on_cycle(known),
            forall|u: usize| u < v ==> !graph.on_cycle(u),
        decreases known - v,
    {
        if lies_on_cycle(n, edges, v, Ghost(graph)) {
            return v;
        }
        v += 1;
    }
    known
}

/// The order in which the nodes of `graph` run, or a node on a cycle.
///
/// The order takes, at each place, the lowest-numbered node among those whose
/// incoming edges all come from nodes already taken. It is returned exactly
/// when the graph has no cycle; otherwise the lowest-numbered node that lies
/// on a cycle is named.
pub fn sort(graph: &DependencyGraph) -> (sorted: Result<Vec<usize>, CycleError>)
    requires
        graph.wf(),
    ensures
        sorted is Err <==> graph@.has_cycle(),
        sorted matches Ok(order) ==> graph@.is_declaration_order(order@) && graph@.is_permutation(
            order@,
        ) && graph@.respects_edges(order@),
        sorted matches Err(cycle) ==> graph@.is_first_on_cycle(cycle.node),
{
    proof {
        graph.lemma_wf();
    }
    let n = graph.node_count();
    let edges = graph.edges();
    let ghost model = graph@;
    let mut placed: Vec<bool> = Vec::new();
    let mut v: usize = 0;
    while v < n
        invariant
            v <= n,
            placed@.len() == v,
            forall|u: int| 0 <= u < v ==> !#[trigger] placed@[u],
        decreases n - v,
    {
        placed.push(false);
        v += 1;
    }
    let mut order: Vec<usize> = Vec::new();
    loop
        invariant
            model == graph@,
            model.wf(),
            model.nodes == n,
            model.edges == edges@,
            placed@.len() == n,
            forall|v: int| 0 <= v < n ==> (#[trigger] placed@[v] <==> order@.contains(v as usize)),
            forall|i: int, j: int| 0 <= i < j < order@.len() ==> order@[i] != order@[j],
            forall|i: int| 0 <= i < order@.len() ==> order@[i] < n,
            forall|i: int|
                0 <= i < order@.len() ==> #[trigger] model.is_next(order@.take(i), order@[i]),
            order@.len() <= n,
        decreases n - order@.len(),
    {
        let blockers = find_blockers(n, &edges, &placed);
        let node = first_ready(n, &placed, &blockers);
        if node < n {
            let ghost longer = order@.push(node);
            proof {
                lemma_is_next(model, order@, placed@, blockers@, node);
                assert forall|i: int, j: int| 0 <= i < j < longer.len() implies longer[i]
                    != longer[j] by {
                    if j == order@.len() {
                        assert(order@[i] == longer[i]);
                        assert(!order@.contains(node));
                    }
                }
                lemma_distinct_below(longer, n as nat);
                assert forall|i: int| 0 <= i < longer.len() implies #[trigger] model.is_next(
                    longer.take(i),
                    longer[i],
                ) by {
                    if i < order@.len() {
                        assert(longer.take(i) == order@.take(i));
                        assert(model.is_next(order@.take(i), order@[i]));
                    } else {
                        assert(longer.take(i) == order@);
                    }
                }
                assert forall|v: int| 0 <= v < n implies (placed@.update(node as int, true)[v]
                    <==> longer.contains(v as usize)) by {
                    if v == node {
                        assert(longer[order@.len() as int] == node);
                    } else if placed@[v] {
                        let at = choose|at: int| 0 <= at < order@.len() && order@[at] == v as usize;
                        assert(longer[at] == v as usize);
                    } else if longer.contains(v as usize) {
                        let at = choose|at: int|
                            0 <= at < longer.len() && longer[at] == v as usize;
                        assert(order@[at] == v as usize);
                    }
                }
            }
            placed.set(node, true);
            order.push(node);
        } else {
            let start = first_unplaced(n, &placed);
            if start < n {
                proof {
                    assert forall|v: int| 0 <= v < n && #[trigger] blockers@[v] != n implies
                        blockers@[v] < n && blockers@[blockers@[v] as int] != n && model.has_edge(
                        blockers@[v],
                        v as usize,
                    ) by {
                        let b = blockers@[v] as int;
                        assert(!placed@[b]);
                        assert(placed@[b] || blockers@[b] != n);
                    }
                    assert(placed@[start as int] || blockers@[start as int] != n);
                }
                let known = find_cycle(n, &blockers, start, Ghost(model));
                let node = first_on_cycle(n, &edges, known, Ghost(model));
                return Err(CycleError { node });
            }
            proof {
                assert forall|v: usize| v < n implies order@.contains(v) by {
                    assert(placed@[v as int]);
                }
                lemma_covering(order@, n);
                assert(model.is_declaration_order(order@));
                model.lemma_order_is_topological(order@);
                model.lemma_ordered_is_acyclic(order@);
            }
            return Ok(order);
        }
    }
}

/// A node that is neither placed nor blocked, with none such before it, is
/// the next in the order of declaration.
proof fn lemma_is_next(
    graph: GraphModel,
    order: Seq<usize>,
    placed: Seq<bool>,
    blockers: Seq<usize>,
    node: usize,
)
    requires
        graph.wf(),
        placed.len() == graph.nodes,
        blockers.len() == graph.nodes,
        node < graph.nodes,
        forall|v: int|
            0 <= v < graph.nodes ==> (#[trigger] placed[v] <==> order.contains(v as usize)),
        forall|v: int|
            0 <= v < graph.nodes && #[trigger] blockers[v] != graph.nodes ==> blockers[v]
                < graph.nodes && !placed[blockers[v] as int] && graph.edges.contains(
                (blockers[v], v as usize),
            ),
        forall|k: int|
            0 <= k < graph.edges.len() && blockers[(#[trigger] graph.edges[k]).1 as int]
                == graph.nodes ==> placed[graph.edges[k].0 as int],
        !placed[node as int],
        blockers[node as int] == graph.nodes,
        forall|u: int| 0 <= u < node ==> placed[u] || #[trigger] blockers[u] != graph.nodes,
    ensures
        graph.is_next(order, node),
{
    assert forall|k: int|
        0 <= k < graph.edges.len() && (#[trigger] graph.edges[k]).1 == node implies order.contains(
        graph.edges[k].0,
    ) by {
        assert(placed[graph.edges[k].0 as int]);
    }
    assert forall|u: usize| u < node implies !graph.ready(order, u) by {
        if !placed[u as int] {
            assert(blockers[u as int] != graph.nodes);
            let b = blockers[u as int];
            let k = choose|k: int| 0 <= k < graph.edges.len() && graph.edges[k] == (b, u);
            assert(graph.edges[k].1 == u);
            assert(!order.contains(graph.edges[k].0));
        }
    }
}

} // verus!
