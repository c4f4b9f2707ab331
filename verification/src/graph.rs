//! The directed graph that holds the shape of a program: which blocks exist
//! and which edges run between them.
//!
//! The graph itself is a `StableGraph` of the petgraph crate. Its nodes carry
//! no weight here; a node's index is the identity of a block and survives the
//! removal of other nodes.

use petgraph::algo::dominators::Dominators;
use petgraph::stable_graph::StableGraph;
use petgraph::Directed;
use std::hash::Hash;
use vstd::prelude::*;

verus! {

/// The identity of a block: the index of its node in the graph.
pub type NodeId = u32;

/// An edge as the graph's own contracts see it.
pub struct Edge {
    /// The index that the graph gave the edge.
    pub id: u32,
    /// The node that the edge leaves.
    pub source: u32,
    /// The node that the edge enters.
    pub target: u32,
}

#[verifier::external_type_specification]
#[verifier::external_body]
pub struct ExDirected(Directed);

#[verifier::external_type_specification]
#[verifier::external_body]
#[verifier::reject_recursive_types(N)]
#[verifier::reject_recursive_types(E)]
#[verifier::reject_recursive_types(Ty)]
#[verifier::reject_recursive_types(Ix)]
pub struct ExStableGraph<N, E, Ty, Ix>(StableGraph<N, E, Ty, Ix>);

#[verifier::external_type_specification]
#[verifier::external_body]
#[verifier::reject_recursive_types(Ix)]
pub struct ExNodeIndex<Ix>(petgraph::graph::NodeIndex<Ix>);

#[verifier::external_type_specification]
#[verifier::external_body]
#[verifier::reject_recursive_types(N)]
pub struct ExDominators<N: Copy + Eq + Hash>(Dominators<N>);

/// The nodes that a graph holds.
pub uninterp spec fn graph_nodes(g: StableGraph<(), (), Directed, u32>) -> Set<u32>;

/// The edges that a graph holds, in the order in which they were added.
pub uninterp spec fn graph_edges(g: StableGraph<(), (), Directed, u32>) -> Seq<Edge>;

/// The indices of removed nodes that the graph will hand out again, the next
/// one last.
pub uninterp spec fn graph_free_nodes(g: StableGraph<(), (), Directed, u32>) -> Seq<u32>;

/// The number of node indices that the graph has used so far.
pub uninterp spec fn graph_node_slots(g: StableGraph<(), (), Directed, u32>) -> nat;

/// The number of edge indices that the graph has used so far.
pub uninterp spec fn graph_edge_slots(g: StableGraph<(), (), Directed, u32>) -> nat;

/// The endpoints of each edge, in the order of the edges.
pub open spec fn arcs_of(edges: Seq<Edge>) -> Seq<(u32, u32)> {
    Seq::new(edges.len(), |i: int| (edges[i].source, edges[i].target))
}

/// The targets of the arcs that leave `n`, the newest arc first.
pub open spec fn successors_of(arcs: Seq<(u32, u32)>, n: u32) -> Seq<u32>
    decreases arcs.len(),
{
    if arcs.len() == 0 {
        Seq::empty()
    } else if arcs.last().0 == n {
        seq![arcs.last().1] + successors_of(arcs.drop_last(), n)
    } else {
        successors_of(arcs.drop_last(), n)
    }
}

/// The sources of the arcs that enter `n`, the newest arc first.
pub open spec fn predecessors_of(arcs: Seq<(u32, u32)>, n: u32) -> Seq<u32>
    decreases arcs.len(),
{
    if arcs.len() == 0 {
        Seq::empty()
    } else if arcs.last().1 == n {
        seq![arcs.last().0] + predecessors_of(arcs.drop_last(), n)
    } else {
        predecessors_of(arcs.drop_last(), n)
    }
}

/// The position of the newest arc from `a` to `b`, or -1 if there is none.
pub open spec fn newest_arc(arcs: Seq<(u32, u32)>, a: u32, b: u32) -> int
    decreases arcs.len(),
{
    if arcs.len() == 0 {
        -1
    } else if arcs.last() == (a, b) {
        arcs.len() - 1
    } else {
        newest_arc(arcs.drop_last(), a, b)
    }
}

/// The arcs that do not touch `n`, in their order.
pub open spec fn arcs_without_node(arcs: Seq<(u32, u32)>, n: u32) -> Seq<(u32, u32)>
    decreases arcs.len(),
{
    if arcs.len() == 0 {
        Seq::empty()
    } else if arcs.last().0 == n || arcs.last().1 == n {
        arcs_without_node(arcs.drop_last(), n)
    } else {
        arcs_without_node(arcs.drop_last(), n).push(arcs.last())
    }
}

/// The edges that do not touch `n`, in their order.
pub open spec fn edges_without_node(edges: Seq<Edge>, n: u32) -> Seq<Edge>
    decreases edges.len(),
{
    if edges.len() == 0 {
        Seq::empty()
    } else if edges.last().source == n || edges.last().target == n {
        edges_without_node(edges.drop_last(), n)
    } else {
        edges_without_node(edges.drop_last(), n).push(edges.last())
    }
}

/// The index that the graph gives the next node: the one that was vacated
/// last, or a new one when none is vacant.
pub open spec fn next_node(free: Seq<u32>, slots: nat) -> u32 {
    if free.len() > 0 {
        free.last()
    } else {
        slots as u32
    }
}

/// `StableGraph::new`: a graph without nodes and edges, which has used no
/// index yet.
#[verifier::external_body]
pub(crate) fn graph_new() -> (g: StableGraph<(), (), Directed, u32>)
    ensures
        graph_nodes(g) == Set::<u32>::empty(),
        graph_edges(g) == Seq::<Edge>::empty(),
        graph_free_nodes(g) == Seq::<u32>::empty(),
        graph_node_slots(g) == 0,
        graph_edge_slots(g) == 0,
{
    StableGraph::new()
}

/// `StableGraph::add_node`: the graph gains one node and no edge. The node
/// takes the index that was vacated last; when none is vacant it takes a new
/// one, which the graph can give as long as it has used fewer than
/// `u32::MAX` of them.
#[verifier::external_body]
pub(crate) fn graph_add_node(g: &mut StableGraph<(), (), Directed, u32>) -> (n: u32)
    requires
        graph_free_nodes(*old(g)).len() > 0 || graph_node_slots(*old(g)) < u32::MAX,
    ensures
        n == next_node(graph_free_nodes(*old(g)), graph_node_slots(*old(g))),
        graph_nodes(*final(g)) == graph_nodes(*old(g)).insert(n),
        graph_edges(*final(g)) == graph_edges(*old(g)),
        graph_free_nodes(*final(g)) == if graph_free_nodes(*old(g)).len() > 0 {
            graph_free_nodes(*old(g)).drop_last()
        } else {
            graph_free_nodes(*old(g))
        },
        graph_node_slots(*final(g)) == if graph_free_nodes(*old(g)).len() > 0 {
            graph_node_slots(*old(g))
        } else {
            graph_node_slots(*old(g)) + 1
        },
        graph_edge_slots(*final(g)) == graph_edge_slots(*old(g)),
{
    g.add_node(()).index() as u32
}

/// `StableGraph::add_edge` between two nodes of the graph: the new edge
/// comes last in the order of the edges, under an index that no edge of the
/// graph has, and the graph uses at most one more edge index than before.
#[verifier::external_body]
pub(crate) fn graph_add_edge(g: &mut StableGraph<(), (), Directed, u32>, a: u32, b: u32) -> (e: u32)
    requires
        graph_nodes(*old(g)).contains(a),
        graph_nodes(*old(g)).contains(b),
        graph_edge_slots(*old(g)) < u32::MAX,
    ensures
        graph_edges(*final(g)) == graph_edges(*old(g)).push(Edge { id: e, source: a, target: b }),
        forall|i: int| 0 <= i < graph_edges(*old(g)).len() ==> graph_edges(*old(g))[i].id != e,
        graph_nodes(*final(g)) == graph_nodes(*old(g)),
        graph_free_nodes(*final(g)) == graph_free_nodes(*old(g)),
        graph_node_slots(*final(g)) == graph_node_slots(*old(g)),
        graph_edge_slots(*old(g)) <= graph_edge_slots(*final(g)) <= graph_edge_slots(*old(g)) + 1,
{
    g.add_edge(petgraph::graph::NodeIndex::new(a as usize), petgraph::graph::NodeIndex::new(b as usize), ()).index() as u32
}

/// `StableGraph::find_edge`: the index of the newest edge from `a` to `b`,
/// or nothing when no edge runs from `a` to `b`.
#[verifier::external_body]
pub(crate) fn graph_find_edge(g: &StableGraph<(), (), Directed, u32>, a: u32, b: u32) -> (found: Option<u32>)
    ensures
        match found {
            Some(e) => {
                let i = newest_arc(arcs_of(graph_edges(*g)), a, b);
                0 <= i < graph_edges(*g).len() && graph_edges(*g)[i].id == e
            },
            None => newest_arc(arcs_of(graph_edges(*g)), a, b) < 0,
        },
{
    g.find_edge(petgraph::graph::NodeIndex::new(a as usize), petgraph::graph::NodeIndex::new(b as usize)).map(|e| e.index() as u32)
}

/// `StableGraph::remove_edge`: the edge with index `e` leaves the graph and
/// the other edges keep their order; without such an edge nothing changes.
/// Nodes and used indices stay as they are.
#[verifier::external_body]
pub(crate) fn graph_remove_edge(g: &mut StableGraph<(), (), Directed, u32>, e: u32) -> (removed: bool)
    ensures
        forall|i: int| 0 <= i < graph_edges(*old(g)).len() && graph_edges(*old(g))[i].id == e
            ==> graph_edges(*final(g)) == graph_edges(*old(g)).remove(i),
        (forall|i: int| 0 <= i < graph_edges(*old(g)).len() ==> graph_edges(*old(g))[i].id != e)
            ==> graph_edges(*final(g)) == graph_edges(*old(g)),
        removed == (exists|i: int| 0 <= i < graph_edges(*old(g)).len() && graph_edges(*old(g))[i].id == e),
        graph_nodes(*final(g)) == graph_nodes(*old(g)),
        graph_free_nodes(*final(g)) == graph_free_nodes(*old(g)),
        graph_node_slots(*final(g)) == graph_node_slots(*old(g)),
        graph_edge_slots(*final(g)) == graph_edge_slots(*old(g)),
{
    g.remove_edge(petgraph::graph::EdgeIndex::new(e as usize)).is_some()
}

/// `StableGraph::remove_node`: a node of the graph leaves it together with
/// every edge that touches it, and its index is the next to be handed out
/// again; for an index that is no node nothing changes.
#[verifier::external_body]
pub(crate) fn graph_remove_node(g: &mut StableGraph<(), (), Directed, u32>, n: u32) -> (removed: bool)
    ensures
        removed == graph_nodes(*old(g)).contains(n),
        removed ==> graph_nodes(*final(g)) == graph_nodes(*old(g)).remove(n),
        removed ==> graph_edges(*final(g)) == edges_without_node(graph_edges(*old(g)), n),
        removed ==> graph_free_nodes(*final(g)) == graph_free_nodes(*old(g)).push(n),
        !removed ==> graph_nodes(*final(g)) == graph_nodes(*old(g)),
        !removed ==> graph_edges(*final(g)) == graph_edges(*old(g)),
        !removed ==> graph_free_nodes(*final(g)) == graph_free_nodes(*old(g)),
        graph_node_slots(*final(g)) == graph_node_slots(*old(g)),
        graph_edge_slots(*final(g)) == graph_edge_slots(*old(g)),
{
    g.remove_node(petgraph::graph::NodeIndex::new(n as usize)).is_some()
}

/// `StableGraph::node_indices`: the nodes of the graph, each once, by rising
/// index.
#[verifier::external_body]
pub(crate) fn graph_node_indices(g: &StableGraph<(), (), Directed, u32>) -> (nodes: Vec<u32>)
    ensures
        forall|i: int, j: int| 0 <= i < j < nodes@.len() ==> nodes@[i] < nodes@[j],
        forall|n: u32| nodes@.contains(n) <==> graph_nodes(*g).contains(n),
{
    g.node_indices().map(|n| n.index() as u32).collect()
}

/// `StableGraph::edges_directed` with `Direction::Outgoing`, each edge given
/// by its target: the targets of the edges that leave `n`, the newest first.
#[verifier::external_body]
pub(crate) fn graph_successors(g: &StableGraph<(), (), Directed, u32>, n: u32) -> (targets: Vec<u32>)
    ensures
        targets@ == successors_of(arcs_of(graph_edges(*g)), n),
{
    g.edges_directed(petgraph::graph::NodeIndex::new(n as usize), petgraph::Direction::Outgoing)
        .map(|e| petgraph::visit::EdgeRef::target(&e).index() as u32)
        .collect()
}

/// `StableGraph::edges_directed` with `Direction::Incoming`, each edge given
/// by its source: the sources of the edges that enter `n`, the newest first.
#[verifier::external_body]
pub(crate) fn graph_predecessors(g: &StableGraph<(), (), Directed, u32>, n: u32) -> (sources: Vec<u32>)
    ensures
        sources@ == predecessors_of(arcs_of(graph_edges(*g)), n),
{
    g.edges_directed(petgraph::graph::NodeIndex::new(n as usize), petgraph::Direction::Incoming)
        .map(|e| petgraph::visit::EdgeRef::source(&e).index() as u32)
        .collect()
}


/// `StableGraph::contains_node`: whether `n` is a node of the graph.
#[verifier::external_body]
pub(crate) fn graph_contains_node(g: &StableGraph<(), (), Directed, u32>, n: u32) -> (found: bool)
    ensures
        found == graph_nodes(*g).contains(n),
{
    g.contains_node(petgraph::graph::NodeIndex::new(n as usize))
}

/// The immediate dominators that a dominance relation holds: beside each
/// node that has one, its immediate dominator.
pub uninterp spec fn dominators_held(d: Dominators<petgraph::graph::NodeIndex<u32>>) -> Map<
    u32,
    u32,
>;

/// Whether `path` leads from `a` to `b` over arcs.
pub open spec fn is_path(arcs: Seq<(u32, u32)>, path: Seq<u32>, a: u32, b: u32) -> bool {
    &&& path.len() > 0
    &&& path.first() == a
    &&& path.last() == b
    &&& forall|i: int| 0 <= i < path.len() - 1 ==> arcs.contains((#[trigger] path[i], path[i + 1]))
}

/// Whether a path leads from `root` to `n`.
pub open spec fn reachable(arcs: Seq<(u32, u32)>, root: u32, n: u32) -> bool {
    exists|path: Seq<u32>| is_path(arcs, path, root, n)
}

/// Whether `a` dominates `b`: every path from `root` to `b` holds `a`.
pub open spec fn dominates(arcs: Seq<(u32, u32)>, root: u32, a: u32, b: u32) -> bool {
    forall|path: Seq<u32>| is_path(arcs, path, root, b) ==> path.contains(a)
}

/// Whether `a` is the immediate dominator of `b`: it dominates `b`, is not
/// `b`, and every other dominator of `b` dominates it.
pub open spec fn is_immediate_dominator(arcs: Seq<(u32, u32)>, root: u32, a: u32, b: u32) -> bool {
    &&& a != b
    &&& dominates(arcs, root, a, b)
    &&& forall|c: u32| c != b && #[trigger] dominates(arcs, root, c, b) ==> dominates(arcs, root, c, a)
}

/// The immediate dominator of `n`; the root has none, and neither has a
/// node that cannot be reached from the root.
pub open spec fn immediate_dominator(arcs: Seq<(u32, u32)>, root: u32, n: u32) -> Option<u32> {
    if n == root || !reachable(arcs, root, n) {
        None
    } else {
        Some(choose|a: u32| is_immediate_dominator(arcs, root, a, n))
    }
}

/// `petgraph::algo::dominators::simple_fast` on the graph, from a node of
/// it: the dominance relation holds, beside each node that can be reached
/// from the root and is not the root, its immediate dominator, and nothing
/// else.
#[verifier::external_body]
pub(crate) fn graph_dominators(g: &StableGraph<(), (), Directed, u32>, root: u32) -> (d:
    Dominators<petgraph::graph::NodeIndex<u32>>)
    requires
        graph_nodes(*g).contains(root),
    ensures
        forall|n: u32|
            dominators_held(d).contains_key(n) <==> (#[trigger] immediate_dominator(
                arcs_of(graph_edges(*g)),
                root,
                n,
            )) is Some,
        forall|n: u32|
            dominators_held(d).contains_key(n) ==> Some(dominators_held(d)[n])
                == #[trigger] immediate_dominator(arcs_of(graph_edges(*g)), root, n),
{
    petgraph::algo::dominators::simple_fast(g, petgraph::graph::NodeIndex::new(root as usize))
}

/// `Dominators::immediate_dominator`: the immediate dominator that the
/// relation holds beside `n`, if it holds one.
#[verifier::external_body]
pub(crate) fn dominators_get(d: &Dominators<petgraph::graph::NodeIndex<u32>>, n: u32) -> (found:
    Option<u32>)
    ensures
        found == if dominators_held(*d).contains_key(n) {
            Some(dominators_held(*d)[n])
        } else {
            None
        },
{
    d.immediate_dominator(petgraph::graph::NodeIndex::new(n as usize)).map(|a| a.index() as u32)
}

/// The newest arc from `a` to `b` lies among the arcs and is such an arc.
pub proof fn lemma_newest_arc(arcs: Seq<(u32, u32)>, a: u32, b: u32)
    ensures
        -1 <= newest_arc(arcs, a, b) < arcs.len(),
        newest_arc(arcs, a, b) >= 0 ==> arcs[newest_arc(arcs, a, b)] == (a, b),
        newest_arc(arcs, a, b) < 0 ==> !arcs.contains((a, b)),
    decreases arcs.len(),
{
    if arcs.len() > 0 {
        lemma_newest_arc(arcs.drop_last(), a, b);
        if newest_arc(arcs, a, b) < 0 {
            assert forall|i: int| 0 <= i < arcs.len() implies arcs[i] != (a, b) by {
                if i < arcs.len() - 1 {
                    assert(arcs.drop_last()[i] == arcs[i]);
                    assert(arcs.drop_last().contains(arcs[i]));
                }
            }
        }
    }
}

/// The arcs of a sequence of edges follow the edges through `push`.
pub proof fn lemma_arcs_push(edges: Seq<Edge>, e: Edge)
    ensures
        arcs_of(edges.push(e)) == arcs_of(edges).push((e.source, e.target)),
{
    assert(arcs_of(edges.push(e)) =~= arcs_of(edges).push((e.source, e.target)));
}

/// The arcs of a sequence of edges follow the edges through `remove`.
pub proof fn lemma_arcs_remove(edges: Seq<Edge>, i: int)
    requires
        0 <= i < edges.len(),
    ensures
        arcs_of(edges.remove(i)) == arcs_of(edges).remove(i),
{
    assert(arcs_of(edges.remove(i)) =~= arcs_of(edges).remove(i));
}

/// Dropping the edges at a node drops the arcs at that node, and every edge
/// that stays was there before and does not touch the node.
pub proof fn lemma_edges_without_node(edges: Seq<Edge>, n: u32)
    ensures
        arcs_of(edges_without_node(edges, n)) == arcs_without_node(arcs_of(edges), n),
        forall|i: int|
            0 <= i < edges_without_node(edges, n).len() ==> {
                let e = #[trigger] edges_without_node(edges, n)[i];
                edges.contains(e) && e.source != n && e.target != n
            },
    decreases edges.len(),
{
    if edges.len() > 0 {
        let rest = edges.drop_last();
        lemma_edges_without_node(rest, n);
        assert(arcs_of(edges).drop_last() =~= arcs_of(rest));
        let kept = edges_without_node(edges, n);
        assert(arcs_of(kept) =~= arcs_without_node(arcs_of(edges), n));
        assert forall|i: int| 0 <= i < kept.len() implies {
            let e = #[trigger] kept[i];
            edges.contains(e) && e.source != n && e.target != n
        } by {
            let e = kept[i];
            if i < edges_without_node(rest, n).len() {
                assert(e == edges_without_node(rest, n)[i]);
                let j = choose|j: int| 0 <= j < rest.len() && rest[j] == e;
                assert(edges[j] == e);
            } else {
                assert(e == edges.last());
                assert(edges[edges.len() - 1] == e);
            }
        }
    } else {
        assert(arcs_of(edges_without_node(edges, n)) =~= arcs_without_node(arcs_of(edges), n));
    }
}

/// A node is a successor of `n` exactly if an arc runs from `n` to it.
pub proof fn lemma_successors_contains(arcs: Seq<(u32, u32)>, n: u32, m: u32)
    ensures
        successors_of(arcs, n).contains(m) <==> arcs.contains((n, m)),
    decreases arcs.len(),
{
    if arcs.len() > 0 {
        let rest = arcs.drop_last();
        lemma_successors_contains(rest, n, m);
        let s = successors_of(arcs, n);
        let r = successors_of(rest, n);
        if arcs.contains((n, m)) {
            let i = choose|i: int| 0 <= i < arcs.len() && arcs[i] == (n, m);
            if i == arcs.len() - 1 {
                assert(s[0] == m);
            } else {
                assert(rest[i] == (n, m));
                let k = choose|k: int| 0 <= k < r.len() && r[k] == m;
                if arcs.last().0 == n {
                    assert(s[k + 1] == m);
                } else {
                    assert(s[k] == m);
                }
            }
        }
        if s.contains(m) {
            let k = choose|k: int| 0 <= k < s.len() && s[k] == m;
            if arcs.last().0 == n && k == 0 {
                assert(arcs[arcs.len() - 1] == (n, m));
            } else {
                if arcs.last().0 == n {
                    assert(r[k - 1] == m);
                } else {
                    assert(r[k] == m);
                }
                let i = choose|i: int| 0 <= i < rest.len() && rest[i] == (n, m);
                assert(arcs[i] == (n, m));
            }
        }
    }
}

/// A node is a predecessor of `n` exactly if an arc runs from it to `n`.
pub proof fn lemma_predecessors_contains(arcs: Seq<(u32, u32)>, n: u32, m: u32)
    ensures
        predecessors_of(arcs, n).contains(m) <==> arcs.contains((m, n)),
    decreases arcs.len(),
{
    if arcs.len() > 0 {
        let rest = arcs.drop_last();
        lemma_predecessors_contains(rest, n, m);
        let s = predecessors_of(arcs, n);
        let r = predecessors_of(rest, n);
        if arcs.contains((m, n)) {
            let i = choose|i: int| 0 <= i < arcs.len() && arcs[i] == (m, n);
            if i == arcs.len() - 1 {
                assert(s[0] == m);
            } else {
                assert(rest[i] == (m, n));
                let k = choose|k: int| 0 <= k < r.len() && r[k] == m;
                if arcs.last().1 == n {
                    assert(s[k + 1] == m);
                } else {
                    assert(s[k] == m);
                }
            }
        }
        if s.contains(m) {
            let k = choose|k: int| 0 <= k < s.len() && s[k] == m;
            if arcs.last().1 == n && k == 0 {
                assert(arcs[arcs.len() - 1] == (m, n));
            } else {
                if arcs.last().1 == n {
                    assert(r[k - 1] == m);
                } else {
                    assert(r[k] == m);
                }
                let i = choose|i: int| 0 <= i < rest.len() && rest[i] == (m, n);
                assert(arcs[i] == (m, n));
            }
        }
    }
}

/// A directed graph of blocks: nodes with stable indices and the arcs between
/// them, in the order in which they were added.
pub struct FlowGraph {
    inner: StableGraph<(), (), Directed, u32>,
    slots: u32,
    edges_added: u32,
}

impl FlowGraph {
    /// The nodes of the graph.
    pub closed spec fn nodes(&self) -> Set<u32> {
        graph_nodes(self.inner)
    }

    /// The arcs of the graph, each as source and target, oldest first.
    pub closed spec fn arcs(&self) -> Seq<(u32, u32)> {
        arcs_of(graph_edges(self.inner))
    }

    /// The indices of removed nodes, the next to be used again last.
    pub closed spec fn free(&self) -> Seq<u32> {
        graph_free_nodes(self.inner)
    }

    /// The number of node indices used so far; every node lies below it.
    pub closed spec fn slots(&self) -> nat {
        self.slots as nat
    }

    /// The number of arcs added so far, removed ones included.
    pub closed spec fn edges_added(&self) -> nat {
        self.edges_added as nat
    }

    /// What the graph keeps for itself.
    pub closed spec fn inner_wf(&self) -> bool {
        &&& graph_node_slots(self.inner) == self.slots
        &&& graph_edge_slots(self.inner) <= self.edges_added
    }

    /// The graph is consistent: nodes and vacant indices lie below the number
    /// of used indices, and arcs run between nodes.
    pub open spec fn wf(&self) -> bool {
        &&& self.inner_wf()
        &&& self.slots() <= u32::MAX
        &&& forall|n: u32| self.nodes().contains(n) ==> n < self.slots()
        &&& forall|i: int|
            0 <= i < self.free().len() ==> #[trigger] self.free()[i] < self.slots()
                && !self.nodes().contains(self.free()[i])
        &&& self.free().no_duplicates()
        &&& forall|i: int|
            0 <= i < self.arcs().len() ==> self.nodes().contains((#[trigger] self.arcs()[i]).0)
                && self.nodes().contains(self.arcs()[i].1)
    }

    /// The successors of `n`, newest arc first.
    pub open spec fn successors_spec(&self, n: u32) -> Seq<u32> {
        successors_of(self.arcs(), n)
    }

    /// The predecessors of `n`, newest arc first.
    pub open spec fn predecessors_spec(&self, n: u32) -> Seq<u32> {
        predecessors_of(self.arcs(), n)
    }

    /// An empty graph.
    pub fn new() -> (g: Self)
        ensures
            g.wf(),
            g.nodes() == Set::<u32>::empty(),
            g.arcs() == Seq::<(u32, u32)>::empty(),
            g.free() == Seq::<u32>::empty(),
            g.slots() == 0,
            g.edges_added() == 0,
    {
        let g = FlowGraph { inner: graph_new(), slots: 0, edges_added: 0 };
        assert(g.arcs() =~= Seq::<(u32, u32)>::empty());
        g
    }

    /// Adds a node and returns its index, or `None` when all indices are used.
    pub fn add_node(&mut self) -> (added: Option<u32>)
        requires
            old(self).wf(),
        ensures
            final(self).wf(),
            final(self).arcs() == old(self).arcs(),
            final(self).edges_added() == old(self).edges_added(),
            match added {
                Some(n) => {
                    &&& old(self).slots() < u32::MAX
                    &&& n == next_node(old(self).free(), old(self).slots())
                    &&& !old(self).nodes().contains(n)
                    &&& final(self).nodes() == old(self).nodes().insert(n)
                    &&& final(self).free() == if old(self).free().len() > 0 {
                        old(self).free().drop_last()
                    } else {
                        old(self).free()
                    }
                    &&& final(self).slots() == if old(self).free().len() > 0 {
                        old(self).slots()
                    } else {
                        old(self).slots() + 1
                    }
                },
                None => {
                    &&& old(self).slots() == u32::MAX
                    &&& final(self).nodes() == old(self).nodes()
                    &&& final(self).free() == old(self).free()
                    &&& final(self).slots() == old(self).slots()
                },
            },
    {
        if self.slots == u32::MAX {
            return None;
        }
        let n = graph_add_node(&mut self.inner);
        if n == self.slots {
            self.slots = self.slots + 1;
        }
        proof {
            assert(self.nodes() == old(self).nodes().insert(n));
            assert(self.arcs() == old(self).arcs());
            assert(self.free().no_duplicates());
        }
        Some(n)
    }


    /// Adds an arc from `a` to `b`, two nodes of the graph. Returns `false`,
    /// and leaves the graph as it is, when `u32::MAX` arcs were added before.
    pub fn add_edge(&mut self, a: u32, b: u32) -> (added: bool)
        requires
            old(self).wf(),
            old(self).nodes().contains(a),
            old(self).nodes().contains(b),
        ensures
            final(self).wf(),
            final(self).nodes() == old(self).nodes(),
            final(self).free() == old(self).free(),
            final(self).slots() == old(self).slots(),
            added == (old(self).edges_added() < u32::MAX),
            added ==> final(self).arcs() == old(self).arcs().push((a, b)),
            added ==> final(self).edges_added() == old(self).edges_added() + 1,
            !added ==> final(self).arcs() == old(self).arcs(),
            !added ==> final(self).edges_added() == old(self).edges_added(),
    {
        if self.edges_added == u32::MAX {
            return false;
        }
        let ghost before = graph_edges(self.inner);
        let e = graph_add_edge(&mut self.inner, a, b);
        self.edges_added = self.edges_added + 1;
        proof {
            lemma_arcs_push(before, Edge { id: e, source: a, target: b });
            assert(self.arcs() == old(self).arcs().push((a, b)));
            assert(self.nodes() == old(self).nodes());
            assert(self.free() == old(self).free());
            assert forall|i: int| 0 <= i < self.arcs().len() implies self.nodes().contains(
                (#[trigger] self.arcs()[i]).0,
            ) && self.nodes().contains(self.arcs()[i].1) by {
                if i < old(self).arcs().len() {
                    assert(self.arcs()[i] == old(self).arcs()[i]);
                }
            }
            assert(self.wf());
        }
        true
    }

    /// Removes the newest arc from `a` to `b`. Returns `false`, and leaves
    /// the graph as it is, when no arc runs from `a` to `b`.
    pub fn remove_edge(&mut self, a: u32, b: u32) -> (removed: bool)
        requires
            old(self).wf(),
        ensures
            final(self).wf(),
            final(self).nodes() == old(self).nodes(),
            final(self).free() == old(self).free(),
            final(self).slots() == old(self).slots(),
            final(self).edges_added() == old(self).edges_added(),
            removed == (newest_arc(old(self).arcs(), a, b) >= 0),
            removed ==> final(self).arcs() == old(self).arcs().remove(
                newest_arc(old(self).arcs(), a, b),
            ),
            !removed ==> final(self).arcs() == old(self).arcs(),
    {
        let ghost before = graph_edges(self.inner);
        match graph_find_edge(&self.inner, a, b) {
            Some(e) => {
                graph_remove_edge(&mut self.inner, e);
                proof {
                    let i = newest_arc(arcs_of(before), a, b);
                    assert(before[i].id == e);
                    lemma_arcs_remove(before, i);
                    assert(self.arcs() == old(self).arcs().remove(i));
                    assert(self.nodes() == old(self).nodes());
                    assert(self.free() == old(self).free());
                    assert forall|k: int| 0 <= k < self.arcs().len() implies self.nodes().contains(
                        (#[trigger] self.arcs()[k]).0,
                    ) && self.nodes().contains(self.arcs()[k].1) by {
                        if k < i {
                            assert(self.arcs()[k] == old(self).arcs()[k]);
                        } else {
                            assert(self.arcs()[k] == old(self).arcs()[k + 1]);
                        }
                    }
                    assert(self.wf());
                }
                true
            },
            None => false,
        }
    }

    /// Removes the node `n` with all arcs that touch it. Returns `false`, and
    /// leaves the graph as it is, when `n` is no node of the graph.
    pub fn remove_node(&mut self, n: u32) -> (removed: bool)
        requires
            old(self).wf(),
        ensures
            final(self).wf(),
            final(self).slots() == old(self).slots(),
            final(self).edges_added() == old(self).edges_added(),
            removed == old(self).nodes().contains(n),
            removed ==> final(self).nodes() == old(self).nodes().remove(n),
            removed ==> final(self).arcs() == arcs_without_node(old(self).arcs(), n),
            removed ==> final(self).free() == old(self).free().push(n),
            !removed ==> final(self).nodes() == old(self).nodes(),
            !removed ==> final(self).arcs() == old(self).arcs(),
            !removed ==> final(self).free() == old(self).free(),
    {
        let ghost before = graph_edges(self.inner);
        let removed = graph_remove_node(&mut self.inner, n);
        proof {
            if removed {
                lemma_edges_without_node(before, n);
                let after = graph_edges(self.inner);
                assert forall|i: int| 0 <= i < self.arcs().len() implies self.nodes().contains(
                    (#[trigger] self.arcs()[i]).0,
                ) && self.nodes().contains(self.arcs()[i].1) by {
                    let e = after[i];
                    assert(before.contains(e));
                    let j = choose|j: int| 0 <= j < before.len() && before[j] == e;
                    assert(arcs_of(before)[j] == (e.source, e.target));
                    assert(old(self).nodes().contains(old(self).arcs()[j].0));
                }
                assert(self.nodes() == old(self).nodes().remove(n));
                assert(self.free() == old(self).free().push(n));
                assert forall|i: int| 0 <= i < self.free().len() implies #[trigger] self.free()[i]
                    < self.slots() && !self.nodes().contains(self.free()[i]) by {
                    if i < old(self).free().len() {
                        assert(self.free()[i] == old(self).free()[i]);
                    }
                }
                assert(self.free().no_duplicates());
                assert(self.wf());
            } else {
                assert(self.nodes() == old(self).nodes());
                assert(self.arcs() == old(self).arcs());
                assert(self.free() == old(self).free());
            }
        }
        removed
    }

    /// Whether `n` is a node of the graph.
    pub fn contains_node(&self, n: u32) -> (found: bool)
        ensures
            found == self.nodes().contains(n),
    {
        graph_contains_node(&self.inner, n)
    }

    /// The nodes of the graph, each once, by rising index.
    pub fn node_indices(&self) -> (nodes: Vec<u32>)
        ensures
            forall|i: int, j: int| 0 <= i < j < nodes@.len() ==> nodes@[i] < nodes@[j],
            forall|n: u32| nodes@.contains(n) <==> self.nodes().contains(n),
    {
        graph_node_indices(&self.inner)
    }

    /// The successors of `n`, newest arc first.
    pub fn successors(&self, n: u32) -> (targets: Vec<u32>)
        ensures
            targets@ == self.successors_spec(n),
    {
        graph_successors(&self.inner, n)
    }

    /// The predecessors of `n`, newest arc first.
    pub fn predecessors(&self, n: u32) -> (sources: Vec<u32>)
        ensures
            sources@ == self.predecessors_spec(n),
    {
        graph_predecessors(&self.inner, n)
    }

    /// The immediate dominator of each node index below the number of used
    /// indices, seen from `root`, a node of the graph.
    pub fn immediate_dominators(&self, root: u32) -> (idoms: Vec<Option<u32>>)
        requires
            self.wf(),
            self.nodes().contains(root),
        ensures
            idoms@.len() == self.slots(),
            forall|n: int|
                0 <= n < idoms@.len() ==> #[trigger] idoms@[n] == immediate_dominator(
                    self.arcs(),
                    root,
                    n as u32,
                ),
    {
        let d = graph_dominators(&self.inner, root);
        let mut idoms: Vec<Option<u32>> = Vec::new();
        let mut n: u32 = 0;
        while n < self.slots
            invariant
                n <= self.slots,
                idoms@.len() == n,
                forall|i: u32|
                    dominators_held(d).contains_key(i) <==> (#[trigger] immediate_dominator(
                        self.arcs(),
                        root,
                        i,
                    )) is Some,
                forall|i: u32|
                    dominators_held(d).contains_key(i) ==> Some(dominators_held(d)[i])
                        == #[trigger] immediate_dominator(self.arcs(), root, i),
                forall|i: int|
                    0 <= i < idoms@.len() ==> #[trigger] idoms@[i] == immediate_dominator(
                        self.arcs(),
                        root,
                        i as u32,
                    ),
            decreases self.slots - n,
        {
            idoms.push(dominators_get(&d, n));
            n = n + 1;
        }
        idoms
    }

}

} // verus!
