//! The graph of modules: one node for each module id, one edge for each
//! relation between two modules. The nodes and edges are kept by `petgraph`;
//! what this library relies on is named and stated here.

use vstd::prelude::*;
use petgraph::visit::EdgeRef;
use crate::scanner::rel::RelationInfo;

verus! {

#[verifier::external_type_specification]
#[verifier::external_body]
#[verifier::reject_recursive_types(N)]
#[verifier::reject_recursive_types(E)]
#[verifier::reject_recursive_types(Ty)]
#[verifier::reject_recursive_types(Ix)]
pub struct ExGraph<N, E, Ty, Ix>(petgraph::graph::Graph<N, E, Ty, Ix>);

#[verifier::external_type_specification]
#[verifier::external_body]
pub struct ExDirected(petgraph::Directed);

/// A directed graph whose nodes carry module ids and whose edges carry the
/// position of their relation in a table beside the graph.
pub type DepGraph = petgraph::graph::Graph<String, usize, petgraph::Directed, u32>;

/// The ids that the nodes of the graph carry, by node index.
pub uninterp spec fn graph_nodes(g: DepGraph) -> Seq<Seq<char>>;

/// The edges of the graph in the order in which they were added: source, target, weight.
pub uninterp spec fn graph_edges(g: DepGraph) -> Seq<(usize, usize, usize)>;

/// The edges that leave `node` among the first `n`, the last added first: target and weight.
pub open spec fn out_edges(edges: Seq<(usize, usize, usize)>, node: usize, n: int) -> Seq<
    (usize, usize),
>
    decreases n,
{
    if 0 < n <= edges.len() {
        if edges[n - 1].0 == node {
            seq![(edges[n - 1].1, edges[n - 1].2)] + out_edges(edges, node, n - 1)
        } else {
            out_edges(edges, node, n - 1)
        }
    } else {
        Seq::empty()
    }
}

/// `petgraph::graph::Graph::new`: a graph without nodes and edges.
#[verifier::external_body]
pub(crate) fn graph_new() -> (g: DepGraph)
    ensures
        graph_nodes(g).len() == 0,
        graph_edges(g).len() == 0,
{
    petgraph::graph::Graph::new()
}

/// `petgraph::graph::Graph::add_node`: the node is added behind the others
/// and its index returned. The call panics when the index type is used up,
/// which the bound on the node count leaves out.
#[verifier::external_body]
pub(crate) fn graph_add_node(g: &mut DepGraph, id: String) -> (index: usize)
    requires
        graph_nodes(*old(g)).len() < u32::MAX,
    ensures
        index == graph_nodes(*old(g)).len(),
        graph_nodes(*final(g)) == graph_nodes(*old(g)).push(id@),
        graph_edges(*final(g)) == graph_edges(*old(g)),
{
    g.add_node(id).index()
}

/// `petgraph::graph::Graph::add_edge`: the edge is added behind the others.
/// The call panics for a node that does not exist and when the index type is
/// used up, which the conditions leave out.
#[verifier::external_body]
pub(crate) fn graph_add_edge(g: &mut DepGraph, from: usize, to: usize, weight: usize)
    requires
        from < graph_nodes(*old(g)).len(),
        to < graph_nodes(*old(g)).len(),
        graph_edges(*old(g)).len() < u32::MAX,
    ensures
        graph_nodes(*final(g)) == graph_nodes(*old(g)),
        graph_edges(*final(g)) == graph_edges(*old(g)).push((from, to, weight)),
{
    g.add_edge(petgraph::graph::NodeIndex::new(from), petgraph::graph::NodeIndex::new(to), weight);
}

/// `petgraph::graph::Graph::node_count`.
#[verifier::external_body]
pub(crate) fn graph_node_count(g: &DepGraph) -> (n: usize)
    ensures
        n == graph_nodes(*g).len(),
{
    g.node_count()
}

/// `petgraph::graph::Graph::node_weight`: the id that a node carries.
#[verifier::external_body]
pub(crate) fn graph_node_id(g: &DepGraph, node: usize) -> (id: Option<String>)
    requires
        node < u32::MAX,
    ensures
        id.deep_view() == (if node < graph_nodes(*g).len() {
            Some(graph_nodes(*g)[node as int])
        } else {
            None
        }),
{
    g.node_weight(petgraph::graph::NodeIndex::new(node)).cloned()
}

/// `petgraph::graph::Graph::edges_directed` with `Outgoing`: the edges that
/// leave a node, the last added first, each as its target and its weight.
#[verifier::external_body]
pub(crate) fn graph_out_edges(g: &DepGraph, node: usize) -> (out: Vec<(usize, usize)>)
    requires
        node < graph_nodes(*g).len(),
    ensures
        out@ == out_edges(graph_edges(*g), node, graph_edges(*g).len() as int),
{
    g.edges_directed(petgraph::graph::NodeIndex::new(node), petgraph::Direction::Outgoing).map(
        |e| (e.target().index(), *e.weight()),
    ).collect()
}

/// A relation between two modules.
pub enum Rel {
    Import(RelationInfo),
    ReExport(RelationInfo),
    /// `export * from`, with the place of the statement among the relations of its module.
    ReExportAll(usize),
}

impl Rel {
    /// The place of the relation among those of its module, by source order.
    pub open spec fn order(self) -> usize {
        match self {
            Rel::Import(info) => info.order,
            Rel::ReExport(info) => info.order,
            Rel::ReExportAll(order) => order,
        }
    }

    /// The place of the relation among those of its module, by source order.
    pub fn get_order(&self) -> (r: usize)
        ensures
            r == self.order(),
    {
        match self {
            Rel::Import(info) => info.order,
            Rel::ReExport(info) => info.order,
            Rel::ReExportAll(order) => *order,
        }
    }
}

/// The first place from `from` on whose key is greater than `key`; the end where there is none.
pub open spec fn place_of(keys: Seq<usize>, key: usize, from: int) -> int
    decreases keys.len() - from,
{
    if from < 0 || from >= keys.len() {
        keys.len() as int
    } else if keys[from] > key {
        from
    } else {
        place_of(keys, key, from + 1)
    }
}

/// The orders of the relations that the edges carry.
pub open spec fn edge_orders(edges: Seq<(usize, usize)>, rels: Seq<Rel>) -> Seq<usize> {
    Seq::new(edges.len(), |i: int| rels[edges[i].1 as int].order())
}

/// The first `n` edges by ascending order of their relations; edges of one
/// order stay as they stood.
pub open spec fn sorted_edges(edges: Seq<(usize, usize)>, rels: Seq<Rel>, n: int) -> Seq<
    (usize, usize),
>
    decreases n,
{
    if 0 < n <= edges.len() {
        let before = sorted_edges(edges, rels, n - 1);
        let e = edges[n - 1];
        before.insert(place_of(edge_orders(before, rels), rels[e.1 as int].order(), 0), e)
    } else {
        Seq::empty()
    }
}

/// The targets of the edges.
pub open spec fn targets_of(edges: Seq<(usize, usize)>) -> Seq<usize> {
    Seq::new(edges.len(), |i: int| edges[i].0)
}

pub struct ModuleGraph {
    pub graph: DepGraph,
    /// The relations that the edges carry, by edge weight.
    pub rels: Vec<Rel>,
}

impl ModuleGraph {
    /// The ids of the nodes, by node index.
    pub open spec fn nodes(&self) -> Seq<Seq<char>> {
        graph_nodes(self.graph)
    }

    /// The edges in the order in which they were added: source, target, and place of the relation.
    pub open spec fn edges(&self) -> Seq<(usize, usize, usize)> {
        graph_edges(self.graph)
    }

    /// Every edge joins two nodes of the graph and carries the relation that was added with it.
    pub open spec fn wf(&self) -> bool {
        &&& self.nodes().len() <= u32::MAX
        &&& self.edges().len() <= u32::MAX
        &&& self.rels@.len() == self.edges().len()
        &&& forall|k: int|
            0 <= k < self.edges().len() ==> {
                &&& (#[trigger] self.edges()[k]).0 < self.nodes().len()
                &&& self.edges()[k].1 < self.nodes().len()
                &&& self.edges()[k].2 == k
            }
    }

    /// The edges that leave `node`, by ascending order of their relations: target and relation.
    pub open spec fn sorted_out_edges(&self, node: usize) -> Seq<(usize, usize)> {
        let out = out_edges(self.edges(), node, self.edges().len() as int);
        sorted_edges(out, self.rels@, out.len() as int)
    }

    /// The modules that `node` depends on, in the source order of the
    /// statements that name them.
    pub open spec fn children_of(&self, node: usize) -> Seq<usize> {
        targets_of(self.sorted_out_edges(node))
    }

    /// For each node the modules that it depends on.
    pub open spec fn adjacency(&self) -> Seq<Seq<usize>> {
        Seq::new(self.nodes().len(), |a: int| self.children_of(a as usize))
    }

    pub fn new() -> (g: ModuleGraph)
        ensures
            g.wf(),
            g.nodes().len() == 0,
            g.edges().len() == 0,
    {
        ModuleGraph { graph: graph_new(), rels: Vec::new() }
    }

    pub fn node_count(&self) -> (n: usize)
        ensures
            n == self.nodes().len(),
    {
        graph_node_count(&self.graph)
    }

    /// The id of a node.
    pub fn node_id(&self, node: usize) -> (id: Option<String>)
        requires
            self.wf(),
        ensures
            id.deep_view() == (if node < self.nodes().len() {
                Some(self.nodes()[node as int])
            } else {
                None
            }),
    {
        if node < graph_node_count(&self.graph) {
            graph_node_id(&self.graph, node)
        } else {
            None
        }
    }

    /// Adds a node for `id` and returns its index; `None` where the graph is full.
    pub fn add_node(&mut self, id: String) -> (index: Option<usize>)
        requires
            old(self).wf(),
        ensures
            final(self).wf(),
            final(self).edges() == old(self).edges(),
            final(self).rels == old(self).rels,
            match index {
                Some(i) => i == old(self).nodes().len() && final(self).nodes() == old(self).nodes().push(id@),
                None => old(self).nodes().len() == u32::MAX && final(self).nodes() == old(self).nodes(),
            },
    {
        if graph_node_count(&self.graph) < u32::MAX as usize {
            Some(graph_add_node(&mut self.graph, id))
        } else {
            None
        }
    }

    /// Adds an edge with its relation. Returns whether it was added: it is
    /// not where a node does not exist or the graph is full.
    pub fn add_edge(&mut self, from: usize, to: usize, rel: Rel) -> (added: bool)
        requires
            old(self).wf(),
        ensures
            final(self).wf(),
            final(self).nodes() == old(self).nodes(),
            added == (from < old(self).nodes().len() && to < old(self).nodes().len() && old(self).edges().len() < u32::MAX),
            added ==> final(self).edges() == old(self).edges().push(
                (from, to, old(self).rels@.len() as usize),
            ) && final(self).rels@ == old(self).rels@.push(rel),
            !added ==> final(self).edges() == old(self).edges() && final(self).rels == old(self).rels,
    {
        let n = graph_node_count(&self.graph);
        if from < n && to < n && self.rels.len() < u32::MAX as usize {
            let weight = self.rels.len();
            graph_add_edge(&mut self.graph, from, to, weight);
            self.rels.push(rel);
            true
        } else {
            false
        }
    }

    /// The edges that leave `node`, by ascending order of their relations:
    /// each as its target and the place of its relation.
    pub fn sorted_out(&self, node: usize) -> (r: Vec<(usize, usize)>)
        requires
            self.wf(),
            node < self.nodes().len(),
        ensures
            r@ == self.sorted_out_edges(node),
            forall|i: int|
                0 <= i < r@.len() ==> (#[trigger] r@[i]).0 < self.nodes().len() && r@[i].1
                    < self.rels@.len(),
    {
        let out = graph_out_edges(&self.graph, node);
        proof {
            lemma_out_edges(self.edges(), node, self.edges().len() as int);
        }
        let mut sorted: Vec<(usize, usize)> = Vec::new();
        let mut k: usize = 0;
        while k < out.len()
            invariant
                k <= out@.len(),
                self.wf(),
                sorted@ == sorted_edges(out@, self.rels@, k as int),
                sorted@.len() == k,
                forall|i: int|
                    0 <= i < out@.len() ==> (#[trigger] out@[i]).0 < self.nodes().len() && out@[i].1
                        < self.rels@.len(),
                forall|i: int|
                    0 <= i < sorted@.len() ==> (#[trigger] sorted@[i]).0 < self.nodes().len()
                        && sorted@[i].1 < self.rels@.len(),
            decreases out@.len() - k,
        {
            let e = out[k];
            let key = self.rels[e.1].get_order();
            let ghost keys = edge_orders(sorted@, self.rels@);
            let mut p: usize = 0;
            while p < sorted.len() && self.rels[sorted[p].1].get_order() <= key
                invariant
                    p <= sorted@.len(),
                    keys == edge_orders(sorted@, self.rels@),
                    place_of(keys, key, p as int) == place_of(keys, key, 0),
                    forall|i: int|
                        0 <= i < sorted@.len() ==> (#[trigger] sorted@[i]).0 < self.nodes().len()
                            && sorted@[i].1 < self.rels@.len(),
                decreases sorted@.len() - p,
            {
                p += 1;
            }
            sorted.insert(p, e);
            k += 1;
        }
        sorted
    }

    /// The modules that `node` depends on, in the source order of the statements that name them.
    pub fn children(&self, node: usize) -> (r: Vec<usize>)
        requires
            self.wf(),
            node < self.nodes().len(),
        ensures
            r@ == self.children_of(node),
            forall|i: int| 0 <= i < r@.len() ==> #[trigger] r@[i] < self.nodes().len(),
    {
        let sorted = self.sorted_out(node);
        let mut r: Vec<usize> = Vec::new();
        let mut i: usize = 0;
        while i < sorted.len()
            invariant
                i <= sorted@.len(),
                r@.len() == i,
                forall|j: int| 0 <= j < i ==> r@[j] == sorted@[j].0,
                forall|j: int| 0 <= j < sorted@.len() ==> (#[trigger] sorted@[j]).0 < self.nodes().len(),
            decreases sorted@.len() - i,
        {
            r.push(sorted[i].0);
            i += 1;
        }
        assert(r@ =~= targets_of(sorted@));
        r
    }

    /// For each node the modules that it depends on.
    pub fn adjacency_lists(&self) -> (adj: Vec<Vec<usize>>)
        requires
            self.wf(),
        ensures
            adj.deep_view() == self.adjacency(),
            forall|a: int, i: int|
                0 <= a < adj@.len() && 0 <= i < adj@[a]@.len() ==> #[trigger] adj@[a]@[i]
                    < adj@.len(),
    {
        let n = self.node_count();
        let mut adj: Vec<Vec<usize>> = Vec::new();
        let mut a: usize = 0;
        while a < n
            invariant
                a <= n,
                n == self.nodes().len(),
                self.wf(),
                adj@.len() == a,
                forall|b: int| 0 <= b < a ==> (#[trigger] adj@[b])@ == self.children_of(b as usize),
                forall|b: int, i: int|
                    0 <= b < a && 0 <= i < adj@[b]@.len() ==> #[trigger] adj@[b]@[i] < n,
            decreases n - a,
        {
            let c = self.children(a);
            adj.push(c);
            a += 1;
        }
        assert(adj.deep_view() =~= self.adjacency()) by {
            assert forall|b: int| 0 <= b < adj@.len() implies adj.deep_view()[b]
                == self.adjacency()[b] by {
                assert(adj@[b].deep_view() =~= adj@[b]@);
            }
        }
        adj
    }
}

/// The edges that leave a node of a well-formed graph lead to nodes of the
/// graph and carry relations of its table.
pub proof fn lemma_out_edges(edges: Seq<(usize, usize, usize)>, node: usize, n: int)
    requires
        0 <= n <= edges.len(),
    ensures
        forall|i: int|
            0 <= i < out_edges(edges, node, n).len() ==> exists|k: int|
                0 <= k < n && edges[k].1 == (#[trigger] out_edges(edges, node, n)[i]).0
                    && edges[k].2 == out_edges(edges, node, n)[i].1,
    decreases n,
{
    if n > 0 {
        lemma_out_edges(edges, node, n - 1);
        let prev = out_edges(edges, node, n - 1);
        let cur = out_edges(edges, node, n);
        assert forall|i: int| 0 <= i < cur.len() implies exists|k: int|
            0 <= k < n && edges[k].1 == (#[trigger] cur[i]).0 && edges[k].2 == cur[i].1 by {
            if edges[n - 1].0 == node {
                if i == 0 {
                    assert(edges[n - 1].1 == cur[0].0);
                } else {
                    assert(cur[i] == prev[i - 1]);
                    let k = choose|k: int|
                        0 <= k < n - 1 && edges[k].1 == prev[i - 1].0 && edges[k].2 == prev[i - 1].1;
                    assert(edges[k].1 == cur[i].0);
                }
            } else {
                let k = choose|k: int|
                    0 <= k < n - 1 && edges[k].1 == prev[i].0 && edges[k].2 == prev[i].1;
                assert(edges[k].1 == cur[i].0);
            }
        }
    }
}

} // verus!
