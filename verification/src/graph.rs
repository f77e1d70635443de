//! The graph of a build: its modules, the relations between them, the order
//! in which they run, and the steps that link and shake them.

use vstd::prelude::*;
use vstd::string::*;
use crate::binder::{
    all_coherent, coherent, edge_names, edge_target, is_binding, is_bound_in_order, link_bindings,
    table_stable,
};
use crate::dep_graph::{ModuleGraph, Rel};
use crate::errors::GraphError;
use crate::execution_order::{adj_in_range, adj_view, analyse_module_execution, execution_walk};
use crate::linker::{link_exports, link_modules, Duplicate};
use crate::module::Module;
use crate::names::{assoc_get, assoc_keys, NameMap};
use crate::symbol_box::{Mark, SymbolBox};
use crate::treeshake::{include_reachable, is_shaken};
use crate::types::{ExternalModule, NormalizedInputOptions, ResolvedId};

verus! {

/// What the workers that read modules report.
pub enum Msg {
    /// A module depends on another: the ids of both and the relation.
    DependencyReference(String, String, Rel),
    /// A module was read.
    NewMod(Module),
    /// A module outside the bundle was met.
    NewExtMod(ExternalModule),
}

pub struct BundleGraph {
    pub input_options: NormalizedInputOptions,
    pub resolved_entries: Vec<ResolvedId>,
    pub module_graph: ModuleGraph,
    /// For each module id its node.
    pub node_by_id: NameMap<usize>,
    pub entry_indexs: Vec<usize>,
    /// The nodes in the order in which their modules run.
    pub ordered_modules: Vec<usize>,
    /// The cycles among the modules, each as the nodes from one back to itself.
    pub cycles: Vec<Vec<usize>>,
    pub symbol_box: SymbolBox,
    pub module_by_id: NameMap<Module>,
}

/// The node that an id gets: the one it has, else a new one behind the
/// others; none where the id has no node and the graph is full.
pub open spec fn node_of(by_id: Seq<(Seq<char>, usize)>, nodes: Seq<Seq<char>>, id: Seq<char>) -> Option<
    usize,
> {
    match assoc_get(by_id, id) {
        Some(n) => Some(n),
        None => if nodes.len() < u32::MAX {
            Some(nodes.len() as usize)
        } else {
            None
        },
    }
}

/// The ids of the nodes after `id` got its node: with `id` behind them where it got a new one.
pub open spec fn nodes_with(by_id: Seq<(Seq<char>, usize)>, nodes: Seq<Seq<char>>, id: Seq<char>) -> Seq<
    Seq<char>,
> {
    if assoc_get(by_id, id) is None && nodes.len() < u32::MAX {
        nodes.push(id)
    } else {
        nodes
    }
}

/// The table from ids to nodes after `id` got its node: with the new node entered where it got one.
pub open spec fn nodes_by_id_with(
    by_id: Seq<(Seq<char>, usize)>,
    nodes: Seq<Seq<char>>,
    id: Seq<char>,
) -> Seq<(Seq<char>, usize)> {
    if assoc_get(by_id, id) is None && nodes.len() < u32::MAX {
        by_id.push((id, nodes.len() as usize))
    } else {
        by_id
    }
}

/// The ids of the given nodes, in order; a node that the graph does not have is passed over.
pub open spec fn ids_of(nodes: Seq<Seq<char>>, order: Seq<usize>, n: int) -> Seq<Seq<char>>
    decreases n,
{
    if 0 < n <= order.len() {
        if order[n - 1] < nodes.len() {
            ids_of(nodes, order, n - 1).push(nodes[order[n - 1] as int])
        } else {
            ids_of(nodes, order, n - 1)
        }
    } else {
        Seq::empty()
    }
}

impl BundleGraph {
    /// The graph and the symbol table are well formed, and every id that has a node has that node.
    pub open spec fn wf(&self) -> bool {
        &&& self.module_graph.wf()
        &&& self.symbol_box.wf()
        &&& forall|i: int|
            0 <= i < self.node_by_id.entries@.len() ==> {
                &&& (#[trigger] self.node_by_id.entries@[i]).1 < self.module_graph.nodes().len()
                &&& self.module_graph.nodes()[self.node_by_id.entries@[i].1 as int]
                    == self.node_by_id.entries@[i].0@
            }
    }

    /// Whether `other` differs from this graph in nothing but its modules and its symbol table.
    pub open spec fn keeps(&self, other: &BundleGraph) -> bool {
        &&& other.input_options == self.input_options
        &&& other.resolved_entries == self.resolved_entries
        &&& other.module_graph == self.module_graph
        &&& other.node_by_id == self.node_by_id
        &&& other.entry_indexs == self.entry_indexs
        &&& other.ordered_modules == self.ordered_modules
        &&& other.cycles == self.cycles
    }

    /// The ids of the modules in the order in which they run.
    pub open spec fn ordered_ids(&self) -> Seq<Seq<char>> {
        ids_of(self.module_graph.nodes(), self.ordered_modules@, self.ordered_modules@.len() as int)
    }

    pub fn new(input_options: NormalizedInputOptions) -> (g: BundleGraph)
        ensures
            g.wf(),
            g.input_options == input_options,
            g.module_graph.nodes().len() == 0,
            g.module_by_id.entries@.len() == 0,
            g.entry_indexs@.len() == 0,
            g.ordered_modules@.len() == 0,
            g.symbol_box.len() == 1,
    {
        BundleGraph {
            input_options,
            resolved_entries: Vec::new(),
            module_graph: ModuleGraph::new(),
            node_by_id: NameMap::new(),
            entry_indexs: Vec::new(),
            ordered_modules: Vec::new(),
            cycles: Vec::new(),
            symbol_box: SymbolBox::new(),
            module_by_id: NameMap::new(),
        }
    }

    /// A graph for a build with one entry and nothing shaken.
    pub fn from_single_entry(entry: String) -> (g: BundleGraph)
        ensures
            g.wf(),
            g.input_options.input@ == seq![entry],
            !g.input_options.treeshake,
    {
        let mut input: Vec<String> = Vec::new();
        input.push(entry);
        BundleGraph::new(NormalizedInputOptions { treeshake: false, input })
    }

    /// The node of a module id, made where the id has none. `None` where the graph is full.
    pub fn node_for(&mut self, id: &String) -> (node: Option<usize>)
        requires
            old(self).wf(),
        ensures
            final(self).wf(),
            final(self).module_graph.edges() == old(self).module_graph.edges(),
            final(self).module_graph.rels == old(self).module_graph.rels,
            final(self).module_by_id == old(self).module_by_id,
            final(self).symbol_box == old(self).symbol_box,
            final(self).entry_indexs == old(self).entry_indexs,
            final(self).resolved_entries == old(self).resolved_entries,
            match node {
                Some(n) => n < final(self).module_graph.nodes().len() && final(self).module_graph.nodes()[n as int] == id@,
                None => final(self).module_graph.nodes() == old(self).module_graph.nodes(),
            },
            match assoc_get(old(self).node_by_id.deep_view(), id@) {
                Some(n) => node == Some(n) && final(self).module_graph.nodes() == old(self).module_graph.nodes(),
                None => node is Some ==> final(self).module_graph.nodes() == old(self).module_graph.nodes().push(id@),
            },
            node == node_of(old(self).node_by_id.deep_view(), old(self).module_graph.nodes(), id@),
            final(self).node_by_id.deep_view() == nodes_by_id_with(
                old(self).node_by_id.deep_view(),
                old(self).module_graph.nodes(),
                id@,
            ),
            final(self).module_graph.nodes() == nodes_with(
                old(self).node_by_id.deep_view(),
                old(self).module_graph.nodes(),
                id@,
            ),
    {
        match self.node_by_id.find(id) {
            Some(i) => {
                proof {
                    crate::names::lemma_position_some(
                        crate::names::assoc_keys(self.node_by_id.deep_view()),
                        id@,
                    );
                    assert(self.node_by_id.deep_view()[i as int] == (
                        self.node_by_id.entries@[i as int].0@,
                        self.node_by_id.entries@[i as int].1,
                    ));
                }
                Some(self.node_by_id.entries[i].1)
            },
            None => {
                match self.module_graph.add_node(id.clone()) {
                    Some(n) => {
                        self.node_by_id.append(id.clone(), n);
                        Some(n)
                    },
                    None => None,
                }
            },
        }
    }

    /// Adds an entry of the build: its node is made, and it is what the
    /// walk over the modules starts from. Returns whether it was added; it is
    /// not where the graph is full.
    pub fn add_entry(&mut self, entry: ResolvedId) -> (added: bool)
        requires
            old(self).wf(),
        ensures
            final(self).wf(),
            final(self).module_by_id == old(self).module_by_id,
            final(self).symbol_box == old(self).symbol_box,
            final(self).module_graph.edges() == old(self).module_graph.edges(),
            added ==> {
                &&& final(self).resolved_entries@ == old(self).resolved_entries@.push(entry)
                &&& final(self).entry_indexs@.len() == old(self).entry_indexs@.len() + 1
                &&& final(self).entry_indexs@.subrange(0, old(self).entry_indexs@.len() as int)
                    == old(self).entry_indexs@
                &&& final(self).entry_indexs@.last() < final(self).module_graph.nodes().len()
                &&& final(self).module_graph.nodes()[final(self).entry_indexs@.last() as int]
                    == entry.id@
            },
            !added ==> final(self).resolved_entries == old(self).resolved_entries && final(self).entry_indexs == old(self).entry_indexs,
            added == (node_of(
                old(self).node_by_id.deep_view(),
                old(self).module_graph.nodes(),
                entry.id@,
            ) is Some),
            added ==> Some(final(self).entry_indexs@.last()) == node_of(
                old(self).node_by_id.deep_view(),
                old(self).module_graph.nodes(),
                entry.id@,
            ),
            final(self).node_by_id.deep_view() == nodes_by_id_with(
                old(self).node_by_id.deep_view(),
                old(self).module_graph.nodes(),
                entry.id@,
            ),
            final(self).module_graph.nodes() == nodes_with(
                old(self).node_by_id.deep_view(),
                old(self).module_graph.nodes(),
                entry.id@,
            ),
    {
        match self.node_for(&entry.id) {
            Some(node) => {
                let ghost before = self.entry_indexs@;
                self.entry_indexs.push(node);
                self.resolved_entries.push(entry);
                assert(self.entry_indexs@.subrange(0, before.len() as int) =~= before);
                true
            },
            None => false,
        }
    }

    /// Takes in what a worker reported: a module that was read joins the
    /// modules, a dependency becomes an edge between the nodes of its two
    /// ids, which are made where the ids have none. Returns whether the
    /// report was taken in: a dependency is not where the graph has no room
    /// for a node or for the edge; a node made for its first id stays.
    pub fn handle_message(&mut self, msg: Msg) -> (taken: bool)
        requires
            old(self).wf(),
        ensures
            final(self).wf(),
            final(self).symbol_box == old(self).symbol_box,
            match msg {
                Msg::NewMod(module) => taken && final(self).module_by_id.deep_view()
                    == crate::names::assoc_put(
                    old(self).module_by_id.deep_view(),
                    module.id@,
                    module.deep_view(),
                ) && final(self).module_graph == old(self).module_graph,
                Msg::DependencyReference(from, to, rel) => {
                    let by0 = old(self).node_by_id.deep_view();
                    let nodes0 = old(self).module_graph.nodes();
                    let a = node_of(by0, nodes0, from@);
                    let by1 = nodes_by_id_with(by0, nodes0, from@);
                    let nodes1 = nodes_with(by0, nodes0, from@);
                    let b = node_of(by1, nodes1, to@);
                    &&& final(self).module_by_id == old(self).module_by_id
                    &&& taken == (a is Some && b is Some && old(self).module_graph.edges().len()
                        < u32::MAX)
                    &&& final(self).module_graph.nodes() == nodes_with(by1, nodes1, to@)
                    &&& final(self).node_by_id.deep_view() == nodes_by_id_with(by1, nodes1, to@)
                    &&& taken ==> {
                        &&& final(self).module_graph.edges() == old(self).module_graph.edges().push(
                            (a->0, b->0, old(self).module_graph.rels@.len() as usize),
                        )
                        &&& final(self).module_graph.rels@ == old(self).module_graph.rels@.push(rel)
                        &&& final(self).module_graph.nodes()[a->0 as int] == from@
                        &&& final(self).module_graph.nodes()[b->0 as int] == to@
                    }
                    &&& !taken ==> final(self).module_graph.edges() == old(self).module_graph.edges()
                        && final(self).module_graph.rels == old(self).module_graph.rels
                },
                Msg::NewExtMod(_) => taken && final(self).module_by_id == old(self).module_by_id
                    && final(self).module_graph == old(self).module_graph,
            },
    {
        match msg {
            Msg::NewMod(module) => {
                let id = module.id.clone();
                self.module_by_id.insert(id, module);
                true
            },
            Msg::DependencyReference(from, to, rel) => {
                let a = self.node_for(&from);
                let b = self.node_for(&to);
                match (a, b) {
                    (Some(a), Some(b)) => self.module_graph.add_edge(a, b, rel),
                    _ => false,
                }
            },
            Msg::NewExtMod(_) => true,
        }
    }

    /// Puts the modules in the order in which they run, walking from the
    /// entries, and records the cycles met on the way.
    pub fn sort_modules(&mut self)
        requires
            old(self).wf(),
        ensures
            final(self).wf(),
            final(self).ordered_modules@ == execution_walk(
                old(self).module_graph.adjacency(),
                old(self).entry_indexs@,
            ).order,
            final(self).cycles.deep_view() == execution_walk(
                old(self).module_graph.adjacency(),
                old(self).entry_indexs@,
            ).cycles,
            final(self).module_graph == old(self).module_graph,
            final(self).module_by_id == old(self).module_by_id,
            final(self).symbol_box == old(self).symbol_box,
            final(self).entry_indexs == old(self).entry_indexs,
            final(self).node_by_id == old(self).node_by_id,
            final(self).input_options == old(self).input_options,
    {
        let adj = self.module_graph.adjacency_lists();
        proof {
            assert(adj_view(&adj) =~= self.module_graph.adjacency()) by {
                assert forall|a: int| 0 <= a < adj@.len() implies adj_view(&adj)[a]
                    == self.module_graph.adjacency()[a] by {
                    assert(adj.deep_view()[a] == adj@[a].deep_view());
                    assert(adj@[a].deep_view() =~= adj@[a]@);
                }
            }
            assert(adj_in_range(adj_view(&adj)));
        }
        let (cycles, order) = analyse_module_execution(&adj, &self.entry_indexs);
        proof {
            assert(cycles.deep_view() =~= Seq::new(cycles@.len(), |i: int| cycles@[i]@)) by {
                assert forall|i: int| 0 <= i < cycles@.len() implies cycles.deep_view()[i]
                    == cycles@[i]@ by {
                    assert(cycles@[i].deep_view() =~= cycles@[i]@);
                }
            }
        }
        self.ordered_modules = order;
        self.cycles = cycles;
    }

    /// The ids of the modules in the order in which they run.
    pub fn ordered_module_ids(&self) -> (ids: Vec<String>)
        requires
            self.wf(),
        ensures
            ids.deep_view() == self.ordered_ids(),
    {
        let ghost nodes = self.module_graph.nodes();
        let mut ids: Vec<String> = Vec::new();
        assert(ids.deep_view() =~= ids_of(nodes, self.ordered_modules@, 0));
        let mut k: usize = 0;
        while k < self.ordered_modules.len()
            invariant
                k <= self.ordered_modules@.len(),
                self.wf(),
                nodes == self.module_graph.nodes(),
                ids.deep_view() == ids_of(nodes, self.ordered_modules@, k as int),
            decreases self.ordered_modules@.len() - k,
        {
            let ghost before = ids.deep_view();
            match self.module_graph.node_id(self.ordered_modules[k]) {
                Some(id) => {
                    ids.push(id);
                    assert(ids.deep_view() =~= before.push(id@));
                },
                None => {},
            }
            k += 1;
        }
        ids
    }

    /// Every module takes over the exports of the modules that it re-exports
    /// whole, in the order in which the modules run.
    pub fn link_module_exports(&mut self) -> (r: Result<(), GraphError>)
        requires
            old(self).wf(),
        ensures
            final(self).wf(),
            old(self).keeps(final(self)),
            final(self).module_graph == old(self).module_graph,
            final(self).symbol_box == old(self).symbol_box,
            final(self).ordered_modules == old(self).ordered_modules,
            final(self).entry_indexs == old(self).entry_indexs,
            final(self).node_by_id == old(self).node_by_id,
            ({
                let linked = link_modules(
                    old(self).module_by_id.deep_view(),
                    old(self).ordered_ids(),
                    old(self).ordered_ids().len() as int,
                );
                &&& final(self).module_by_id.deep_view() == linked.table
                &&& match r {
                    Ok(_) => linked.error is None,
                    Err(GraphError::DuplicateExport { name, source, other, module }) => linked.error
                        == Some(
                        Duplicate { name: name@, source: source@, other: other@, module: module@ },
                    ),
                    Err(_) => false,
                }
            }),
    {
        let ids = self.ordered_module_ids();
        link_exports(&mut self.module_by_id, &ids)
    }

    /// Every imported and re-exported name is united with the export it stands for.
    pub fn link_module(&mut self)
        requires
            old(self).wf(),
        ensures
            final(self).wf(),
            old(self).keeps(final(self)),
            final(self).module_graph == old(self).module_graph,
            final(self).ordered_modules == old(self).ordered_modules,
            final(self).entry_indexs == old(self).entry_indexs,
            final(self).node_by_id == old(self).node_by_id,
            final(self).symbol_box.len() == old(self).symbol_box.len(),
            table_stable(old(self).module_by_id.deep_view(), final(self).module_by_id.deep_view()),
            is_bound_in_order(
                &final(self).module_graph,
                final(self).ordered_modules@,
                old(self).module_by_id.deep_view(),
                final(self).module_by_id.deep_view(),
            ),
            all_coherent(
                &final(self).module_graph,
                final(self).ordered_modules@,
                final(self).module_by_id.deep_view(),
                &final(self).symbol_box,
                final(self).ordered_modules@.len() as int,
                0,
                0,
            ),
            exists|pairs: Seq<(Mark, Mark)>| #[trigger]
                is_binding(
                    &final(self).module_graph,
                    final(self).ordered_modules@,
                    final(self).module_by_id.deep_view(),
                    old(self).symbol_box,
                    final(self).symbol_box,
                    pairs,
                ),
    {
        link_bindings(
            &mut self.module_by_id,
            &self.module_graph,
            &self.ordered_modules,
            &mut self.symbol_box,
        );
    }

    /// Decides which statements go into the bundle.
    pub fn include_statements(&mut self)
        requires
            old(self).wf(),
        ensures
            final(self).wf(),
            old(self).keeps(final(self)),
            final(self).module_graph == old(self).module_graph,
            final(self).symbol_box == old(self).symbol_box,
            final(self).ordered_modules == old(self).ordered_modules,
            is_shaken(
                old(self).module_by_id.entries@,
                final(self).module_by_id.entries@,
                &old(self).symbol_box,
                old(self).input_options.treeshake,
            ),
    {
        include_reachable(&mut self.module_by_id, &self.symbol_box, self.input_options.treeshake);
    }

    /// Marks the modules that the entries of the build name.
    pub fn mark_entries(&mut self)
        requires
            old(self).wf(),
        ensures
            final(self).wf(),
            old(self).keeps(final(self)),
            final(self).module_graph == old(self).module_graph,
            final(self).symbol_box == old(self).symbol_box,
            final(self).module_by_id.entries@.len() == old(self).module_by_id.entries@.len(),
            final(self).module_by_id.deep_view() == marked_table(
                old(self).module_by_id.deep_view(),
                old(self).resolved_entries@,
            ),
            forall|m: int|
                0 <= m < old(self).module_by_id.entries@.len() ==> (
                #[trigger] final(self).module_by_id.entries@[m]) == (
                    old(self).module_by_id.entries@[m].0,
                    Module {
                        is_user_defined_entry_point: is_entry_id(
                            old(self).resolved_entries@,
                            old(self).module_by_id.entries@[m].1.id@,
                        ),
                        ..old(self).module_by_id.entries@[m].1
                    },
                ),
    {
        let mut m: usize = 0;
        while m < self.module_by_id.entries.len()
            invariant
                m <= self.module_by_id.entries@.len(),
                self.wf(),
                old(self).keeps(self),
                self.module_graph == old(self).module_graph,
                self.symbol_box == old(self).symbol_box,
                self.resolved_entries == old(self).resolved_entries,
                self.module_by_id.entries@.len() == old(self).module_by_id.entries@.len(),
                forall|k: int|
                    0 <= k < m ==> (#[trigger] self.module_by_id.entries@[k]) == (
                        old(self).module_by_id.entries@[k].0,
                        Module {
                            is_user_defined_entry_point: is_entry_id(
                                old(self).resolved_entries@,
                                old(self).module_by_id.entries@[k].1.id@,
                            ),
                            ..old(self).module_by_id.entries@[k].1
                        },
                    ),
                forall|k: int|
                    m <= k < self.module_by_id.entries@.len() ==> self.module_by_id.entries@[k]
                        == old(self).module_by_id.entries@[k],
            decreases self.module_by_id.entries@.len() - m,
        {
            let mut found = false;
            let mut e: usize = 0;
            while e < self.resolved_entries.len()
                invariant
                    e <= self.resolved_entries@.len(),
                    m < self.module_by_id.entries@.len(),
                    found == exists|j: int|
                        0 <= j < e && (#[trigger] self.resolved_entries@[j]).id@
                            == self.module_by_id.entries@[m as int].1.id@,
                decreases self.resolved_entries@.len() - e,
            {
                if self.resolved_entries[e].id == self.module_by_id.entries[m].1.id {
                    found = true;
                }
                e += 1;
            }
            self.module_by_id.entries[m].1.is_user_defined_entry_point = found;
            m += 1;
        }
        proof {
            let before = old(self).module_by_id.deep_view();
            let after = self.module_by_id.deep_view();
            assert(after =~= marked_table(before, old(self).resolved_entries@)) by {
                assert forall|k: int| 0 <= k < after.len() implies after[k] == marked_table(
                    before,
                    old(self).resolved_entries@,
                )[k] by {
                    assert(after[k] == (
                        self.module_by_id.entries@[k].0@,
                        self.module_by_id.entries@[k].1.deep_view(),
                    ));
                    assert(before[k] == (
                        old(self).module_by_id.entries@[k].0@,
                        old(self).module_by_id.entries@[k].1.deep_view(),
                    ));
                }
            }
        }
    }
}

/// The table of modules with each module marked that an entry of the build names.
pub open spec fn marked_table(
    table: Seq<(Seq<char>, crate::module::ModuleView)>,
    entries: Seq<ResolvedId>,
) -> Seq<(Seq<char>, crate::module::ModuleView)> {
    Seq::new(
        table.len(),
        |m: int|
            (
                table[m].0,
                crate::module::ModuleView {
                    is_user_defined_entry_point: is_entry_id(entries, table[m].1.id),
                    ..table[m].1
                },
            ),
    )
}

/// Whether `id` is the id of an entry of the build.
pub open spec fn is_entry_id(entries: Seq<ResolvedId>, id: Seq<char>) -> bool {
    exists|j: int| 0 <= j < entries.len() && (#[trigger] entries[j]).id@ == id
}

/// Whether `mid` is the table of modules between binding and shaking: it
/// comes from `linked`, the table with the exports taken over, by binding
/// the specifiers of every edge one after the other, which noted the names
/// given, made the namespaces asked for, and united the marks of `before`
/// into those of the graph; and the modules of the graph are `mid` shaken.
pub open spec fn is_linked_and_shaken(
    g: BundleGraph,
    mid: NameMap<Module>,
    linked: Seq<(Seq<char>, crate::module::ModuleView)>,
    before: SymbolBox,
) -> bool {
    &&& table_stable(linked, mid.deep_view())
    &&& is_bound_in_order(&g.module_graph, g.ordered_modules@, linked, mid.deep_view())
    &&& exists|pairs: Seq<(Mark, Mark)>| #[trigger]
        is_binding(
            &g.module_graph,
            g.ordered_modules@,
            mid.deep_view(),
            before,
            g.symbol_box,
            pairs,
        )
    &&& all_coherent(
        &g.module_graph,
        g.ordered_modules@,
        mid.deep_view(),
        &g.symbol_box,
        g.ordered_modules@.len() as int,
        0,
        0,
    )
    &&& is_shaken(mid.entries@, g.module_by_id.entries@, &g.symbol_box, g.input_options.treeshake)
}

/// Export coherence: in a graph that was built, every specifier of every
/// edge that leaves a module of the order shares its root with the export it
/// asks for in the module that the edge leads to, where the graph holds that
/// module, the module has the export, and both marks were handed out by the
/// symbol table.
pub proof fn lemma_build_export_coherence(
    g: BundleGraph,
    mid: NameMap<Module>,
    linked: Seq<(Seq<char>, crate::module::ModuleView)>,
    before: SymbolBox,
    k: int,
    j: int,
    i: int,
)
    requires
        is_linked_and_shaken(g, mid, linked, before),
        0 <= k < g.ordered_modules@.len(),
        g.ordered_modules@[k] < g.module_graph.nodes().len(),
        0 <= j < g.module_graph.sorted_out_edges(g.ordered_modules@[k]).len(),
        0 <= i < edge_names(&g.module_graph, g.ordered_modules@[k], j).len(),
    ensures
        ({
            let s = edge_names(&g.module_graph, g.ordered_modules@[k], j)[i];
            let target = edge_target(&g.module_graph, g.ordered_modules@[k], j);
            match assoc_get(g.module_by_id.deep_view(), target) {
                Some(dep) => match assoc_get(dep.exports, s.original) {
                    Some(m) => (s.mark as int) < g.symbol_box.len() && (m as int)
                        < g.symbol_box.len() ==> g.symbol_box.root(s.mark) == g.symbol_box.root(m),
                    None => true,
                },
                None => true,
            }
        }),
{
    let s = edge_names(&g.module_graph, g.ordered_modules@[k], j)[i];
    let target = edge_target(&g.module_graph, g.ordered_modules@[k], j);
    let shaken = g.module_by_id.deep_view();
    let bound = mid.deep_view();
    assert(coherent(bound, &g.symbol_box, target, s));
    assert(shaken.len() == bound.len());
    assert forall|m: int| 0 <= m < bound.len() implies (#[trigger] shaken[m]).0 == bound[m].0
        && shaken[m].1.exports == bound[m].1.exports by {
        assert(g.module_by_id.entries@[m].0 == mid.entries@[m].0);
        assert(g.module_by_id.entries@[m].1 == (Module {
            statements: g.module_by_id.entries@[m].1.statements,
            ..mid.entries@[m].1
        }));
    }
    assert(assoc_keys(shaken) =~= assoc_keys(bound));
    crate::names::lemma_position_some(assoc_keys(bound), target);
}

impl BundleGraph {
    /// Links the modules that were read: the entries are marked, the
    /// modules put in the order in which they run, exports taken over,
    /// imports bound, and the statements that go into the bundle chosen.
    /// Fails where a module would export a name twice.
    pub fn build(&mut self) -> (r: Result<(), GraphError>)
        requires
            old(self).wf(),
        ensures
            final(self).wf(),
            final(self).module_graph == old(self).module_graph,
            final(self).ordered_modules@ == execution_walk(
                old(self).module_graph.adjacency(),
                old(self).entry_indexs@,
            ).order,
            final(self).cycles.deep_view() == execution_walk(
                old(self).module_graph.adjacency(),
                old(self).entry_indexs@,
            ).cycles,
            ({
                let order = execution_walk(
                    old(self).module_graph.adjacency(),
                    old(self).entry_indexs@,
                ).order;
                let ids = ids_of(old(self).module_graph.nodes(), order, order.len() as int);
                let linked = link_modules(
                    marked_table(old(self).module_by_id.deep_view(), old(self).resolved_entries@),
                    ids,
                    ids.len() as int,
                );
                match r {
                    Ok(_) => linked.error is None && exists|mid: NameMap<Module>| #[trigger]
                        is_linked_and_shaken(
                            *final(self),
                            mid,
                            linked.table,
                            old(self).symbol_box,
                        ),
                    Err(GraphError::DuplicateExport { name, source, other, module }) => {
                        &&& linked.error == Some(
                            Duplicate {
                                name: name@,
                                source: source@,
                                other: other@,
                                module: module@,
                            },
                        )
                        &&& final(self).module_by_id.deep_view() == linked.table
                        &&& final(self).symbol_box == old(self).symbol_box
                    },
                    Err(_) => false,
                }
            }),
    {
        self.mark_entries();
        self.sort_modules();
        match self.link_module_exports() {
            Ok(_) => {},
            Err(e) => {
                return Err(e);
            },
        }
        let ghost linked = self.module_by_id.deep_view();
        self.link_module();
        let ghost mid = self.module_by_id;
        self.include_statements();
        proof {
            assert(is_linked_and_shaken(*self, mid, linked, old(self).symbol_box));
        }
        Ok(())
    }

    /// The cycles among the modules, each as the ids of its modules as they are shown.
    pub fn cycle_paths(&self, cwd: &str) -> (paths: Vec<Vec<String>>)
        requires
            self.wf(),
        ensures
            paths@.len() == self.cycles@.len(),
            forall|i: int|
                0 <= i < paths@.len() ==> is_shown_path(
                    (#[trigger] paths@[i])@,
                    self.cycles@[i]@,
                    self.module_graph.nodes(),
                    cwd@,
                ),
    {
        let mut paths: Vec<Vec<String>> = Vec::new();
        let mut i: usize = 0;
        while i < self.cycles.len()
            invariant
                i <= self.cycles@.len(),
                self.wf(),
                paths@.len() == i,
                forall|a: int|
                    0 <= a < i ==> is_shown_path(
                        (#[trigger] paths@[a])@,
                        self.cycles@[a]@,
                        self.module_graph.nodes(),
                        cwd@,
                    ),
            decreases self.cycles@.len() - i,
        {
            let cycle = &self.cycles[i];
            let mut path: Vec<String> = Vec::new();
            let mut j: usize = 0;
            while j < cycle.len()
                invariant
                    j <= cycle@.len(),
                    self.wf(),
                    path@.len() == j,
                    forall|b: int|
                        0 <= b < j ==> (#[trigger] path@[b])@ == shown_node(
                            cycle@[b],
                            self.module_graph.nodes(),
                            cwd@,
                        ),
                decreases cycle@.len() - j,
            {
                let shown = match self.module_graph.node_id(cycle[j]) {
                    Some(id) => crate::resolve_id::relative_id(id, cwd),
                    None => String::new(),
                };
                path.push(shown);
                j += 1;
            }
            paths.push(path);
            i += 1;
        }
        paths
    }
}

/// The id of a node as it is shown; nothing for a node that the graph does not have.
pub open spec fn shown_node(node: usize, nodes: Seq<Seq<char>>, cwd: Seq<char>) -> Seq<char> {
    if node < nodes.len() {
        crate::resolve_id::shown_id(nodes[node as int], cwd)
    } else {
        Seq::empty()
    }
}

/// Whether `path` shows the nodes of `cycle`, one by one.
pub open spec fn is_shown_path(
    path: Seq<String>,
    cycle: Seq<usize>,
    nodes: Seq<Seq<char>>,
    cwd: Seq<char>,
) -> bool {
    &&& path.len() == cycle.len()
    &&& forall|j: int| 0 <= j < cycle.len() ==> (#[trigger] path[j])@ == shown_node(cycle[j], nodes, cwd)
}

/// A module of the bundle or one outside it.
pub enum ModOrExt {
    Mod(Module),
    Ext(ExternalModule),
}

impl ModOrExt {
    pub fn is_mod(&self) -> (r: bool)
        ensures
            r == (self is Mod),
    {
        match self {
            ModOrExt::Mod(_) => true,
            ModOrExt::Ext(_) => false,
        }
    }

    pub fn is_ext(&self) -> (r: bool)
        ensures
            r == (self is Ext),
    {
        !self.is_mod()
    }

    pub fn into_mod(self) -> (r: Option<Module>)
        ensures
            r == (match self {
                ModOrExt::Mod(m) => Some(m),
                ModOrExt::Ext(_) => None,
            }),
    {
        match self {
            ModOrExt::Mod(m) => Some(m),
            ModOrExt::Ext(_) => None,
        }
    }

    pub fn into_ext(self) -> (r: Option<ExternalModule>)
        ensures
            r == (match self {
                ModOrExt::Mod(_) => None,
                ModOrExt::Ext(e) => Some(e),
            }),
    {
        match self {
            ModOrExt::Mod(_) => None,
            ModOrExt::Ext(e) => Some(e),
        }
    }
}

} // verus!
