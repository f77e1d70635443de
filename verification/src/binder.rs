//! Binding: every name that a module imports or re-exports is united with
//! the export it stands for in the module it comes from.

use vstd::prelude::*;
use vstd::string::*;
use crate::dep_graph::{ModuleGraph, Rel};
use crate::module::{Module, ModuleView};
use crate::names::{assoc_get, assoc_index, assoc_keys, assoc_put, lemma_assoc_put, NameMap};
use crate::namespace::{is_namespace_statement, with_namespace};
use crate::scanner::rel::{Specifier, SpecifierView};
use crate::symbol_box::{Mark, SymbolBox};

verus! {

/// The specifiers that a relation carries; `export *` carries none.
pub open spec fn rel_names(rel: Rel) -> Seq<SpecifierView> {
    match rel {
        Rel::Import(info) => info.names.deep_view(),
        Rel::ReExport(info) => info.names.deep_view(),
        Rel::ReExportAll(_) => Seq::empty(),
    }
}

/// A namespace that was made is exported as `*` under its own mark.
pub open spec fn namespace_kept(v: ModuleView) -> bool {
    v.namespace.included ==> assoc_get(v.exports, "*"@) == Some(v.namespace.mark)
}

/// What binding leaves alone in a module: its id, the mark of its
/// namespace, a namespace once made and its export as `*`, and what every
/// exported name stands for, but for `*` before the namespace is made.
pub open spec fn stable(before: ModuleView, after: ModuleView) -> bool {
    &&& after.id == before.id
    &&& after.namespace.mark == before.namespace.mark
    &&& before.namespace.included ==> after.namespace.included
    &&& namespace_kept(before) ==> namespace_kept(after)
    &&& forall|n: Seq<char>|
        (n != "*"@ || before.namespace.included) ==> #[trigger] assoc_get(after.exports, n)
            == assoc_get(before.exports, n)
}

/// What binding leaves alone in the table of modules.
pub open spec fn table_stable(
    before: Seq<(Seq<char>, ModuleView)>,
    after: Seq<(Seq<char>, ModuleView)>,
) -> bool {
    &&& after.len() == before.len()
    &&& forall|i: int|
        0 <= i < before.len() ==> (#[trigger] after[i]).0 == before[i].0 && stable(
            before[i].1,
            after[i].1,
        )
}

/// The specifier is bound: in the module that `target` names, the export
/// that the specifier asks for shares its root with the specifier's mark.
/// A namespace that is asked for has been made.
pub open spec fn coherent(
    table: Seq<(Seq<char>, ModuleView)>,
    symbol_box: &SymbolBox,
    target: Seq<char>,
    s: SpecifierView,
) -> bool {
    match assoc_get(table, target) {
        Some(dep) => {
            &&& s.original == "*"@ ==> dep.namespace.included
            &&& match assoc_get(dep.exports, s.original) {
                Some(m) => (s.mark as int) < symbol_box.len() && (m as int) < symbol_box.len()
                    ==> symbol_box.same(s.mark, m),
                None => true,
            }
        },
        None => true,
    }
}

/// The pair of marks is one that binding unites: the mark of `s` and the
/// mark of the export that `s` asks for in the module that `target` names.
pub open spec fn binds(
    table: Seq<(Seq<char>, ModuleView)>,
    target: Seq<char>,
    s: SpecifierView,
    pair: (Mark, Mark),
) -> bool {
    &&& pair.0 == s.mark
    &&& assoc_get(table, target) matches Some(dep) && {
        &&& s.original == "*"@ ==> dep.namespace.included
        &&& assoc_get(dep.exports, s.original) == Some(pair.1)
    }
}

/// A bound specifier stays bound while modules stay stable and marks stay united.
pub proof fn lemma_coherent_stays(
    before: Seq<(Seq<char>, ModuleView)>,
    after: Seq<(Seq<char>, ModuleView)>,
    sb0: &SymbolBox,
    sb1: &SymbolBox,
    target: Seq<char>,
    s: SpecifierView,
)
    requires
        table_stable(before, after),
        sb1.len() == sb0.len(),
        forall|x: Mark, y: Mark| sb0.same(x, y) ==> #[trigger] sb1.same(x, y),
        coherent(before, sb0, target, s),
    ensures
        coherent(after, sb1, target, s),
{
    assert(assoc_keys(after) =~= assoc_keys(before));
    match assoc_index(before, target) {
        Some(i) => {
            crate::names::lemma_position_some(assoc_keys(before), target);
            assert(stable(before[i].1, after[i].1));
            assert(assoc_get(after[i].1.exports, s.original) == assoc_get(
                before[i].1.exports,
                s.original,
            ));
        },
        None => {},
    }
}

/// A pair that binding unites stays one while modules stay stable.
pub proof fn lemma_binds_stays(
    before: Seq<(Seq<char>, ModuleView)>,
    after: Seq<(Seq<char>, ModuleView)>,
    target: Seq<char>,
    s: SpecifierView,
    pair: (Mark, Mark),
)
    requires
        table_stable(before, after),
        binds(before, target, s, pair),
    ensures
        binds(after, target, s, pair),
{
    assert(assoc_keys(after) =~= assoc_keys(before));
    match assoc_index(before, target) {
        Some(i) => {
            crate::names::lemma_position_some(assoc_keys(before), target);
            assert(stable(before[i].1, after[i].1));
            assert(assoc_get(after[i].1.exports, s.original) == assoc_get(
                before[i].1.exports,
                s.original,
            ));
        },
        None => {},
    }
}

/// Stability carries over two steps.
pub proof fn lemma_table_stable_trans(
    a: Seq<(Seq<char>, ModuleView)>,
    b: Seq<(Seq<char>, ModuleView)>,
    c: Seq<(Seq<char>, ModuleView)>,
)
    requires
        table_stable(a, b),
        table_stable(b, c),
    ensures
        table_stable(a, c),
{
    assert forall|i: int| 0 <= i < a.len() implies (#[trigger] c[i]).0 == a[i].0 && stable(
        a[i].1,
        c[i].1,
    ) by {
        assert(stable(a[i].1, b[i].1));
        assert(stable(b[i].1, c[i].1));
        assert forall|n: Seq<char>| (n != "*"@ || a[i].1.namespace.included) implies #[trigger] assoc_get(
            c[i].1.exports,
            n,
        ) == assoc_get(a[i].1.exports, n) by {
            assert(assoc_get(b[i].1.exports, n) == assoc_get(a[i].1.exports, n));
            assert(assoc_get(c[i].1.exports, n) == assoc_get(b[i].1.exports, n));
        }
    }
}

/// The module with the name noted that an importer gave to its default
/// export or to its namespace; `default` itself is no name.
pub open spec fn with_suggestion(v: ModuleView, s: SpecifierView) -> ModuleView {
    if (s.original == "default"@ || s.original == "*"@) && s.used != "default"@ {
        ModuleView { suggested_names: assoc_put(v.suggested_names, s.original, s.used), ..v }
    } else {
        v
    }
}

/// What binding one specifier does to the module it asks: the name is
/// noted, and where the namespace is asked for and not yet made, the
/// statement that makes it is put behind the others and `*` is exported
/// under the namespace's mark. Nothing else changes.
pub open spec fn bound_module(before: ModuleView, after: ModuleView, s: SpecifierView) -> bool {
    let named = with_suggestion(before, s);
    if s.original == "*"@ && !named.namespace.included {
        &&& after.statements.len() == before.statements.len() + 1
        &&& is_namespace_statement(after.statements.last(), named)
        &&& after == with_namespace(named, after.statements.last())
    } else {
        after == named
    }
}

/// What binding one specifier does to the table: the module that `target`
/// names is bound, and no other changes; a target that the table does not
/// hold changes nothing.
pub open spec fn bound_table(
    before: Seq<(Seq<char>, ModuleView)>,
    after: Seq<(Seq<char>, ModuleView)>,
    target: Seq<char>,
    s: SpecifierView,
) -> bool {
    match assoc_index(before, target) {
        Some(d) => {
            &&& after.len() == before.len()
            &&& bound_module(before[d].1, after[d].1, s)
            &&& after == before.update(d, (before[d].0, after[d].1))
        },
        None => after == before,
    }
}

/// The specifiers of the `j`-th edge that leaves `node`, each with the id of
/// the module that the edge leads to.
pub open spec fn edge_specs(graph: &ModuleGraph, node: usize, j: int) -> Seq<
    (Seq<char>, SpecifierView),
> {
    Seq::new(
        edge_names(graph, node, j).len(),
        |i: int| (edge_target(graph, node, j), edge_names(graph, node, j)[i]),
    )
}

/// The specifiers of the first `j` edges that leave `node`, by source order.
pub open spec fn node_specs(graph: &ModuleGraph, node: usize, j: int) -> Seq<
    (Seq<char>, SpecifierView),
>
    decreases j,
{
    if j <= 0 {
        Seq::empty()
    } else {
        node_specs(graph, node, j - 1) + edge_specs(graph, node, j - 1)
    }
}

/// The specifiers of the edges that leave the first `k` modules of `order`,
/// in the order in which binding takes them.
pub open spec fn order_specs(graph: &ModuleGraph, order: Seq<usize>, k: int) -> Seq<
    (Seq<char>, SpecifierView),
>
    decreases k,
{
    if k <= 0 || k > order.len() {
        Seq::empty()
    } else if order[k - 1] < graph.nodes().len() {
        order_specs(graph, order, k - 1) + node_specs(
            graph,
            order[k - 1],
            graph.sorted_out_edges(order[k - 1]).len() as int,
        )
    } else {
        order_specs(graph, order, k - 1)
    }
}

/// Whether `trace` holds the tables that binding `specs` in order goes
/// through, from `before` to `after`: each comes from the one before it by
/// binding the next specifier.
pub open spec fn is_bound_trace(
    specs: Seq<(Seq<char>, SpecifierView)>,
    before: Seq<(Seq<char>, ModuleView)>,
    after: Seq<(Seq<char>, ModuleView)>,
    trace: Seq<Seq<(Seq<char>, ModuleView)>>,
) -> bool {
    &&& trace.len() == specs.len() + 1
    &&& trace[0] == before
    &&& trace[specs.len() as int] == after
    &&& forall|n: int|
        0 <= n < specs.len() ==> bound_table(
            trace[n],
            trace[n + 1],
            (#[trigger] specs[n]).0,
            specs[n].1,
        )
}

/// Whether `after` is the table `before` with every specifier of every edge
/// that leaves a module of `order` bound, one after the other.
pub open spec fn is_bound_in_order(
    graph: &ModuleGraph,
    order: Seq<usize>,
    before: Seq<(Seq<char>, ModuleView)>,
    after: Seq<(Seq<char>, ModuleView)>,
) -> bool {
    exists|trace: Seq<Seq<(Seq<char>, ModuleView)>>| #[trigger]
        is_bound_trace(order_specs(graph, order, order.len() as int), before, after, trace)
}

/// One more specifier bound: the trace grows by the table that binding it gives.
proof fn lemma_trace_push(
    specs: Seq<(Seq<char>, SpecifierView)>,
    before: Seq<(Seq<char>, ModuleView)>,
    trace: Seq<Seq<(Seq<char>, ModuleView)>>,
    target: Seq<char>,
    s: SpecifierView,
    after: Seq<(Seq<char>, ModuleView)>,
)
    requires
        trace.len() > 0,
        is_bound_trace(specs, before, trace.last(), trace),
        bound_table(trace.last(), after, target, s),
    ensures
        is_bound_trace(specs.push((target, s)), before, after, trace.push(after)),
{
    let specs1 = specs.push((target, s));
    let trace1 = trace.push(after);
    assert forall|n: int| 0 <= n < specs1.len() implies bound_table(
        trace1[n],
        trace1[n + 1],
        (#[trigger] specs1[n]).0,
        specs1[n].1,
    ) by {
        if n < specs.len() {
            assert(bound_table(trace[n], trace[n + 1], specs[n].0, specs[n].1));
        }
    }
}

/// Specifiers that ask a module that the table does not hold leave the table as it is.
proof fn lemma_trace_skip(
    specs: Seq<(Seq<char>, SpecifierView)>,
    before: Seq<(Seq<char>, ModuleView)>,
    trace: Seq<Seq<(Seq<char>, ModuleView)>>,
    more: Seq<(Seq<char>, SpecifierView)>,
)
    requires
        trace.len() > 0,
        is_bound_trace(specs, before, trace.last(), trace),
        forall|i: int| 0 <= i < more.len() ==> assoc_index(trace.last(), (#[trigger] more[i]).0) is None,
    ensures
        is_bound_trace(
            specs + more,
            before,
            trace.last(),
            trace + Seq::new(more.len(), |i: int| trace.last()),
        ),
{
    let specs1 = specs + more;
    let trace1 = trace + Seq::new(more.len(), |i: int| trace.last());
    assert forall|n: int| 0 <= n < specs1.len() implies bound_table(
        trace1[n],
        trace1[n + 1],
        (#[trigger] specs1[n]).0,
        specs1[n].1,
    ) by {
        if n < specs.len() {
            assert(bound_table(trace[n], trace[n + 1], specs[n].0, specs[n].1));
            assert(trace1[n] == trace[n]);
            if n + 1 < trace.len() {
                assert(trace1[n + 1] == trace[n + 1]);
            }
        } else {
            assert(specs1[n] == more[n - specs.len()]);
            assert(trace1[n] == trace.last());
            assert(trace1[n + 1] == trace.last());
        }
    }
}

/// Whether the specifier gives a name to what `name` stands for: to the
/// default export or to the namespace, and another name than `default`.
pub open spec fn suggests(s: SpecifierView, name: Seq<char>) -> bool {
    s.original == name && (name == "default"@ || name == "*"@) && s.used != "default"@
}

/// The name noted for `name` in the module that `target` names once the
/// first `n` of `specs` are bound: the one that the last of them gave that
/// asked that module and gave one, else `first`.
pub open spec fn noted_name(
    specs: Seq<(Seq<char>, SpecifierView)>,
    target: Seq<char>,
    name: Seq<char>,
    first: Option<Seq<char>>,
    n: int,
) -> Option<Seq<char>>
    decreases n,
{
    if n <= 0 || n > specs.len() {
        first
    } else if specs[n - 1].0 == target && suggests(specs[n - 1].1, name) {
        Some(specs[n - 1].1.used)
    } else {
        noted_name(specs, target, name, first, n - 1)
    }
}

proof fn lemma_noted_prefix(
    specs: Seq<(Seq<char>, SpecifierView)>,
    before: Seq<(Seq<char>, ModuleView)>,
    after: Seq<(Seq<char>, ModuleView)>,
    trace: Seq<Seq<(Seq<char>, ModuleView)>>,
    d: int,
    name: Seq<char>,
    n: int,
)
    requires
        is_bound_trace(specs, before, after, trace),
        0 <= d < before.len(),
        assoc_index(before, before[d].0) == Some(d),
        0 <= n <= specs.len(),
    ensures
        trace[n].len() == before.len(),
        assoc_keys(trace[n]) == assoc_keys(before),
        assoc_get(trace[n][d].1.suggested_names, name) == noted_name(
            specs,
            before[d].0,
            name,
            assoc_get(before[d].1.suggested_names, name),
            n,
        ),
    decreases n,
{
    if n > 0 {
        lemma_noted_prefix(specs, before, after, trace, d, name, n - 1);
        let m = n - 1;
        let t = specs[m].0;
        let sp = specs[m].1;
        assert(bound_table(trace[m], trace[m + 1], specs[m].0, specs[m].1));
        let cur = trace[m];
        let next = trace[n];
        crate::names::lemma_position_some(assoc_keys(cur), t);
        assert(assoc_keys(cur)[d] == before[d].0);
        match assoc_index(cur, t) {
            Some(e) => {
                assert(assoc_keys(next) =~= assoc_keys(cur));
                if e == d {
                    let v = cur[d].1;
                    let w = next[d].1;
                    assert(w.suggested_names == with_suggestion(v, sp).suggested_names);
                    if (sp.original == "default"@ || sp.original == "*"@) && sp.used != "default"@ {
                        lemma_assoc_put(v.suggested_names, sp.original, sp.used);
                    }
                } else {
                    assert(assoc_keys(cur)[e] == t);
                }
            },
            None => {},
        }
    }
}

/// The names that binding notes: afterwards a module holds for `default`
/// and for `*` the name given by the last specifier that asked it and gave
/// one, and where none did, the name it held before. A specifier that uses
/// the name `default` gives none.
pub proof fn lemma_noted_names(
    graph: &ModuleGraph,
    order: Seq<usize>,
    before: Seq<(Seq<char>, ModuleView)>,
    after: Seq<(Seq<char>, ModuleView)>,
    d: int,
    name: Seq<char>,
)
    requires
        is_bound_in_order(graph, order, before, after),
        0 <= d < before.len(),
        assoc_index(before, before[d].0) == Some(d),
    ensures
        after.len() == before.len(),
        after[d].0 == before[d].0,
        assoc_get(after[d].1.suggested_names, name) == noted_name(
            order_specs(graph, order, order.len() as int),
            before[d].0,
            name,
            assoc_get(before[d].1.suggested_names, name),
            order_specs(graph, order, order.len() as int).len() as int,
        ),
{
    let specs = order_specs(graph, order, order.len() as int);
    let trace = choose|trace: Seq<Seq<(Seq<char>, ModuleView)>>| #[trigger]
        is_bound_trace(specs, before, after, trace);
    lemma_noted_prefix(specs, before, after, trace, d, name, specs.len() as int);
    assert(assoc_keys(after)[d] == assoc_keys(before)[d]);
}

/// The namespace that was asked for: where every specifier is bound, a
/// module that some specifier asks for `*` has its namespace made, and
/// exports it as `*` under the namespace's mark, unless it came with a
/// namespace not so exported.
pub proof fn lemma_namespace_made(
    before: Seq<(Seq<char>, ModuleView)>,
    after: Seq<(Seq<char>, ModuleView)>,
    symbol_box: &SymbolBox,
    target: Seq<char>,
    s: SpecifierView,
    d: int,
)
    requires
        table_stable(before, after),
        coherent(after, symbol_box, target, s),
        s.original == "*"@,
        assoc_index(after, target) == Some(d),
    ensures
        0 <= d < after.len(),
        after[d].1.namespace.included,
        after[d].1.namespace.mark == before[d].1.namespace.mark,
        namespace_kept(before[d].1) ==> assoc_get(after[d].1.exports, "*"@) == Some(
            after[d].1.namespace.mark,
        ),
{
    crate::names::lemma_position_some(assoc_keys(after), target);
    assert(stable(before[d].1, after[d].1));
}

impl Module {
    /// Binds one specifier of an importer to this module: a name given to
    /// `default` or `*` is noted, a namespace that is asked for is made, and
    /// the export that is asked for is united with the specifier's mark.
    /// Returns the mark of that export, where the module has it.
    pub fn bind_specifier(&mut self, symbol_box: &mut SymbolBox, s: &Specifier) -> (bound: Option<
        Mark,
    >)
        requires
            old(symbol_box).wf(),
        ensures
            final(symbol_box).wf(),
            final(symbol_box).len() == old(symbol_box).len(),
            stable(old(self).deep_view(), final(self).deep_view()),
            s.original@ == "*"@ ==> final(self).namespace.included,
            bound_module(old(self).deep_view(), final(self).deep_view(), s.deep_view()),
            bound == assoc_get(final(self).deep_view().exports, s.original@),
            match bound {
                Some(m) => forall|x: Mark, y: Mark|
                    #[trigger] final(symbol_box).same(x, y) == old(symbol_box).united(
                        s.mark,
                        m,
                        x,
                        y,
                    ),
                None => forall|x: Mark, y: Mark|
                    #[trigger] final(symbol_box).same(x, y) == old(symbol_box).same(x, y),
            },
    {
        let ghost v0 = self.deep_view();
        let default_name = String::from_str("default");
        let star = String::from_str("*");
        let is_star = s.original == star;
        if s.original == default_name || is_star {
            if s.used != default_name {
                self.suggest_name(s.original.clone(), s.used.clone());
            }
        }
        let ghost v1 = self.deep_view();
        assert(stable(v0, v1));
        if is_star {
            self.include_namespace();
            proof {
                if !v1.namespace.included {
                    lemma_assoc_put(v1.exports, "*"@, v1.namespace.mark);
                }
            }
        }
        assert(stable(v1, self.deep_view()));
        match self.exports.get(&s.original) {
            Some(m) => {
                let m = *m;
                symbol_box.union(s.mark, m);
                Some(m)
            },
            None => None,
        }
    }
}

/// What binding has done so far: the pairs of marks it united, in order.
pub ghost struct Bound {
    pub pairs: Seq<(Mark, Mark)>,
}

/// Whether `pair` is one that binding the modules of `order` unites: there
/// is an edge that leaves one of them with a specifier that `binds` it.
pub open spec fn is_bound_pair(
    graph: &ModuleGraph,
    order: Seq<usize>,
    table: Seq<(Seq<char>, ModuleView)>,
    pair: (Mark, Mark),
) -> bool {
    exists|k: int, j: int, i: int|
        {
            &&& 0 <= k < order.len()
            &&& order[k] < graph.nodes().len()
            &&& 0 <= j < graph.sorted_out_edges(order[k]).len()
            &&& 0 <= i < edge_names(graph, order[k], j).len()
            &&& #[trigger] binds(
                table,
                edge_target(graph, order[k], j),
                edge_names(graph, order[k], j)[i],
                pair,
            )
        }
}

/// The specifiers of the `j`-th edge that leaves `node`, by source order.
pub open spec fn edge_names(graph: &ModuleGraph, node: usize, j: int) -> Seq<SpecifierView> {
    rel_names(graph.rels@[graph.sorted_out_edges(node)[j].1 as int])
}

/// The id of the module that the `j`-th edge that leaves `node` leads to.
pub open spec fn edge_target(graph: &ModuleGraph, node: usize, j: int) -> Seq<char> {
    graph.nodes()[graph.sorted_out_edges(node)[j].0 as int]
}

/// Whether `pairs` are what binding the modules of `order` united, in
/// order: each is a pair that binding unites, and two marks share a root
/// afterwards exactly where uniting the pairs makes them.
pub open spec fn is_binding(
    graph: &ModuleGraph,
    order: Seq<usize>,
    table: Seq<(Seq<char>, ModuleView)>,
    before: SymbolBox,
    after: SymbolBox,
    pairs: Seq<(Mark, Mark)>,
) -> bool {
    &&& forall|p: int|
        0 <= p < pairs.len() ==> is_bound_pair(graph, order, table, #[trigger] pairs[p])
    &&& forall|x: Mark, y: Mark|
        #[trigger] after.same(x, y) == before.united_all(pairs, pairs.len() as int, x, y)
}

/// Every specifier of every edge that leaves one of the first `k` modules of
/// `order` is bound, and of the module at place `k` those of the first `j`
/// edges and the first `i` specifiers of the edge after them.
pub open spec fn all_coherent(
    graph: &ModuleGraph,
    order: Seq<usize>,
    table: Seq<(Seq<char>, ModuleView)>,
    symbol_box: &SymbolBox,
    k: int,
    j: int,
    i: int,
) -> bool {
    forall|kk: int, jj: int, ii: int|
        {
            &&& 0 <= kk < order.len()
            &&& order[kk] < graph.nodes().len()
            &&& 0 <= jj < graph.sorted_out_edges(order[kk]).len()
            &&& 0 <= ii < edge_names(graph, order[kk], jj).len()
            &&& (kk < k || (kk == k && (jj < j || (jj == j && ii < i))))
        } ==> #[trigger] coherent(
            table,
            symbol_box,
            edge_target(graph, order[kk], jj),
            edge_names(graph, order[kk], jj)[ii],
        )
}

/// Export coherence: once every specifier is bound, each specifier of each
/// edge that leaves a module of `order` shares its root with the export it
/// asks for in the module that the edge leads to, where that module is in
/// the table and has the export, and both marks were handed out.
pub proof fn lemma_export_coherence(
    graph: &ModuleGraph,
    order: Seq<usize>,
    table: Seq<(Seq<char>, ModuleView)>,
    symbol_box: &SymbolBox,
    k: int,
    j: int,
    i: int,
)
    requires
        all_coherent(graph, order, table, symbol_box, order.len() as int, 0, 0),
        0 <= k < order.len(),
        order[k] < graph.nodes().len(),
        0 <= j < graph.sorted_out_edges(order[k]).len(),
        0 <= i < edge_names(graph, order[k], j).len(),
    ensures
        ({
            let s = edge_names(graph, order[k], j)[i];
            match assoc_get(table, edge_target(graph, order[k], j)) {
                Some(dep) => match assoc_get(dep.exports, s.original) {
                    Some(m) => (s.mark as int) < symbol_box.len() && (m as int) < symbol_box.len()
                        ==> symbol_box.root(s.mark) == symbol_box.root(m),
                    None => true,
                },
                None => true,
            }
        }),
{
    assert(coherent(
        table,
        symbol_box,
        edge_target(graph, order[k], j),
        edge_names(graph, order[k], j)[i],
    ));
}

/// Binds the specifiers of every edge that leaves a module of `order`, in
/// the order of the modules and, for each, in the source order of its
/// statements. An edge to a module that the bundle does not hold binds nothing.
pub fn link_bindings(
    modules: &mut NameMap<Module>,
    graph: &ModuleGraph,
    order: &Vec<usize>,
    symbol_box: &mut SymbolBox,
)
    requires
        graph.wf(),
        old(symbol_box).wf(),
    ensures
        final(symbol_box).wf(),
        final(symbol_box).len() == old(symbol_box).len(),
        table_stable(old(modules).deep_view(), final(modules).deep_view()),
        is_bound_in_order(graph, order@, old(modules).deep_view(), final(modules).deep_view()),
        all_coherent(
            graph,
            order@,
            final(modules).deep_view(),
            final(symbol_box),
            order@.len() as int,
            0,
            0,
        ),
        exists|pairs: Seq<(Mark, Mark)>| #[trigger]
            is_binding(
                graph,
                order@,
                final(modules).deep_view(),
                *old(symbol_box),
                *final(symbol_box),
                pairs,
            ),
{
    let ghost start = modules.deep_view();
    let ghost sb0 = *symbol_box;
    let ghost mut pairs: Seq<(Mark, Mark)> = Seq::empty();
    let ghost mut done: Seq<(Seq<char>, SpecifierView)> = Seq::empty();
    let ghost mut trace: Seq<Seq<(Seq<char>, ModuleView)>> = Seq::empty().push(start);
    proof {
        assert(table_stable(start, start));
    }
    let mut k: usize = 0;
    while k < order.len()
        invariant
            k <= order@.len(),
            graph.wf(),
            symbol_box.wf(),
            symbol_box.len() == sb0.len(),
            sb0 == *old(symbol_box),
            start == old(modules).deep_view(),
            table_stable(start, modules.deep_view()),
            done == order_specs(graph, order@, k as int),
            is_bound_trace(done, start, modules.deep_view(), trace),
            all_coherent(graph, order@, modules.deep_view(), symbol_box, k as int, 0, 0),
            forall|p: int|
                0 <= p < pairs.len() ==> is_bound_pair(
                    graph,
                    order@,
                    modules.deep_view(),
                    #[trigger] pairs[p],
                ),
            forall|x: Mark, y: Mark|
                #[trigger] symbol_box.same(x, y) == sb0.united_all(pairs, pairs.len() as int, x, y),
        decreases order@.len() - k,
    {
        let node = order[k];
        let ghost base = done;
        if node < graph.node_count() {
            let out = graph.sorted_out(node);
            let mut j: usize = 0;
            while j < out.len()
                invariant
                    j <= out@.len(),
                    base == order_specs(graph, order@, k as int),
                    done == base + node_specs(graph, node, j as int),
                    is_bound_trace(done, start, modules.deep_view(), trace),
                    k < order@.len(),
                    node == order@[k as int],
                    node < graph.nodes().len(),
                    out@ == graph.sorted_out_edges(node),
                    forall|e: int|
                        0 <= e < out@.len() ==> (#[trigger] out@[e]).0 < graph.nodes().len()
                            && out@[e].1 < graph.rels@.len(),
                    graph.wf(),
                    symbol_box.wf(),
                    symbol_box.len() == sb0.len(),
                    table_stable(start, modules.deep_view()),
                    all_coherent(
                        graph,
                        order@,
                        modules.deep_view(),
                        symbol_box,
                        k as int,
                        j as int,
                        0,
                    ),
                    forall|p: int|
                        0 <= p < pairs.len() ==> is_bound_pair(
                            graph,
                            order@,
                            modules.deep_view(),
                            #[trigger] pairs[p],
                        ),
                    forall|x: Mark, y: Mark|
                        #[trigger] symbol_box.same(x, y) == sb0.united_all(
                            pairs,
                            pairs.len() as int,
                            x,
                            y,
                        ),
                decreases out@.len() - j,
            {
                let target = out[j].0;
                let rel = &graph.rels[out[j].1];
                let target_id = graph.node_id(target).unwrap();
                assert(target_id@ == edge_target(graph, node, j as int));
                let found = modules.find(&target_id);
                let ghost edge_base = done;
                let ghost specs = edge_specs(graph, node, j as int);
                match rel {
                    Rel::Import(info) | Rel::ReExport(info) => {
                        let ghost names = info.names.deep_view();
                        assert(names == edge_names(graph, node, j as int));
                        match found {
                            Some(di) => {
                                let mut i: usize = 0;
                                while i < info.names.len()
                                    invariant
                                        i <= info.names@.len(),
                                        j < out@.len(),
                                        specs == edge_specs(graph, node, j as int),
                                        done == edge_base + specs.subrange(0, i as int),
                                        is_bound_trace(done, start, modules.deep_view(), trace),
                                        k < order@.len(),
                                        node == order@[k as int],
                                        node < graph.nodes().len(),
                                        out@ == graph.sorted_out_edges(node),
                                        names == info.names.deep_view(),
                                        names == edge_names(graph, node, j as int),
                                        target_id@ == edge_target(graph, node, j as int),
                                        di < modules.entries@.len(),
                                        assoc_index(modules.deep_view(), target_id@) == Some(
                                            di as int,
                                        ),
                                        graph.wf(),
                                        symbol_box.wf(),
                                        symbol_box.len() == sb0.len(),
                                        table_stable(start, modules.deep_view()),
                                        all_coherent(
                                            graph,
                                            order@,
                                            modules.deep_view(),
                                            symbol_box,
                                            k as int,
                                            j as int,
                                            i as int,
                                        ),
                                        forall|p: int|
                                            0 <= p < pairs.len() ==> is_bound_pair(
                                                graph,
                                                order@,
                                                modules.deep_view(),
                                                #[trigger] pairs[p],
                                            ),
                                        forall|x: Mark, y: Mark|
                                            #[trigger] symbol_box.same(x, y) == sb0.united_all(
                                                pairs,
                                                pairs.len() as int,
                                                x,
                                                y,
                                            ),
                                    decreases info.names@.len() - i,
                                {
                                    let ghost table = modules.deep_view();
                                    let ghost mid = *symbol_box;
                                    let ghost s = names[i as int];
                                    assert(s == info.names@[i as int].deep_view());
                                    assert(table[di as int] == (
                                        modules.entries@[di as int].0@,
                                        modules.entries@[di as int].1.deep_view(),
                                    ));
                                    let bound = modules.entries[di].1.bind_specifier(
                                        symbol_box,
                                        &info.names[i],
                                    );
                                    proof {
                                        let after = modules.deep_view();
                                        assert(after =~= table.update(
                                            di as int,
                                            (table[di as int].0, after[di as int].1),
                                        ));
                                        assert(table_stable(table, after)) by {
                                            assert forall|q: int| 0 <= q < table.len() implies (
                                            #[trigger] after[q]).0 == table[q].0 && stable(
                                                table[q].1,
                                                after[q].1,
                                            ) by {}
                                        }
                                        lemma_table_stable_trans(start, table, after);
                                        assert(assoc_keys(after) =~= assoc_keys(table));
                                        assert(bound_table(table, after, target_id@, s));
                                        lemma_trace_push(done, start, trace, target_id@, s, after);
                                        assert(done.push((target_id@, s)) =~= edge_base
                                            + specs.subrange(0, i as int + 1));
                                        done = done.push((target_id@, s));
                                        trace = trace.push(after);
                                        assert forall|x: Mark, y: Mark| mid.same(x, y) implies #[trigger] symbol_box.same(
                                            x,
                                            y,
                                        ) by {}
                                        lemma_step_coherent(
                                            graph,
                                            order@,
                                            table,
                                            after,
                                            &mid,
                                            symbol_box,
                                            k as int,
                                            j as int,
                                            i as int,
                                        );
                                        let old_pairs = pairs;
                                        assert forall|p: int| 0 <= p < old_pairs.len() implies is_bound_pair(
                                            graph,
                                            order@,
                                            after,
                                            #[trigger] old_pairs[p],
                                        ) by {
                                            lemma_bound_pair_stays(
                                                graph,
                                                order@,
                                                table,
                                                after,
                                                old_pairs[p],
                                            );
                                        }
                                        match bound {
                                            Some(m) => {
                                                pairs = old_pairs.push((s.mark, m));
                                                assert(pairs.subrange(0, old_pairs.len() as int)
                                                    =~= old_pairs);
                                                crate::module::lemma_united_prefix(
                                                    sb0,
                                                    old_pairs,
                                                    pairs,
                                                );
                                                sb0.lemma_united_step(
                                                    &mid,
                                                    symbol_box,
                                                    pairs,
                                                    old_pairs.len() as int,
                                                );
                                                assert(binds(
                                                    after,
                                                    edge_target(graph, order@[k as int], j as int),
                                                    edge_names(graph, order@[k as int], j as int)[i as int],
                                                    (s.mark, m),
                                                ));
                                                assert(is_bound_pair(
                                                    graph,
                                                    order@,
                                                    after,
                                                    (s.mark, m),
                                                ));
                                            },
                                            None => {},
                                        }
                                    }
                                    i += 1;
                                }
                                proof {
                                    assert(specs.subrange(0, i as int) =~= specs);
                                }
                            },
                            None => {
                                proof {
                                    lemma_trace_skip(done, start, trace, specs);
                                    trace = trace + Seq::new(specs.len(), |i: int| trace.last());
                                    done = done + specs;
                                    assert forall|ii: int|
                                        0 <= ii < names.len() implies #[trigger] coherent(
                                        modules.deep_view(),
                                        symbol_box,
                                        target_id@,
                                        names[ii],
                                    ) by {}
                                }
                            },
                        }
                    },
                    Rel::ReExportAll(_) => {
                        proof {
                            assert(done + specs =~= done);
                        }
                    },
                }
                proof {
                    assert(done == edge_base + specs);
                    assert(done =~= base + node_specs(graph, node, j as int + 1));
                }
                j += 1;
            }
        }
        k += 1;
    }
    proof {
        assert(is_bound_in_order(graph, order@, start, modules.deep_view()));
    }
    proof {
        assert(is_binding(graph, order@, modules.deep_view(), sb0, *symbol_box, pairs));
    }
}

/// A pair that binding unites stays one while modules stay stable.
pub proof fn lemma_bound_pair_stays(
    graph: &ModuleGraph,
    order: Seq<usize>,
    before: Seq<(Seq<char>, ModuleView)>,
    after: Seq<(Seq<char>, ModuleView)>,
    pair: (Mark, Mark),
)
    requires
        table_stable(before, after),
        is_bound_pair(graph, order, before, pair),
    ensures
        is_bound_pair(graph, order, after, pair),
{
    let (k, j, i) = choose|k: int, j: int, i: int|
        {
            &&& 0 <= k < order.len()
            &&& order[k] < graph.nodes().len()
            &&& 0 <= j < graph.sorted_out_edges(order[k]).len()
            &&& 0 <= i < edge_names(graph, order[k], j).len()
            &&& #[trigger] binds(
                before,
                edge_target(graph, order[k], j),
                edge_names(graph, order[k], j)[i],
                pair,
            )
        };
    lemma_binds_stays(
        before,
        after,
        edge_target(graph, order[k], j),
        edge_names(graph, order[k], j)[i],
        pair,
    );
}

/// One more bound specifier: those bound before stay bound, and the new one is bound.
pub proof fn lemma_step_coherent(
    graph: &ModuleGraph,
    order: Seq<usize>,
    before: Seq<(Seq<char>, ModuleView)>,
    after: Seq<(Seq<char>, ModuleView)>,
    sb0: &SymbolBox,
    sb1: &SymbolBox,
    k: int,
    j: int,
    i: int,
)
    requires
        table_stable(before, after),
        sb1.len() == sb0.len(),
        forall|x: Mark, y: Mark| sb0.same(x, y) ==> #[trigger] sb1.same(x, y),
        all_coherent(graph, order, before, sb0, k, j, i),
        0 <= k < order.len() && order[k] < graph.nodes().len() && 0 <= j
            < graph.sorted_out_edges(order[k]).len() && 0 <= i < edge_names(
            graph,
            order[k],
            j,
        ).len() ==> coherent(
            after,
            sb1,
            edge_target(graph, order[k], j),
            edge_names(graph, order[k], j)[i],
        ),
    ensures
        all_coherent(graph, order, after, sb1, k, j, i + 1),
{
    assert forall|kk: int, jj: int, ii: int|
        {
            &&& 0 <= kk < order.len()
            &&& order[kk] < graph.nodes().len()
            &&& 0 <= jj < graph.sorted_out_edges(order[kk]).len()
            &&& 0 <= ii < edge_names(graph, order[kk], jj).len()
            &&& (kk < k || (kk == k && (jj < j || (jj == j && ii < i + 1))))
        } implies #[trigger] coherent(
        after,
        sb1,
        edge_target(graph, order[kk], jj),
        edge_names(graph, order[kk], jj)[ii],
    ) by {
        if kk == k && jj == j && ii == i {
        } else {
            assert(coherent(
                before,
                sb0,
                edge_target(graph, order[kk], jj),
                edge_names(graph, order[kk], jj)[ii],
            ));
            lemma_coherent_stays(
                before,
                after,
                sb0,
                sb1,
                edge_target(graph, order[kk], jj),
                edge_names(graph, order[kk], jj)[ii],
            );
        }
    }
}

} // verus!
