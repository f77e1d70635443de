//! A module of the bundle: its statements, the names it binds, imports and
//! exports, and the marks that stand for them.

use vstd::prelude::*;
use vstd::string::*;
use dashmap::DashMap;
use crate::ast::ModuleItem;
use crate::errors::GraphError;
use crate::names::{assoc_get, assoc_put, NameMap};
use crate::scanner::rel::{ExportDesc, ExportDescView, ReExportDesc, ReExportDescView};
use crate::scanner::ModuleItemInfo;
use crate::shared::{resolved_new, resolved_of};
use crate::statement::Statement;
use crate::symbol_box::{Mark, SymbolBox};
use crate::types::{ResolvedId, ResolvedIdView};

verus! {

/// The namespace object of a module: its mark, and whether its statement was made.
#[derive(Clone, Copy, Debug, PartialEq, Eq, Structural)]
pub struct Namespace {
    pub included: bool,
    pub mark: Mark,
}

pub struct Module {
    /// What each specifier of the module resolved to.
    pub resolved_ids: DashMap<String, ResolvedId>,
    pub statements: Vec<Statement>,
    /// For each module-level name, the statement that declares it.
    pub definitions: NameMap<usize>,
    pub id: String,
    pub local_exports: NameMap<ExportDesc>,
    pub re_exports: NameMap<ReExportDesc>,
    /// The sources of `export * from`, in source order.
    pub re_export_all_sources: Vec<String>,
    /// Every exported name with its mark, once the module is linked.
    pub exports: NameMap<Mark>,
    pub declared_symbols: NameMap<Mark>,
    pub imported_symbols: NameMap<Mark>,
    /// The names that importers gave to `default` and to `*`.
    pub suggested_names: NameMap<String>,
    pub namespace: Namespace,
    pub is_user_defined_entry_point: bool,
}

pub ghost struct ModuleView {
    pub resolved_ids: Map<Seq<char>, ResolvedIdView>,
    pub statements: Seq<Statement>,
    pub definitions: Seq<(Seq<char>, usize)>,
    pub id: Seq<char>,
    pub local_exports: Seq<(Seq<char>, ExportDescView)>,
    pub re_exports: Seq<(Seq<char>, ReExportDescView)>,
    pub re_export_all_sources: Seq<Seq<char>>,
    pub exports: Seq<(Seq<char>, Mark)>,
    pub declared_symbols: Seq<(Seq<char>, Mark)>,
    pub imported_symbols: Seq<(Seq<char>, Mark)>,
    pub suggested_names: Seq<(Seq<char>, Seq<char>)>,
    pub namespace: Namespace,
    pub is_user_defined_entry_point: bool,
}

impl DeepView for Module {
    type V = ModuleView;

    open spec fn deep_view(&self) -> ModuleView {
        ModuleView {
            resolved_ids: resolved_of(self.resolved_ids),
            statements: self.statements@,
            definitions: self.definitions.deep_view(),
            id: self.id@,
            local_exports: self.local_exports.deep_view(),
            re_exports: self.re_exports.deep_view(),
            re_export_all_sources: self.re_export_all_sources.deep_view(),
            exports: self.exports.deep_view(),
            declared_symbols: self.declared_symbols.deep_view(),
            imported_symbols: self.imported_symbols.deep_view(),
            suggested_names: self.suggested_names.deep_view(),
            namespace: self.namespace,
            is_user_defined_entry_point: self.is_user_defined_entry_point,
        }
    }
}

/// `exports` with the first `n` local exports entered, each under its mark.
pub open spec fn with_local_exports(
    exports: Seq<(Seq<char>, Mark)>,
    locals: Seq<(Seq<char>, ExportDescView)>,
    n: int,
) -> Seq<(Seq<char>, Mark)>
    decreases n,
{
    if 0 < n <= locals.len() {
        assoc_put(with_local_exports(exports, locals, n - 1), locals[n - 1].0, locals[n - 1].1.mark)
    } else {
        exports
    }
}

/// `exports` with the first `n` re-exports entered, each under its mark.
pub open spec fn with_re_exports(
    exports: Seq<(Seq<char>, Mark)>,
    re_exports: Seq<(Seq<char>, ReExportDescView)>,
    n: int,
) -> Seq<(Seq<char>, Mark)>
    decreases n,
{
    if 0 < n <= re_exports.len() {
        assoc_put(
            with_re_exports(exports, re_exports, n - 1),
            re_exports[n - 1].0,
            re_exports[n - 1].1.mark,
        )
    } else {
        exports
    }
}

/// The mark of a name that the module binds: a declared name before an imported one.
pub open spec fn resolved_symbol(v: ModuleView, name: Seq<char>) -> Option<Mark> {
    match assoc_get(v.declared_symbols, name) {
        Some(m) => Some(m),
        None => assoc_get(v.imported_symbols, name),
    }
}

/// The name that a local export refers to.
pub open spec fn referenced_name(desc: ExportDescView) -> Seq<char> {
    match desc.identifier {
        Some(i) => i,
        None => desc.local_name,
    }
}

/// Whether a local export refers to a value without a name, such as `export default 1`.
pub open spec fn is_nameless(desc: ExportDescView) -> bool {
    referenced_name(desc) == "default"@
}

/// Whether a local export refers to a name that the module does not bind.
pub open spec fn is_unknown_export(v: ModuleView, desc: ExportDescView) -> bool {
    !is_nameless(desc) && resolved_symbol(v, referenced_name(desc)) is None
}

/// The pairs of marks that the first `n` local exports unite: the mark of
/// each export with that of the binding it refers to.
pub open spec fn local_pairs(v: ModuleView, n: int) -> Seq<(Mark, Mark)>
    decreases n,
{
    if 0 < n <= v.local_exports.len() {
        let desc = v.local_exports[n - 1].1;
        if is_nameless(desc) {
            local_pairs(v, n - 1)
        } else {
            match resolved_symbol(v, referenced_name(desc)) {
                Some(m) => local_pairs(v, n - 1).push((desc.mark, m)),
                None => local_pairs(v, n - 1),
            }
        }
    } else {
        Seq::empty()
    }
}

/// The statement with the inclusion that the first pass of tree-shaking
/// gives it: every statement where nothing is shaken, else those with a side effect.
pub open spec fn first_pass(s: Statement, only_side_effects: bool) -> Statement {
    Statement {
        included: s.included || !only_side_effects || s.side_effect is Some,
        ..s
    }
}

/// The statement, included where it defines a binding of the class of `root`.
pub open spec fn with_root_included(s: Statement, symbol_box: &SymbolBox, root: Mark) -> Statement {
    Statement { included: s.included || s.defines_root(symbol_box, root), ..s }
}

/// The number of items that have their info beside them: where one list is
/// longer than the other, what it has more is left out.
pub open spec fn paired_len<A, B>(a: Seq<A>, b: Seq<B>) -> nat {
    if a.len() <= b.len() {
        a.len()
    } else {
        b.len()
    }
}

/// The definitions after the names of the first `n` entries of `declared` were entered for statement `idx`.
pub open spec fn with_definitions(
    definitions: Seq<(Seq<char>, usize)>,
    declared: Seq<(Seq<char>, Mark)>,
    idx: usize,
    n: int,
) -> Seq<(Seq<char>, usize)>
    decreases n,
{
    if 0 < n <= declared.len() {
        assoc_put(with_definitions(definitions, declared, idx, n - 1), declared[n - 1].0, idx)
    } else {
        definitions
    }
}

/// The definitions after the first `n` statements were entered.
pub open spec fn definitions_of(statements: Seq<Statement>, n: int) -> Seq<(Seq<char>, usize)>
    decreases n,
{
    if 0 < n <= statements.len() {
        let declared = statements[n - 1].declared.deep_view();
        with_definitions(
            definitions_of(statements, n - 1),
            declared,
            (n - 1) as usize,
            declared.len() as int,
        )
    } else {
        Seq::empty()
    }
}

impl Module {
    /// A module of which nothing is known but its id.
    pub fn new(id: String) -> (m: Module)
        ensures
            m.deep_view() == (ModuleView {
                resolved_ids: Map::empty(),
                statements: Seq::empty(),
                definitions: Seq::empty(),
                id: id@,
                local_exports: Seq::empty(),
                re_exports: Seq::empty(),
                re_export_all_sources: Seq::empty(),
                exports: Seq::empty(),
                declared_symbols: Seq::empty(),
                imported_symbols: Seq::empty(),
                suggested_names: Seq::empty(),
                namespace: Namespace { included: false, mark: 0 },
                is_user_defined_entry_point: false,
            }),
    {
        let m = Module {
            resolved_ids: resolved_new(),
            statements: Vec::new(),
            definitions: NameMap::new(),
            id,
            local_exports: NameMap::new(),
            re_exports: NameMap::new(),
            re_export_all_sources: Vec::new(),
            exports: NameMap::new(),
            declared_symbols: NameMap::new(),
            imported_symbols: NameMap::new(),
            suggested_names: NameMap::new(),
            namespace: Namespace { included: false, mark: 0 },
            is_user_defined_entry_point: false,
        };
        assert(m.re_export_all_sources.deep_view() =~= Seq::empty());
        assert(resolved_of(m.resolved_ids) =~= Map::empty());
        m
    }

    /// Enters every local export and every re-export in `exports`, under its mark.
    pub fn link_local_exports(&mut self)
        ensures
            final(self).deep_view() == (ModuleView {
                exports: with_re_exports(
                    with_local_exports(
                        old(self).deep_view().exports,
                        old(self).deep_view().local_exports,
                        old(self).deep_view().local_exports.len() as int,
                    ),
                    old(self).deep_view().re_exports,
                    old(self).deep_view().re_exports.len() as int,
                ),
                ..old(self).deep_view()
            }),
    {
        let ghost start = self.deep_view();
        let mut i: usize = 0;
        while i < self.local_exports.entries.len()
            invariant
                i <= self.local_exports.entries@.len(),
                self.deep_view() == (ModuleView {
                    exports: with_local_exports(start.exports, start.local_exports, i as int),
                    ..start
                }),
            decreases self.local_exports.entries@.len() - i,
        {
            assert(start.local_exports[i as int] == (
                self.local_exports.entries@[i as int].0@,
                self.local_exports.entries@[i as int].1.deep_view(),
            ));
            let key = self.local_exports.entries[i].0.clone();
            let mark = self.local_exports.entries[i].1.mark;
            self.exports.insert(key, mark);
            i += 1;
        }
        let ghost mid = self.deep_view().exports;
        let mut j: usize = 0;
        while j < self.re_exports.entries.len()
            invariant
                j <= self.re_exports.entries@.len(),
                self.deep_view() == (ModuleView {
                    exports: with_re_exports(mid, start.re_exports, j as int),
                    ..start
                }),
            decreases self.re_exports.entries@.len() - j,
        {
            assert(start.re_exports[j as int] == (
                self.re_exports.entries@[j as int].0@,
                self.re_exports.entries@[j as int].1.deep_view(),
            ));
            let key = self.re_exports.entries[j].0.clone();
            let mark = self.re_exports.entries[j].1.mark;
            self.exports.insert(key, mark);
            j += 1;
        }
    }

    /// The mark of a name that the module binds.
    pub fn resolve_mark(&self, name: &String) -> (r: Option<Mark>)
        ensures
            r == resolved_symbol(self.deep_view(), name@),
    {
        match self.declared_symbols.get(name) {
            Some(m) => Some(*m),
            None => match self.imported_symbols.get(name) {
                Some(m) => Some(*m),
                None => None,
            },
        }
    }

    /// Unites the mark of every local export with the mark of the binding it
    /// refers to. Fails at the first export that refers to a name which the
    /// module does not bind.
    pub fn bind_local_references(&self, symbol_box: &mut SymbolBox) -> (r: Result<(), GraphError>)
        requires
            old(symbol_box).wf(),
        ensures
            final(symbol_box).wf(),
            final(symbol_box).len() == old(symbol_box).len(),
            match r {
                Ok(_) => {
                    let pairs = local_pairs(
                        self.deep_view(),
                        self.deep_view().local_exports.len() as int,
                    );
                    &&& forall|i: int|
                        0 <= i < self.deep_view().local_exports.len() ==> !is_unknown_export(
                            self.deep_view(),
                            #[trigger] self.deep_view().local_exports[i].1,
                        )
                    &&& forall|x: Mark, y: Mark|
                        #[trigger] final(symbol_box).same(x, y) == old(symbol_box).united_all(
                            pairs,
                            pairs.len() as int,
                            x,
                            y,
                        )
                },
                Err(GraphError::UnknownExport { name, module }) => exists|i: int|
                    {
                        let pairs = local_pairs(self.deep_view(), i);
                        &&& 0 <= i < self.deep_view().local_exports.len()
                        &&& is_unknown_export(
                            self.deep_view(),
                            #[trigger] self.deep_view().local_exports[i].1,
                        )
                        &&& forall|j: int|
                            0 <= j < i ==> !is_unknown_export(
                                self.deep_view(),
                                #[trigger] self.deep_view().local_exports[j].1,
                            )
                        &&& name@ == referenced_name(self.deep_view().local_exports[i].1)
                        &&& module@ == self.id@
                        &&& forall|x: Mark, y: Mark|
                            #[trigger] final(symbol_box).same(x, y) == old(symbol_box).united_all(
                                pairs,
                                pairs.len() as int,
                                x,
                                y,
                            )
                    },
                Err(_) => false,
            },
    {
        let ghost v = self.deep_view();
        let default_name = String::from_str("default");
        let mut i: usize = 0;
        while i < self.local_exports.entries.len()
            invariant
                i <= self.local_exports.entries@.len(),
                v == self.deep_view(),
                default_name@ == "default"@,
                symbol_box.wf(),
                symbol_box.len() == old(symbol_box).len(),
                forall|j: int|
                    0 <= j < i ==> !is_unknown_export(v, #[trigger] v.local_exports[j].1),
                forall|x: Mark, y: Mark|
                    #[trigger] symbol_box.same(x, y) == old(symbol_box).united_all(
                        local_pairs(v, i as int),
                        local_pairs(v, i as int).len() as int,
                        x,
                        y,
                    ),
            decreases self.local_exports.entries@.len() - i,
        {
            let desc = &self.local_exports.entries[i].1;
            assert(v.local_exports[i as int].1 == desc.deep_view());
            let referenced: &String = match &desc.identifier {
                Some(n) => n,
                None => &desc.local_name,
            };
            assert(referenced@ == referenced_name(desc.deep_view()));
            if *referenced == default_name {
                i += 1;
                continue ;
            }
            match self.resolve_mark(referenced) {
                Some(m) => {
                    let ghost mid = *symbol_box;
                    let ghost before = local_pairs(v, i as int);
                    symbol_box.union(desc.mark, m);
                    i += 1;
                    proof {
                        let pairs = local_pairs(v, i as int);
                        assert(pairs == before.push((desc.mark, m)));
                        assert(pairs.subrange(0, before.len() as int) =~= before);
                        lemma_united_prefix(*old(symbol_box), before, pairs);
                        old(symbol_box).lemma_united_step(
                            &mid,
                            symbol_box,
                            pairs,
                            before.len() as int,
                        );
                    }
                },
                None => {
                    return Err(
                        GraphError::UnknownExport {
                            name: referenced.clone(),
                            module: self.id.clone(),
                        },
                    );
                },
            }
        }
        Ok(())
    }

    /// Records the name that an importer gave to `default` or to `*`; the last one stays.
    pub fn suggest_name(&mut self, name: String, suggested: String)
        ensures
            final(self).deep_view() == (ModuleView {
                suggested_names: assoc_put(old(self).deep_view().suggested_names, name@, suggested@),
                ..old(self).deep_view()
            }),
    {
        self.suggested_names.insert(name, suggested);
    }

    /// The first pass of tree-shaking: every statement is taken where nothing
    /// is shaken, else every statement with a side effect.
    pub fn include_statements(&mut self, only_side_effects: bool)
        ensures
            *final(self) == (Module { statements: final(self).statements, ..*old(self) }),
            final(self).deep_view() == (ModuleView {
                statements: final(self).statements@,
                ..old(self).deep_view()
            }),
            final(self).statements@.len() == old(self).statements@.len(),
            forall|i: int|
                0 <= i < old(self).statements@.len() ==> final(self).statements@[i] == first_pass(
                    #[trigger] old(self).statements@[i],
                    only_side_effects,
                ),
    {
        let mut i: usize = 0;
        while i < self.statements.len()
            invariant
                i <= self.statements@.len(),
                self.statements@.len() == old(self).statements@.len(),
                *self == (Module { statements: self.statements, ..*old(self) }),
                self.deep_view() == (ModuleView {
                    statements: self.statements@,
                    ..old(self).deep_view()
                }),
                forall|j: int|
                    0 <= j < i ==> self.statements@[j] == first_pass(
                        #[trigger] old(self).statements@[j],
                        only_side_effects,
                    ),
                forall|j: int|
                    i <= j < self.statements@.len() ==> self.statements@[j] == old(self).statements@[j],
            decreases self.statements@.len() - i,
        {
            if !only_side_effects || self.statements[i].side_effect.is_some() {
                self.statements[i].set_included();
            }
            i += 1;
        }
    }

    /// Takes every statement that defines a binding of the class of `mark`.
    pub fn include_mark(&mut self, symbol_box: &SymbolBox, mark: Mark)
        requires
            symbol_box.wf(),
        ensures
            final(self).deep_view() == (ModuleView {
                statements: final(self).statements@,
                ..old(self).deep_view()
            }),
            final(self).statements@.len() == old(self).statements@.len(),
            forall|i: int|
                0 <= i < old(self).statements@.len() ==> final(self).statements@[i]
                    == with_root_included(
                    #[trigger] old(self).statements@[i],
                    symbol_box,
                    symbol_box.root(mark),
                ),
    {
        let root = symbol_box.find_root(mark);
        let mut i: usize = 0;
        while i < self.statements.len()
            invariant
                i <= self.statements@.len(),
                symbol_box.wf(),
                root == symbol_box.root(mark),
                self.statements@.len() == old(self).statements@.len(),
                self.deep_view() == (ModuleView {
                    statements: self.statements@,
                    ..old(self).deep_view()
                }),
                forall|j: int|
                    0 <= j < i ==> self.statements@[j] == with_root_included(
                        #[trigger] old(self).statements@[j],
                        symbol_box,
                        root,
                    ),
                forall|j: int|
                    i <= j < self.statements@.len() ==> self.statements@[j] == old(self).statements@[j],
            decreases self.statements@.len() - i,
        {
            if self.statements[i].defines(symbol_box, root) {
                self.statements[i].set_included();
            }
            i += 1;
        }
    }

    /// Makes the statements of the module from its items and from what the
    /// scanner found in each, and enters for each declared name the statement
    /// that declares it.
    pub fn set_statements(&mut self, body: Vec<ModuleItem>, infos: Vec<ModuleItemInfo>)
        ensures
            final(self).statements@.len() == paired_len(body@, infos@),
            forall|i: int|
                0 <= i < paired_len(body@, infos@) ==> {
                    let s = #[trigger] final(self).statements@[i];
                    &&& s.node == body@[i]
                    &&& !s.included
                    &&& s.declared == infos@[i].declared
                    &&& s.reads == infos@[i].reads
                    &&& s.writes == infos@[i].writes
                    &&& s.side_effect == infos@[i].side_effect
                    &&& s.export_mark == infos@[i].export_mark
                },
            final(self).deep_view() == (ModuleView {
                statements: final(self).statements@,
                definitions: definitions_of(
                    final(self).statements@,
                    paired_len(body@, infos@) as int,
                ),
                ..old(self).deep_view()
            }),
    {
        let mut body = body;
        let mut infos = infos;
        let ghost all_nodes = body@;
        let ghost all_found = infos@;
        while body.len() > infos.len()
            invariant
                infos@ == all_found,
                body@.len() <= all_nodes.len(),
                body@.len() >= all_found.len() || body@.len() == all_nodes.len(),
                body@ == all_nodes.subrange(0, body@.len() as int),
            decreases body@.len(),
        {
            body.pop();
        }
        while infos.len() > body.len()
            invariant
                body@.len() == paired_len(all_nodes, all_found),
                body@ == all_nodes.subrange(0, body@.len() as int),
                infos@.len() <= all_found.len(),
                infos@.len() >= body@.len(),
                infos@ == all_found.subrange(0, infos@.len() as int),
            decreases infos@.len(),
        {
            infos.pop();
        }
        let ghost nodes = body@;
        let ghost found = infos@;
        assert(all_found.subrange(0, all_found.len() as int) =~= all_found);
        assert forall|i: int| 0 <= i < nodes.len() implies nodes[i] == all_nodes[i] && found[i]
            == all_found[i] by {}
        let n = body.len();
        let mut reversed: Vec<Statement> = Vec::new();
        while body.len() > 0
            invariant
                body@.len() == infos@.len(),
                body@.len() + reversed@.len() == nodes.len(),
                nodes.len() == found.len(),
                body@ == nodes.subrange(0, body@.len() as int),
                infos@ == found.subrange(0, infos@.len() as int),
                forall|k: int|
                    0 <= k < reversed@.len() ==> {
                        let s = #[trigger] reversed@[k];
                        let i = nodes.len() - 1 - k;
                        &&& s.node == nodes[i]
                        &&& !s.included
                        &&& s.declared == found[i].declared
                        &&& s.reads == found[i].reads
                        &&& s.writes == found[i].writes
                        &&& s.side_effect == found[i].side_effect
                        &&& s.export_mark == found[i].export_mark
                    },
            decreases body@.len(),
        {
            let node = body.pop().unwrap();
            let info = infos.pop().unwrap();
            reversed.push(Statement::from_info(node, info));
        }
        let mut statements: Vec<Statement> = Vec::new();
        while reversed.len() > 0
            invariant
                statements@.len() + reversed@.len() == nodes.len(),
                nodes.len() == found.len(),
                forall|k: int|
                    0 <= k < reversed@.len() ==> {
                        let s = #[trigger] reversed@[k];
                        let i = nodes.len() - 1 - k;
                        &&& s.node == nodes[i]
                        &&& !s.included
                        &&& s.declared == found[i].declared
                        &&& s.reads == found[i].reads
                        &&& s.writes == found[i].writes
                        &&& s.side_effect == found[i].side_effect
                        &&& s.export_mark == found[i].export_mark
                    },
                forall|i: int|
                    0 <= i < statements@.len() ==> {
                        let s = #[trigger] statements@[i];
                        &&& s.node == nodes[i]
                        &&& !s.included
                        &&& s.declared == found[i].declared
                        &&& s.reads == found[i].reads
                        &&& s.writes == found[i].writes
                        &&& s.side_effect == found[i].side_effect
                        &&& s.export_mark == found[i].export_mark
                    },
            decreases reversed@.len(),
        {
            let s = reversed.pop().unwrap();
            statements.push(s);
        }
        self.statements = statements;
        self.definitions = NameMap::new();
        let mut i: usize = 0;
        while i < self.statements.len()
            invariant
                i <= self.statements@.len(),
                self.statements@.len() == nodes.len(),
                self.deep_view() == (ModuleView {
                    statements: self.statements@,
                    definitions: definitions_of(self.statements@, i as int),
                    ..old(self).deep_view()
                }),
                forall|i: int|
                    0 <= i < nodes.len() ==> {
                        let s = #[trigger] self.statements@[i];
                        &&& s.node == nodes[i]
                        &&& !s.included
                        &&& s.declared == found[i].declared
                        &&& s.reads == found[i].reads
                        &&& s.writes == found[i].writes
                        &&& s.side_effect == found[i].side_effect
                        &&& s.export_mark == found[i].export_mark
                    },
            decreases self.statements@.len() - i,
        {
            let ghost before = self.deep_view().definitions;
            let ghost declared = self.statements@[i as int].declared.deep_view();
            let mut k: usize = 0;
            while k < self.statements[i].declared.entries.len()
                invariant
                    i < self.statements@.len(),
                    self.statements@.len() == nodes.len(),
                    k <= self.statements@[i as int].declared.entries@.len(),
                    declared == self.statements@[i as int].declared.deep_view(),
                    before == definitions_of(self.statements@, i as int),
                    self.deep_view() == (ModuleView {
                        statements: self.statements@,
                        definitions: with_definitions(before, declared, i, k as int),
                        ..old(self).deep_view()
                    }),
                    forall|i: int|
                        0 <= i < nodes.len() ==> {
                            let s = #[trigger] self.statements@[i];
                            &&& s.node == nodes[i]
                            &&& !s.included
                            &&& s.declared == found[i].declared
                            &&& s.reads == found[i].reads
                            &&& s.writes == found[i].writes
                            &&& s.side_effect == found[i].side_effect
                            &&& s.export_mark == found[i].export_mark
                        },
                decreases self.statements@[i as int].declared.entries@.len() - k,
            {
                assert(declared[k as int].0 == self.statements@[i as int].declared.entries@[k as int].0@);
                let name = self.statements[i].declared.entries[k].0.clone();
                self.definitions.insert(name, i);
                k += 1;
            }
            i += 1;
        }
    }
}

/// A box that stands for the unions of `pairs` stands for those of a longer
/// sequence cut at the same length.
pub proof fn lemma_united_prefix(sb: SymbolBox, pairs: Seq<(Mark, Mark)>, longer: Seq<(Mark, Mark)>)
    requires
        pairs.len() <= longer.len(),
        longer.subrange(0, pairs.len() as int) == pairs,
    ensures
        forall|x: Mark, y: Mark|
            sb.united_all(pairs, pairs.len() as int, x, y) == #[trigger] sb.united_all(
                longer,
                pairs.len() as int,
                x,
                y,
            ),
{
    lemma_united_prefix_at(sb, pairs, longer, pairs.len() as int);
}

proof fn lemma_united_prefix_at(
    sb: SymbolBox,
    pairs: Seq<(Mark, Mark)>,
    longer: Seq<(Mark, Mark)>,
    n: int,
)
    requires
        0 <= n <= pairs.len() <= longer.len(),
        longer.subrange(0, pairs.len() as int) == pairs,
    ensures
        forall|x: Mark, y: Mark|
            sb.united_all(pairs, n, x, y) == #[trigger] sb.united_all(longer, n, x, y),
    decreases n,
{
    if n > 0 {
        lemma_united_prefix_at(sb, pairs, longer, n - 1);
        assert(longer.subrange(0, pairs.len() as int)[n - 1] == longer[n - 1]);
        assert forall|x: Mark, y: Mark|
            sb.united_all(pairs, n, x, y) == #[trigger] sb.united_all(longer, n, x, y) by {
            let a = pairs[n - 1].0;
            let b = pairs[n - 1].1;
            assert(sb.united_all(pairs, n - 1, x, y) == sb.united_all(longer, n - 1, x, y));
            assert(sb.united_all(pairs, n - 1, x, a) == sb.united_all(longer, n - 1, x, a));
            assert(sb.united_all(pairs, n - 1, y, b) == sb.united_all(longer, n - 1, y, b));
            assert(sb.united_all(pairs, n - 1, x, b) == sb.united_all(longer, n - 1, x, b));
            assert(sb.united_all(pairs, n - 1, y, a) == sb.united_all(longer, n - 1, y, a));
        }
    }
}

} // verus!
