//! What a worker decides while the graph is built: which module to read
//! next, what a module that was read depends on, and what the module and
//! its dependencies are reported as. Reading and parsing are done elsewhere.

use vstd::prelude::*;
use vstd::string::*;
use crossbeam::queue::SegQueue;
use dashmap::DashSet;
use crate::ast::{ModuleDecl, ModuleItem};
use crate::dep_graph::Rel;
use crate::errors::GraphError;
use crate::graph::Msg;
use crate::module::{
    definitions_of, is_unknown_export, local_pairs, paired_len, referenced_name, with_local_exports,
    with_re_exports, Module, ModuleView,
};
use crate::names::NameMap;
use crate::resolve_id::{resolve_id, resolved};
use crate::scanner::rel::{RelationInfo, RelationInfoView, Specifier};
use crate::scanner::scope::{BindType, Binding, Scope};
use crate::scanner::{ModuleItemInfo, Scanner};
use crate::shared::{
    id_set_insert, id_set_new, id_set_of, map_get, queue_new, queue_pop, queue_push,
    resolved_get, resolved_insert, waiting_of,
};
use crate::symbol_box::{Mark, SymbolBox};
use crate::types::{ResolvedId, ResolvedIdView};

verus! {

/// The ids that wait to be read, first come first served, and the ids that were claimed.
pub struct JobQueue {
    pub pending: SegQueue<ResolvedId>,
    pub processed: DashSet<String>,
}

/// The place of the first id in `pending`, from `from` on, that was not claimed; the end where all were.
pub open spec fn first_unclaimed(pending: Seq<ResolvedId>, processed: Set<Seq<char>>, from: int) -> int
    decreases pending.len() - from,
{
    if from < 0 || from >= pending.len() {
        pending.len() as int
    } else if !processed.contains(pending[from].id@) {
        from
    } else {
        first_unclaimed(pending, processed, from + 1)
    }
}

/// The builder is done when every worker is idle and nothing waits: neither
/// an id to be read nor a report to be taken in.
pub open spec fn builder_is_done(idle: usize, pool_size: usize, queued: usize, reports: usize) -> bool {
    idle == pool_size && queued == 0 && reports == 0
}

/// Whether the builder is done.
pub fn is_finished(idle: usize, pool_size: usize, queued: usize, reports: usize) -> (r: bool)
    ensures
        r == builder_is_done(idle, pool_size, queued, reports),
{
    idle == pool_size && queued == 0 && reports == 0
}

/// The failure of a module that could not be loaded. A module that is
/// missing could not be resolved: an entry is named as it was given, any
/// other by the specifier and by the module that asked for it. A module that
/// is there and cannot be read fails with what the loader said.
pub open spec fn load_failure_of(
    id: String,
    asked: Option<(String, String)>,
    missing: bool,
    message: String,
) -> GraphError {
    if !missing {
        GraphError::IoError(message)
    } else {
        match asked {
            Some((source, importer)) => GraphError::Unresolved { source, importer },
            None => GraphError::EntryNotFound(id),
        }
    }
}

/// The failure of the module `id` that could not be loaded; `asked` holds
/// the specifier that led to it and the module that holds the specifier,
/// and is `None` for an entry.
pub fn load_failure(id: String, asked: Option<(String, String)>, missing: bool, message: String) -> (e:
    GraphError)
    ensures
        e == load_failure_of(id, asked, missing, message),
{
    if !missing {
        GraphError::IoError(message)
    } else {
        match asked {
            Some((source, importer)) => GraphError::Unresolved { source, importer },
            None => GraphError::EntryNotFound(id),
        }
    }
}

/// Takes in a failure that a worker reports: the first failure reported
/// stays the one that the build fails with, and nothing that waits is read
/// any more.
pub fn stop_on_failure<E>(first: &mut Option<E>, failure: E, queue: &mut JobQueue)
    ensures
        *final(first) == (match *old(first) {
            Some(f) => Some(f),
            None => Some(failure),
        }),
        final(queue).waiting().len() == 0,
        final(queue).claimed() == old(queue).claimed(),
{
    if first.is_none() {
        *first = Some(failure);
    }
    queue.drop_waiting();
}

impl JobQueue {
    /// The ids that wait, the one that is looked at next first.
    pub open spec fn waiting(&self) -> Seq<ResolvedId> {
        waiting_of(self.pending)
    }

    /// The ids that were claimed.
    pub open spec fn claimed(&self) -> Set<Seq<char>> {
        id_set_of(self.processed)
    }

    pub fn new() -> (q: JobQueue)
        ensures
            q.waiting().len() == 0,
            q.claimed() == Set::<Seq<char>>::empty(),
    {
        JobQueue { pending: queue_new(), processed: id_set_new() }
    }

    /// Puts an id at the end of the queue.
    pub fn push(&mut self, id: ResolvedId)
        ensures
            final(self).waiting() == old(self).waiting().push(id),
            final(self).claimed() == old(self).claimed(),
    {
        queue_push(&mut self.pending, id);
    }

    /// Claims the first id of the queue that was not claimed before; the
    /// ids before it, which were, leave the queue with it.
    pub fn fetch_job(&mut self) -> (job: Option<ResolvedId>)
        ensures
            ({
                let at = first_unclaimed(old(self).waiting(), old(self).claimed(), 0);
                if at < old(self).waiting().len() {
                    &&& job == Some(old(self).waiting()[at])
                    &&& final(self).waiting() == old(self).waiting().subrange(
                        at + 1,
                        old(self).waiting().len() as int,
                    )
                    &&& final(self).claimed() == old(self).claimed().insert(
                        old(self).waiting()[at].id@,
                    )
                } else {
                    &&& job is None
                    &&& final(self).waiting().len() == 0
                    &&& final(self).claimed() == old(self).claimed()
                }
            }),
    {
        let ghost pending0 = self.waiting();
        let ghost processed0 = self.claimed();
        let ghost mut skipped: int = 0;
        loop
            invariant
                0 <= skipped <= pending0.len(),
                pending0 == old(self).waiting(),
                processed0 == old(self).claimed(),
                self.claimed() == processed0,
                self.waiting() == pending0.subrange(skipped, pending0.len() as int),
                first_unclaimed(pending0, processed0, skipped) == first_unclaimed(
                    pending0,
                    processed0,
                    0,
                ),
            decreases pending0.len() - skipped,
        {
            match queue_pop(&mut self.pending) {
                Some(job) => {
                    assert(job == pending0[skipped]);
                    proof {
                        assert(self.waiting() =~= pending0.subrange(
                            skipped + 1,
                            pending0.len() as int,
                        ));
                    }
                    if id_set_insert(&mut self.processed, job.id.clone()) {
                        return Some(job);
                    }
                    proof {
                        assert(self.claimed() =~= processed0);
                        skipped = skipped + 1;
                    }
                },
                None => {
                    return None;
                },
            }
        }
    }

    /// Drops every id that waits; what was claimed stays claimed.
    pub fn drop_waiting(&mut self)
        ensures
            final(self).waiting().len() == 0,
            final(self).claimed() == old(self).claimed(),
    {
        loop
            invariant
                self.claimed() == old(self).claimed(),
            decreases self.waiting().len(),
        {
            if queue_pop(&mut self.pending).is_none() {
                return ;
            }
        }
    }
}

impl RelationInfo {
    /// A copy of the relation.
    pub fn duplicate(&self) -> (r: RelationInfo)
        ensures
            r.deep_view() == self.deep_view(),
    {
        let mut names: Vec<Specifier> = Vec::new();
        let mut i: usize = 0;
        while i < self.names.len()
            invariant
                i <= self.names@.len(),
                names@.len() == i,
                forall|j: int| 0 <= j < i ==> (#[trigger] names@[j]).deep_view() == self.names@[j].deep_view(),
            decreases self.names@.len() - i,
        {
            names.push(
                Specifier {
                    original: self.names[i].original.clone(),
                    used: self.names[i].used.clone(),
                    mark: self.names[i].mark,
                },
            );
            i += 1;
        }
        assert(names.deep_view() =~= self.names.deep_view());
        RelationInfo { source: self.source.clone(), names, order: self.order }
    }
}

/// What a specifier of a module names: what the module remembers for it,
/// else what the specifier resolves to as seen from the module.
pub open spec fn target_of(v: ModuleView, source: Seq<char>, cwd: Seq<char>) -> ResolvedIdView {
    match map_get(v.resolved_ids, source) {
        Some(r) => r,
        None => resolved(source, Some(v.id), cwd),
    }
}

impl Module {
    /// What a specifier of the module names. The answer is remembered.
    pub fn resolve_id(&mut self, dep_src: &String, cwd: &str) -> (r: ResolvedId)
        ensures
            r.deep_view() == target_of(old(self).deep_view(), dep_src@, cwd@),
            final(self).deep_view() == (ModuleView {
                resolved_ids: if old(self).deep_view().resolved_ids.contains_key(dep_src@) {
                    old(self).deep_view().resolved_ids
                } else {
                    old(self).deep_view().resolved_ids.insert(dep_src@, r.deep_view())
                },
                ..old(self).deep_view()
            }),
            forall|s: Seq<char>|
                #[trigger] target_of(final(self).deep_view(), s, cwd@) == target_of(
                    old(self).deep_view(),
                    s,
                    cwd@,
                ),
    {
        match resolved_get(&self.resolved_ids, dep_src) {
            Some(found) => found,
            None => {
                let r = resolve_id(dep_src.as_str(), Some(self.id.as_str()), false, cwd);
                resolved_insert(&mut self.resolved_ids, dep_src.clone(), r.duplicate());
                r
            },
        }
    }
}

/// The source that a declaration names, where it names one.
pub open spec fn source_of(item: ModuleItem) -> Option<Seq<char>> {
    match item {
        ModuleItem::ModuleDecl(ModuleDecl::Import(i)) => Some(i.src@),
        ModuleItem::ModuleDecl(ModuleDecl::ExportNamed(n)) => n.src.deep_view(),
        ModuleItem::ModuleDecl(ModuleDecl::ExportAll { src }) => Some(src@),
        _ => None,
    }
}

/// What the first `n` items of a module name, each resolved, in source order.
pub open spec fn dependencies_of(v: ModuleView, body: Seq<ModuleItem>, cwd: Seq<char>, n: int) -> Seq<
    ResolvedIdView,
>
    decreases n,
{
    if 0 < n <= body.len() {
        match source_of(body[n - 1]) {
            Some(s) => dependencies_of(v, body, cwd, n - 1).push(target_of(v, s, cwd)),
            None => dependencies_of(v, body, cwd, n - 1),
        }
    } else {
        Seq::empty()
    }
}

/// The modules that the imports and exports at the top of a module name,
/// before the module is scanned in full: they are what is read next.
pub fn pre_analyze_imported_module(module: &mut Module, body: &Vec<ModuleItem>, cwd: &str) -> (deps:
    Vec<ResolvedId>)
    ensures
        deps.deep_view() == dependencies_of(
            old(module).deep_view(),
            body@,
            cwd@,
            body@.len() as int,
        ),
        forall|s: Seq<char>|
            #[trigger] target_of(final(module).deep_view(), s, cwd@) == target_of(
                old(module).deep_view(),
                s,
                cwd@,
            ),
        final(module).deep_view() == (ModuleView {
            resolved_ids: final(module).deep_view().resolved_ids,
            ..old(module).deep_view()
        }),
{
    let ghost v0 = module.deep_view();
    let mut deps: Vec<ResolvedId> = Vec::new();
    assert(deps.deep_view() =~= dependencies_of(v0, body@, cwd@, 0));
    let mut i: usize = 0;
    while i < body.len()
        invariant
            i <= body@.len(),
            v0 == old(module).deep_view(),
            deps.deep_view() == dependencies_of(v0, body@, cwd@, i as int),
            forall|s: Seq<char>|
                #[trigger] target_of(module.deep_view(), s, cwd@) == target_of(v0, s, cwd@),
            module.deep_view() == (ModuleView {
                resolved_ids: module.deep_view().resolved_ids,
                ..v0
            }),
        decreases body@.len() - i,
    {
        let ghost before = deps.deep_view();
        let ghost mid = module.deep_view();
        let depended: Option<&String> = match &body[i] {
            ModuleItem::ModuleDecl(ModuleDecl::Import(import_decl)) => Some(&import_decl.src),
            ModuleItem::ModuleDecl(ModuleDecl::ExportNamed(node)) => match &node.src {
                Some(s) => Some(s),
                None => None,
            },
            ModuleItem::ModuleDecl(ModuleDecl::ExportAll { src }) => Some(src),
            _ => None,
        };
        match depended {
            Some(src) => {
                assert(source_of(body@[i as int]) == Some(src@));
                let r = module.resolve_id(src, cwd);
                assert(r.deep_view() == target_of(mid, src@, cwd@));
                deps.push(r);
                assert(deps.deep_view() =~= before.push(target_of(v0, src@, cwd@)));
            },
            None => {
                assert(source_of(body@[i as int]) is None);
            },
        }
        i += 1;
    }
    deps
}

/// Whether `msg` reports that the module `from` depends on the module `to` by an import with `info`.
pub open spec fn is_import_reference(msg: Msg, from: Seq<char>, to: Seq<char>, info: RelationInfoView) -> bool {
    msg matches Msg::DependencyReference(a, b, Rel::Import(i)) && a@ == from && b@ == to
        && i.deep_view() == info
}

/// Whether `msg` reports that the module `from` depends on the module `to` by a re-export with `info`.
pub open spec fn is_re_export_reference(
    msg: Msg,
    from: Seq<char>,
    to: Seq<char>,
    info: RelationInfoView,
) -> bool {
    msg matches Msg::DependencyReference(a, b, Rel::ReExport(i)) && a@ == from && b@ == to
        && i.deep_view() == info
}

/// Whether `msg` reports that the module `from` re-exports the module `to` whole, at place `order`.
pub open spec fn is_export_all_reference(msg: Msg, from: Seq<char>, to: Seq<char>, order: usize) -> bool {
    msg matches Msg::DependencyReference(a, b, Rel::ReExportAll(o)) && a@ == from && b@ == to && o
        == order
}

/// The reports of what a scanned module depends on: one for each source
/// that it imports from, then one for each that it re-exports names from,
/// then one for each that it re-exports whole; each group in source order.
pub fn dependency_messages(module: &mut Module, scanner: &Scanner, cwd: &str) -> (msgs: Vec<Msg>)
    ensures
        ({
            let v = old(module).deep_view();
            let s = scanner.deep_view();
            let a = s.import_infos.len();
            let b = s.re_export_infos.len();
            &&& msgs@.len() == a + b + s.export_all_sources.len()
            &&& forall|k: int|
                0 <= k < a ==> is_import_reference(
                    #[trigger] msgs@[k],
                    v.id,
                    target_of(v, s.import_infos[k].0, cwd@).id,
                    s.import_infos[k].1,
                )
            &&& forall|k: int|
                0 <= k < b ==> is_re_export_reference(
                    #[trigger] msgs@[a + k],
                    v.id,
                    target_of(v, s.re_export_infos[k].0, cwd@).id,
                    s.re_export_infos[k].1,
                )
            &&& forall|k: int|
                0 <= k < s.export_all_sources.len() ==> is_export_all_reference(
                    #[trigger] msgs@[a + b + k],
                    v.id,
                    target_of(v, s.export_all_sources[k].0, cwd@).id,
                    s.export_all_sources[k].1,
                )
        }),
        forall|s: Seq<char>|
            #[trigger] target_of(final(module).deep_view(), s, cwd@) == target_of(
                old(module).deep_view(),
                s,
                cwd@,
            ),
        final(module).deep_view() == (ModuleView {
            resolved_ids: final(module).deep_view().resolved_ids,
            ..old(module).deep_view()
        }),
{
    let ghost v = module.deep_view();
    let ghost s = scanner.deep_view();
    let mut msgs: Vec<Msg> = Vec::new();
    let a = scanner.import_infos.entries.len();
    let mut i: usize = 0;
    while i < a
        invariant
            i <= a,
            a == s.import_infos.len(),
            s == scanner.deep_view(),
            v == old(module).deep_view(),
            msgs@.len() == i,
            forall|x: Seq<char>|
                #[trigger] target_of(module.deep_view(), x, cwd@) == target_of(v, x, cwd@),
            module.deep_view() == (ModuleView {
                resolved_ids: module.deep_view().resolved_ids,
                ..v
            }),
            forall|k: int|
                0 <= k < i ==> is_import_reference(
                    #[trigger] msgs@[k],
                    v.id,
                    target_of(v, s.import_infos[k].0, cwd@).id,
                    s.import_infos[k].1,
                ),
        decreases a - i,
    {
        let ghost mid = module.deep_view();
        assert(s.import_infos[i as int] == (
            scanner.import_infos.entries@[i as int].0@,
            scanner.import_infos.entries@[i as int].1.deep_view(),
        ));
        let resolved_id = module.resolve_id(&scanner.import_infos.entries[i].0, cwd);
        assert(resolved_id.deep_view() == target_of(mid, s.import_infos[i as int].0, cwd@));
        msgs.push(
            Msg::DependencyReference(
                module.id.clone(),
                resolved_id.id,
                Rel::Import(scanner.import_infos.entries[i].1.duplicate()),
            ),
        );
        i += 1;
    }
    let b = scanner.re_export_infos.entries.len();
    let mut j: usize = 0;
    while j < b
        invariant
            j <= b,
            a == s.import_infos.len(),
            b == s.re_export_infos.len(),
            s == scanner.deep_view(),
            v == old(module).deep_view(),
            msgs@.len() == a + j,
            forall|x: Seq<char>|
                #[trigger] target_of(module.deep_view(), x, cwd@) == target_of(v, x, cwd@),
            module.deep_view() == (ModuleView {
                resolved_ids: module.deep_view().resolved_ids,
                ..v
            }),
            forall|k: int|
                0 <= k < a ==> is_import_reference(
                    #[trigger] msgs@[k],
                    v.id,
                    target_of(v, s.import_infos[k].0, cwd@).id,
                    s.import_infos[k].1,
                ),
            forall|k: int|
                0 <= k < j ==> is_re_export_reference(
                    #[trigger] msgs@[a + k],
                    v.id,
                    target_of(v, s.re_export_infos[k].0, cwd@).id,
                    s.re_export_infos[k].1,
                ),
        decreases b - j,
    {
        let ghost mid = module.deep_view();
        assert(s.re_export_infos[j as int] == (
            scanner.re_export_infos.entries@[j as int].0@,
            scanner.re_export_infos.entries@[j as int].1.deep_view(),
        ));
        let resolved_id = module.resolve_id(&scanner.re_export_infos.entries[j].0, cwd);
        assert(resolved_id.deep_view() == target_of(mid, s.re_export_infos[j as int].0, cwd@));
        msgs.push(
            Msg::DependencyReference(
                module.id.clone(),
                resolved_id.id,
                Rel::ReExport(scanner.re_export_infos.entries[j].1.duplicate()),
            ),
        );
        j += 1;
    }
    let c = scanner.export_all_sources.len();
    let mut k: usize = 0;
    while k < c
        invariant
            k <= c,
            a == s.import_infos.len(),
            b == s.re_export_infos.len(),
            c == s.export_all_sources.len(),
            s == scanner.deep_view(),
            v == old(module).deep_view(),
            msgs@.len() == a + b + k,
            forall|x: Seq<char>|
                #[trigger] target_of(module.deep_view(), x, cwd@) == target_of(v, x, cwd@),
            module.deep_view() == (ModuleView {
                resolved_ids: module.deep_view().resolved_ids,
                ..v
            }),
            forall|n: int|
                0 <= n < a ==> is_import_reference(
                    #[trigger] msgs@[n],
                    v.id,
                    target_of(v, s.import_infos[n].0, cwd@).id,
                    s.import_infos[n].1,
                ),
            forall|n: int|
                0 <= n < b ==> is_re_export_reference(
                    #[trigger] msgs@[a + n],
                    v.id,
                    target_of(v, s.re_export_infos[n].0, cwd@).id,
                    s.re_export_infos[n].1,
                ),
            forall|n: int|
                0 <= n < k ==> is_export_all_reference(
                    #[trigger] msgs@[a + b + n],
                    v.id,
                    target_of(v, s.export_all_sources[n].0, cwd@).id,
                    s.export_all_sources[n].1,
                ),
        decreases c - k,
    {
        let ghost mid = module.deep_view();
        assert(s.export_all_sources[k as int] == (
            scanner.export_all_sources@[k as int].0@,
            scanner.export_all_sources@[k as int].1,
        ));
        let resolved_id = module.resolve_id(&scanner.export_all_sources[k].0, cwd);
        assert(resolved_id.deep_view() == target_of(mid, s.export_all_sources[k as int].0, cwd@));
        msgs.push(
            Msg::DependencyReference(
                module.id.clone(),
                resolved_id.id,
                Rel::ReExportAll(scanner.export_all_sources[k].1),
            ),
        );
        k += 1;
    }
    msgs
}

/// The names among the first `n` that a scope declares which are imports,
/// or which are not, as `imported` asks; each with its mark.
pub open spec fn symbols_of_kind(declared: Seq<(Seq<char>, Binding)>, imported: bool, n: int) -> Seq<
    (Seq<char>, Mark),
>
    decreases n,
{
    if 0 < n <= declared.len() {
        if (declared[n - 1].1.kind == BindType::Import) == imported {
            symbols_of_kind(declared, imported, n - 1).push(
                (declared[n - 1].0, declared[n - 1].1.mark),
            )
        } else {
            symbols_of_kind(declared, imported, n - 1)
        }
    } else {
        Seq::empty()
    }
}

/// The names that the module's own scope declares, parted into those that
/// the module declares itself and those that it imports.
pub fn partition_symbols(root: &Scope) -> (r: (NameMap<Mark>, NameMap<Mark>))
    ensures
        r.0.deep_view() == symbols_of_kind(
            root.deep_view().declared,
            false,
            root.deep_view().declared.len() as int,
        ),
        r.1.deep_view() == symbols_of_kind(
            root.deep_view().declared,
            true,
            root.deep_view().declared.len() as int,
        ),
{
    let ghost all = root.deep_view().declared;
    let mut declared: NameMap<Mark> = NameMap::new();
    let mut imported: NameMap<Mark> = NameMap::new();
    let mut i: usize = 0;
    while i < root.declared_symbols.entries.len()
        invariant
            i <= root.declared_symbols.entries@.len(),
            all == root.deep_view().declared,
            declared.deep_view() == symbols_of_kind(all, false, i as int),
            imported.deep_view() == symbols_of_kind(all, true, i as int),
        decreases root.declared_symbols.entries@.len() - i,
    {
        assert(all[i as int] == (
            root.declared_symbols.entries@[i as int].0@,
            root.declared_symbols.entries@[i as int].1,
        ));
        let name = root.declared_symbols.entries[i].0.clone();
        let binding = root.declared_symbols.entries[i].1;
        match binding.kind {
            BindType::Import => {
                imported.append(name, binding.mark);
            },
            _ => {
                declared.append(name, binding.mark);
            },
        }
        i += 1;
    }
    (declared, imported)
}

/// The sources of `export * from`, without their places.
pub open spec fn sources_of(all: Seq<(Seq<char>, usize)>) -> Seq<Seq<char>> {
    Seq::new(all.len(), |i: int| all[i].0)
}

/// The module as the scanner found it, before its exports are bound: the
/// exports and the names come from the scanner, the statements from the
/// items and what the scanner found in each.
pub open spec fn is_scanned(v: ModuleView, v0: ModuleView, s: crate::scanner::ScannerView, body: Seq<ModuleItem>, infos: Seq<ModuleItemInfo>) -> bool {
    &&& v == (ModuleView {
        local_exports: s.local_exports,
        re_exports: s.re_exports,
        re_export_all_sources: sources_of(s.export_all_sources),
        declared_symbols: symbols_of_kind(s.stacks[0].declared, false, s.stacks[0].declared.len() as int),
        imported_symbols: symbols_of_kind(s.stacks[0].declared, true, s.stacks[0].declared.len() as int),
        statements: v.statements,
        definitions: definitions_of(v.statements, paired_len(body, infos) as int),
        ..v0
    })
    &&& v.statements.len() == paired_len(body, infos)
    &&& forall|i: int|
        0 <= i < paired_len(body, infos) ==> {
            let st = #[trigger] v.statements[i];
            &&& st.node == body[i]
            &&& !st.included
            &&& st.declared == infos[i].declared
            &&& st.reads == infos[i].reads
            &&& st.writes == infos[i].writes
            &&& st.side_effect == infos[i].side_effect
            &&& st.export_mark == infos[i].export_mark
        }
}

/// Makes a module of what the scanner found: its exports, its names and
/// its statements are taken over, every local export is united with the
/// binding it refers to, the exports are entered, and the namespace gets a
/// mark of its own. Fails where a local export refers to a name that the
/// module does not bind; the namespace then has no mark yet.
pub fn finish_module(
    module: &mut Module,
    scanner: Scanner,
    body: Vec<ModuleItem>,
    symbol_box: &mut SymbolBox,
) -> (r: Result<(), GraphError>)
    requires
        scanner.stacks@.len() > 0,
        old(symbol_box).wf(),
        old(symbol_box).len() < u32::MAX,
    ensures
        final(symbol_box).wf(),
        ({
            let v0 = old(module).deep_view();
            let v = final(module).deep_view();
            let s = scanner.deep_view();
            let scanned = ModuleView { exports: v0.exports, namespace: v0.namespace, ..v };
            let n = scanned.local_exports.len() as int;
            &&& is_scanned(scanned, v0, s, body@, scanner.statement_infos@)
            &&& match r {
                Ok(_) => {
                    let pairs = local_pairs(scanned, n);
                    &&& final(symbol_box).len() == old(symbol_box).len() + 1
                    &&& v.namespace == (crate::module::Namespace {
                        included: v0.namespace.included,
                        mark: old(symbol_box).len() as Mark,
                    })
                    &&& v.exports == with_re_exports(
                        with_local_exports(v0.exports, scanned.local_exports, n),
                        scanned.re_exports,
                        scanned.re_exports.len() as int,
                    )
                    &&& forall|i: int|
                        0 <= i < n ==> !is_unknown_export(
                            scanned,
                            #[trigger] scanned.local_exports[i].1,
                        )
                    &&& forall|x: Mark, y: Mark|
                        #[trigger] final(symbol_box).same(x, y) == old(symbol_box).united_all(
                            pairs,
                            pairs.len() as int,
                            x,
                            y,
                        )
                },
                Err(GraphError::UnknownExport { name, module: id }) => {
                    &&& final(symbol_box).len() == old(symbol_box).len()
                    &&& v.exports == v0.exports
                    &&& v.namespace == v0.namespace
                    &&& id@ == v0.id
                    &&& exists|i: int|
                        0 <= i < n && is_unknown_export(scanned, #[trigger] scanned.local_exports[i].1)
                            && name@ == referenced_name(scanned.local_exports[i].1)
                },
                Err(_) => false,
            }
        }),
{
    let ghost v0 = module.deep_view();
    let ghost s = scanner.deep_view();
    let Scanner { stacks, local_exports, re_exports, export_all_sources, statement_infos, .. } =
        scanner;
    assert(s.stacks[0] == stacks@[0].deep_view());
    let (declared, imported) = partition_symbols(&stacks[0]);
    let mut sources: Vec<String> = Vec::new();
    let mut i: usize = 0;
    while i < export_all_sources.len()
        invariant
            i <= export_all_sources@.len(),
            sources@.len() == i,
            forall|j: int| 0 <= j < i ==> (#[trigger] sources@[j])@ == export_all_sources@[j].0@,
        decreases export_all_sources@.len() - i,
    {
        sources.push(export_all_sources[i].0.clone());
        i += 1;
    }
    assert(sources.deep_view() =~= sources_of(s.export_all_sources)) by {
        assert forall|j: int| 0 <= j < sources@.len() implies sources.deep_view()[j] == sources_of(
            s.export_all_sources,
        )[j] by {
            assert(s.export_all_sources[j] == (export_all_sources@[j].0@, export_all_sources@[j].1));
        }
    }
    module.local_exports = local_exports;
    module.re_exports = re_exports;
    module.re_export_all_sources = sources;
    module.declared_symbols = declared;
    module.imported_symbols = imported;
    module.set_statements(body, statement_infos);
    let ghost scanned = module.deep_view();
    match module.bind_local_references(symbol_box) {
        Ok(_) => {},
        Err(e) => {
            return Err(e);
        },
    }
    module.link_local_exports();
    let ghost bound = *symbol_box;
    module.namespace.mark = symbol_box.new_mark();
    proof {
        let v = module.deep_view();
        let again = ModuleView { exports: v0.exports, namespace: v0.namespace, ..v };
        assert(again == scanned);
        let pairs = local_pairs(scanned, scanned.local_exports.len() as int);
        assert forall|x: Mark, y: Mark| #[trigger]
            symbol_box.same(x, y) == old(symbol_box).united_all(
                pairs,
                pairs.len() as int,
                x,
                y,
            ) by {
            assert(symbol_box.root(x) == bound.root(x));
            assert(symbol_box.root(y) == bound.root(y));
            assert(bound.same(x, y) == old(symbol_box).united_all(pairs, pairs.len() as int, x, y));
        }
    }
    Ok(())
}

} // verus!
