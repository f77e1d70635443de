//! The scanner's state and its decisions: where a declaration lands, what a
//! use resolves to, and what each top-level item declares, reads and writes.
//! The walk over the syntax tree calls in here node by node.

pub mod rel;
pub mod scope;

use vstd::prelude::*;
use crate::ast::{views_of, Ident, ModuleItem, Pat, collect_names_of_pat, pat_names};
use crate::names::{assoc_put, NameMap};
use crate::side_effect::{detect_side_effect, effect_of_item, SideEffect};
use crate::symbol_box::{Mark, SymbolBox, EMPTY_MARK};
use self::rel::{
    DynImportDesc, DynImportDescView, ExportDesc, ExportDescView, ReExportDesc, ReExportDescView,
    RelationInfo, RelationInfoView,
};
use self::scope::{
    declare_target, nearest_fn, stack_declare, stack_resolve, BindType, Binding, Scope, ScopeKind,
    ScopeView,
};

verus! {

/// What the next identifier is: a binding of some kind, a use, or a label.
#[derive(Clone, Copy, Debug, PartialEq, Eq, Structural)]
pub enum IdentType {
    Binding(BindType),
    Ref,
    Label,
}

/// What one top-level item declares, reads and writes.
pub struct ModuleItemInfo {
    pub declared: NameMap<Mark>,
    pub reads: Vec<Mark>,
    pub writes: Vec<Mark>,
    pub side_effect: Option<SideEffect>,
    pub export_mark: Option<Mark>,
}

pub ghost struct ModuleItemInfoView {
    pub declared: Seq<(Seq<char>, Mark)>,
    pub reads: Seq<Mark>,
    pub writes: Seq<Mark>,
    pub side_effect: Option<SideEffect>,
    pub export_mark: Option<Mark>,
}

impl DeepView for ModuleItemInfo {
    type V = ModuleItemInfoView;

    open spec fn deep_view(&self) -> ModuleItemInfoView {
        ModuleItemInfoView {
            declared: self.declared.deep_view(),
            reads: self.reads@,
            writes: self.writes@,
            side_effect: self.side_effect,
            export_mark: self.export_mark,
        }
    }
}

/// The info of an item of which nothing is known yet but its tag.
pub open spec fn fresh_info(side_effect: Option<SideEffect>) -> ModuleItemInfoView {
    ModuleItemInfoView {
        declared: Seq::empty(),
        reads: Seq::empty(),
        writes: Seq::empty(),
        side_effect,
        export_mark: None,
    }
}

/// `marks` with `m` added, unless it is there already.
pub open spec fn with_mark(marks: Seq<Mark>, m: Mark) -> Seq<Mark> {
    if marks.contains(m) {
        marks
    } else {
        marks.push(m)
    }
}

/// Adds `m` to `marks` unless it is there already.
pub fn insert_mark(marks: &mut Vec<Mark>, m: Mark)
    ensures
        final(marks)@ == with_mark(old(marks)@, m),
{
    let mut i: usize = 0;
    while i < marks.len()
        invariant
            i <= marks.len(),
            marks@ == old(marks)@,
            forall|j: int| 0 <= j < i ==> marks@[j] != m,
        decreases marks.len() - i,
    {
        if marks[i] == m {
            return ;
        }
        i += 1;
    }
    marks.push(m);
}

pub struct Scanner {
    pub stacks: Vec<Scope>,
    pub ident_type: IdentType,
    /// One entry for each source that an `import` names, in the order of first sight.
    pub import_infos: NameMap<RelationInfo>,
    /// One entry for each source that an `export .. from` names, in the order of first sight.
    pub re_export_infos: NameMap<RelationInfo>,
    pub local_exports: NameMap<ExportDesc>,
    pub re_exports: NameMap<ReExportDesc>,
    /// The sources of `export * from`, each with its order.
    pub export_all_sources: Vec<(String, usize)>,
    pub dynamic_imports: Vec<DynImportDesc>,
    /// The order that the next source seen for the first time gets.
    pub cur_relation_order: usize,
    pub statement_infos: Vec<ModuleItemInfo>,
    /// The info of the item that is being walked.
    pub current: ModuleItemInfo,
}

pub ghost struct ScannerView {
    pub stacks: Seq<ScopeView>,
    pub ident_type: IdentType,
    pub import_infos: Seq<(Seq<char>, RelationInfoView)>,
    pub re_export_infos: Seq<(Seq<char>, RelationInfoView)>,
    pub local_exports: Seq<(Seq<char>, ExportDescView)>,
    pub re_exports: Seq<(Seq<char>, ReExportDescView)>,
    pub export_all_sources: Seq<(Seq<char>, usize)>,
    pub dynamic_imports: Seq<DynImportDescView>,
    pub cur_relation_order: usize,
    pub statement_infos: Seq<ModuleItemInfoView>,
    pub current: ModuleItemInfoView,
}

impl DeepView for Scanner {
    type V = ScannerView;

    open spec fn deep_view(&self) -> ScannerView {
        ScannerView {
            stacks: self.stacks.deep_view(),
            ident_type: self.ident_type,
            import_infos: self.import_infos.deep_view(),
            re_export_infos: self.re_export_infos.deep_view(),
            local_exports: self.local_exports.deep_view(),
            re_exports: self.re_exports.deep_view(),
            export_all_sources: self.export_all_sources.deep_view(),
            dynamic_imports: self.dynamic_imports.deep_view(),
            cur_relation_order: self.cur_relation_order,
            statement_infos: self.statement_infos.deep_view(),
            current: self.current.deep_view(),
        }
    }
}

/// The state after `name` was declared with binding `b`: the scope that the
/// kind selects has the name, and so has the current item where that scope
/// is the module's own.
pub open spec fn after_declare(v: ScannerView, name: Seq<char>, b: Binding) -> ScannerView {
    let top_level = declare_target(v.stacks, b.kind) == 0;
    ScannerView {
        stacks: stack_declare(v.stacks, name, b),
        current: if top_level {
            ModuleItemInfoView { declared: assoc_put(v.current.declared, name, b.mark), ..v.current }
        } else {
            v.current
        },
        ..v
    }
}

/// The state after the first `n` of `names` were declared with the marks `first`, `first + 1`, ...
pub open spec fn after_declare_all(
    v: ScannerView,
    names: Seq<Seq<char>>,
    kind: BindType,
    first: int,
    n: int,
) -> ScannerView
    decreases n,
{
    if 0 < n <= names.len() {
        after_declare(
            after_declare_all(v, names, kind, first, n - 1),
            names[n - 1],
            Binding { mark: (first + n - 1) as Mark, kind },
        )
    } else {
        v
    }
}

/// The mark that a use of `name` gets: that of the visible binding, or the empty mark.
pub open spec fn resolved_mark(v: ScannerView, name: Seq<char>) -> Mark {
    match stack_resolve(v.stacks, name, v.stacks.len() - 1) {
        Some(b) => b.mark,
        None => EMPTY_MARK,
    }
}

/// The state after a use of a name that resolved to `mark`.
pub open spec fn after_reference(v: ScannerView, mark: Mark, is_write: bool) -> ScannerView {
    if mark == EMPTY_MARK {
        v
    } else {
        ScannerView {
            current: ModuleItemInfoView {
                reads: with_mark(v.current.reads, mark),
                writes: if is_write {
                    with_mark(v.current.writes, mark)
                } else {
                    v.current.writes
                },
                ..v.current
            },
            ..v
        }
    }
}

/// What the walk does with the identifiers of a role: it declares them,
/// resolves them, or leaves them alone.
pub open spec fn ident_type_of_role(role: self::scope::IdentRole) -> IdentType {
    match self::scope::binding_of_role(role) {
        Some(kind) => IdentType::Binding(kind),
        None => if role == self::scope::IdentRole::Label {
            IdentType::Label
        } else {
            IdentType::Ref
        },
    }
}

/// What the walk does with the identifiers of a role.
pub fn ident_type_for(role: self::scope::IdentRole) -> (r: IdentType)
    ensures
        r == ident_type_of_role(role),
{
    match self::scope::bind_type_of(role) {
        Some(kind) => IdentType::Binding(kind),
        None => match role {
            self::scope::IdentRole::Label => IdentType::Label,
            _ => IdentType::Ref,
        },
    }
}

impl Scanner {
    /// A scanner at the start of a module, with `scope` as the module's own scope.
    pub fn new(scope: Scope) -> (s: Scanner)
        ensures
            s.deep_view() == (ScannerView {
                stacks: seq![scope.deep_view()],
                ident_type: IdentType::Ref,
                import_infos: Seq::empty(),
                re_export_infos: Seq::empty(),
                local_exports: Seq::empty(),
                re_exports: Seq::empty(),
                export_all_sources: Seq::empty(),
                dynamic_imports: Seq::empty(),
                cur_relation_order: 0,
                statement_infos: Seq::empty(),
                current: fresh_info(None),
            }),
    {
        let mut stacks: Vec<Scope> = Vec::new();
        stacks.push(scope);
        let s = Scanner {
            stacks,
            ident_type: IdentType::Ref,
            import_infos: NameMap::new(),
            re_export_infos: NameMap::new(),
            local_exports: NameMap::new(),
            re_exports: NameMap::new(),
            export_all_sources: Vec::new(),
            dynamic_imports: Vec::new(),
            cur_relation_order: 0,
            statement_infos: Vec::new(),
            current: ModuleItemInfo {
                declared: NameMap::new(),
                reads: Vec::new(),
                writes: Vec::new(),
                side_effect: None,
                export_mark: None,
            },
        };
        proof {
            assert(s.stacks.deep_view() =~= seq![scope.deep_view()]);
            assert(s.export_all_sources.deep_view() =~= Seq::empty());
            assert(s.dynamic_imports.deep_view() =~= Seq::empty());
            assert(s.statement_infos.deep_view() =~= Seq::empty());
        }
        s
    }

    /// The innermost scope.
    pub fn get_cur_scope(&self) -> (r: &Scope)
        requires
            self.stacks@.len() > 0,
        ensures
            *r == self.stacks@[self.stacks@.len() - 1],
    {
        &self.stacks[self.stacks.len() - 1]
    }

    /// The module's own scope, once the walk is over.
    pub fn into_cur_scope(self) -> (r: Scope)
        requires
            self.stacks@.len() > 0,
        ensures
            r == self.stacks@[0],
    {
        let mut stacks = self.stacks;
        stacks.swap_remove(0)
    }

    /// Opens a scope.
    pub fn push_scope(&mut self, kind: ScopeKind)
        ensures
            final(self).deep_view() == (ScannerView {
                stacks: old(self).deep_view().stacks.push(
                    ScopeView { kind, declared: Seq::empty() },
                ),
                ..old(self).deep_view()
            }),
    {
        let scope = Scope::new(kind);
        self.stacks.push(scope);
        assert(self.stacks.deep_view() =~= old(self).stacks.deep_view().push(scope.deep_view()));
    }

    /// Closes the innermost scope; the module's own scope stays.
    pub fn pop_scope(&mut self)
        ensures
            final(self).deep_view() == (ScannerView {
                stacks: if old(self).stacks@.len() > 1 {
                    old(self).deep_view().stacks.drop_last()
                } else {
                    old(self).deep_view().stacks
                },
                ..old(self).deep_view()
            }),
    {
        if self.stacks.len() > 1 {
            self.stacks.pop();
            assert(self.stacks.deep_view() =~= old(self).stacks.deep_view().drop_last());
        }
    }

    /// The position of the scope that receives a declaration of the given kind.
    fn target_of(&self, kind: BindType) -> (t: usize)
        requires
            self.stacks@.len() > 0,
        ensures
            t == declare_target(self.deep_view().stacks, kind),
            t < self.stacks@.len(),
    {
        let last = self.stacks.len() - 1;
        let hoist = match kind {
            BindType::Var => true,
            BindType::Param => true,
            _ => false,
        };
        if !hoist {
            return last;
        }
        let mut i: usize = last;
        while i > 0 && !self.stacks[i].is_fn()
            invariant
                i <= last,
                last == self.stacks@.len() - 1,
                nearest_fn(self.deep_view().stacks, i as int) == nearest_fn(
                    self.deep_view().stacks,
                    last as int,
                ),
            decreases i,
        {
            assert(self.deep_view().stacks[i as int].kind == self.stacks@[i as int].kind);
            i -= 1;
        }
        assert(self.deep_view().stacks[i as int].kind == self.stacks@[i as int].kind);
        i
    }

    /// Declares `name` under a mark of its own and returns the mark.
    pub fn declare_name(&mut self, symbol_box: &mut SymbolBox, name: &String, kind: BindType) -> (mark:
        Mark)
        requires
            old(self).stacks@.len() > 0,
            old(symbol_box).wf(),
            old(symbol_box).len() < u32::MAX,
        ensures
            mark as nat == old(symbol_box).len(),
            final(symbol_box).wf(),
            final(symbol_box).len() == old(symbol_box).len() + 1,
            forall|x: Mark| #[trigger] final(symbol_box).root(x) == old(symbol_box).root(x),
            final(self).deep_view() == after_declare(
                old(self).deep_view(),
                name@,
                Binding { mark, kind },
            ),
            final(self).stacks@.len() == old(self).stacks@.len(),
    {
        let mark = symbol_box.new_mark();
        let t = self.target_of(kind);
        let ghost before = self.deep_view();
        self.stacks[t].declared_symbols.insert(name.clone(), Binding { mark, kind });
        if t == 0 {
            self.current.declared.insert(name.clone(), mark);
        }
        proof {
            assert(self.stacks.deep_view() =~= stack_declare(
                before.stacks,
                name@,
                Binding { mark, kind },
            ));
        }
        mark
    }

    /// Declares the identifier and stamps its mark on it.
    pub fn declare(&mut self, symbol_box: &mut SymbolBox, id: &mut Ident, kind: BindType)
        requires
            old(self).stacks@.len() > 0,
            old(symbol_box).wf(),
            old(symbol_box).len() < u32::MAX,
        ensures
            final(id).mark as nat == old(symbol_box).len(),
            final(id).sym == old(id).sym,
            final(symbol_box).wf(),
            final(symbol_box).len() == old(symbol_box).len() + 1,
            forall|x: Mark| #[trigger] final(symbol_box).root(x) == old(symbol_box).root(x),
            final(self).deep_view() == after_declare(
                old(self).deep_view(),
                old(id).sym@,
                Binding { mark: final(id).mark, kind },
            ),
            final(self).stacks@.len() == old(self).stacks@.len(),
    {
        let mark = self.declare_name(symbol_box, &id.sym, kind);
        id.mark = mark;
    }

    /// Declares every name that `pat` binds, in source order, and returns their marks.
    pub fn declare_pat(&mut self, symbol_box: &mut SymbolBox, pat: &Pat, kind: BindType) -> (marks:
        Vec<Mark>)
        requires
            old(self).stacks@.len() > 0,
            old(symbol_box).wf(),
            old(symbol_box).len() + pat_names(*pat).len() <= u32::MAX,
        ensures
            marks@.len() == pat_names(*pat).len(),
            forall|k: int| 0 <= k < marks@.len() ==> marks@[k] as int == old(symbol_box).len() + k,
            final(symbol_box).wf(),
            final(symbol_box).len() == old(symbol_box).len() + pat_names(*pat).len(),
            forall|x: Mark| #[trigger] final(symbol_box).root(x) == old(symbol_box).root(x),
            final(self).deep_view() == after_declare_all(
                old(self).deep_view(),
                pat_names(*pat),
                kind,
                old(symbol_box).len() as int,
                pat_names(*pat).len() as int,
            ),
            final(self).stacks@.len() == old(self).stacks@.len(),
    {
        let names = collect_names_of_pat(pat);
        let ghost all = pat_names(*pat);
        let ghost first = symbol_box.len() as int;
        let ghost start = self.deep_view();
        let mut marks: Vec<Mark> = Vec::new();
        let mut k: usize = 0;
        assert(names@.len() == all.len());
        while k < names.len()
            invariant
                k <= names@.len(),
                names@.len() == all.len(),
                views_of(names@) == all,
                self.stacks@.len() == old(self).stacks@.len(),
                self.stacks@.len() > 0,
                symbol_box.wf(),
                symbol_box.len() == first + k,
                first + all.len() <= u32::MAX,
                forall|x: Mark| #[trigger] symbol_box.root(x) == old(symbol_box).root(x),
                marks@.len() == k,
                forall|j: int| 0 <= j < k ==> marks@[j] as int == first + j,
                self.deep_view() == after_declare_all(start, all, kind, first, k as int),
            decreases names@.len() - k,
        {
            assert(all[k as int] == names@[k as int]@);
            let m = self.declare_name(symbol_box, &names[k], kind);
            marks.push(m);
            k += 1;
        }
        marks
    }

    /// The mark of the binding of `name` that is visible here, or the empty mark.
    pub fn resolve_name(&self, name: &String) -> (mark: Mark)
        ensures
            mark == resolved_mark(self.deep_view(), name@),
    {
        let ghost stack = self.deep_view().stacks;
        let mut i: usize = self.stacks.len();
        while i > 0
            invariant
                i <= self.stacks@.len(),
                stack == self.deep_view().stacks,
                stack_resolve(stack, name@, i as int - 1) == stack_resolve(
                    stack,
                    name@,
                    stack.len() - 1,
                ),
            decreases i,
        {
            i -= 1;
            assert(stack[i as int].declared == self.stacks@[i as int].declared_symbols.deep_view());
            match self.stacks[i].declared_symbols.get(name) {
                Some(b) => {
                    return b.mark;
                },
                None => {},
            }
        }
        EMPTY_MARK
    }

    /// Stamps on a use the mark of the binding it refers to; a use that
    /// refers to no binding keeps the mark it has.
    pub fn resolve_ctxt_for_ident(&self, id: &mut Ident)
        ensures
            final(id).sym == old(id).sym,
            final(id).mark == (if resolved_mark(self.deep_view(), old(id).sym@) != EMPTY_MARK {
                resolved_mark(self.deep_view(), old(id).sym@)
            } else {
                old(id).mark
            }),
    {
        let m = self.resolve_name(&id.sym);
        if m != EMPTY_MARK {
            id.mark = m;
        }
    }

    /// The marks that the names of `pat` resolve to, in source order.
    pub fn resolve_ctxt_for_pat(&self, pat: &Pat) -> (marks: Vec<Mark>)
        ensures
            marks@.len() == pat_names(*pat).len(),
            forall|k: int|
                0 <= k < marks@.len() ==> marks@[k] == resolved_mark(
                    self.deep_view(),
                    #[trigger] pat_names(*pat)[k],
                ),
    {
        let names = collect_names_of_pat(pat);
        let ghost all = pat_names(*pat);
        let mut marks: Vec<Mark> = Vec::new();
        let mut k: usize = 0;
        while k < names.len()
            invariant
                k <= names@.len(),
                views_of(names@) == all,
                marks@.len() == k,
                forall|j: int|
                    0 <= j < k ==> marks@[j] == resolved_mark(self.deep_view(), #[trigger] all[j]),
            decreases names@.len() - k,
        {
            assert(all[k as int] == names@[k as int]@);
            let m = self.resolve_name(&names[k]);
            marks.push(m);
            k += 1;
        }
        marks
    }

    /// Records a use of the identifier in the current item: a read, and a
    /// write as well where it is assigned to. A use that resolves to no
    /// binding is not recorded.
    pub fn reference(&mut self, id: &mut Ident, is_write: bool)
        ensures
            final(id).sym == old(id).sym,
            final(id).mark == (if resolved_mark(old(self).deep_view(), old(id).sym@)
                != EMPTY_MARK {
                resolved_mark(old(self).deep_view(), old(id).sym@)
            } else {
                old(id).mark
            }),
            final(self).deep_view() == after_reference(
                old(self).deep_view(),
                resolved_mark(old(self).deep_view(), old(id).sym@),
                is_write,
            ),
    {
        let m = self.resolve_name(&id.sym);
        if m != EMPTY_MARK {
            id.mark = m;
            insert_mark(&mut self.current.reads, m);
            if is_write {
                insert_mark(&mut self.current.writes, m);
            }
        }
    }

    /// Sees to an identifier as the walk comes to it: a binding is declared,
    /// a use is resolved and recorded as a read, a label is left alone.
    pub fn visit_ident(&mut self, symbol_box: &mut SymbolBox, id: &mut Ident)
        requires
            old(self).stacks@.len() > 0,
            old(symbol_box).wf(),
            old(symbol_box).len() < u32::MAX,
        ensures
            final(symbol_box).wf(),
            final(id).sym == old(id).sym,
            match old(self).ident_type {
                IdentType::Binding(kind) => {
                    &&& final(id).mark as nat == old(symbol_box).len()
                    &&& final(symbol_box).len() == old(symbol_box).len() + 1
                    &&& forall|x: Mark| #[trigger] final(symbol_box).root(x) == old(symbol_box).root(x)
                    &&& final(self).deep_view() == after_declare(
                        old(self).deep_view(),
                        old(id).sym@,
                        Binding { mark: final(id).mark, kind },
                    )
                },
                IdentType::Ref => {
                    &&& *final(symbol_box) == *old(symbol_box)
                    &&& final(id).mark == (if resolved_mark(old(self).deep_view(), old(id).sym@)
                        != EMPTY_MARK {
                        resolved_mark(old(self).deep_view(), old(id).sym@)
                    } else {
                        old(id).mark
                    })
                    &&& final(self).deep_view() == after_reference(
                        old(self).deep_view(),
                        resolved_mark(old(self).deep_view(), old(id).sym@),
                        false,
                    )
                },
                IdentType::Label => {
                    &&& *final(symbol_box) == *old(symbol_box)
                    &&& *final(id) == *old(id)
                    &&& final(self).deep_view() == old(self).deep_view()
                },
            },
    {
        match self.ident_type {
            IdentType::Binding(kind) => {
                self.declare(symbol_box, id, kind);
            },
            IdentType::Ref => {
                self.reference(id, false);
            },
            IdentType::Label => {},
        }
    }

    /// Starts a top-level item: its info is empty but for its side-effect tag.
    pub fn begin_item(&mut self, item: &ModuleItem)
        ensures
            final(self).deep_view() == (ScannerView {
                current: fresh_info(effect_of_item(*item)),
                ..old(self).deep_view()
            }),
    {
        self.current = ModuleItemInfo {
            declared: NameMap::new(),
            reads: Vec::new(),
            writes: Vec::new(),
            side_effect: detect_side_effect(item),
            export_mark: None,
        };
    }

    /// Ends a top-level item: its info joins those of the items before it.
    pub fn end_item(&mut self)
        ensures
            final(self).deep_view() == (ScannerView {
                statement_infos: old(self).deep_view().statement_infos.push(
                    old(self).deep_view().current,
                ),
                current: fresh_info(None),
                ..old(self).deep_view()
            }),
    {
        let mut done = ModuleItemInfo {
            declared: NameMap::new(),
            reads: Vec::new(),
            writes: Vec::new(),
            side_effect: None,
            export_mark: None,
        };
        std::mem::swap(&mut self.current, &mut done);
        self.statement_infos.push(done);
        assert(self.statement_infos.deep_view() =~= old(self).statement_infos.deep_view().push(
            old(self).current.deep_view(),
        ));
    }
}

} // verus!
