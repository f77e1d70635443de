//! Rewriting: every identifier whose class has a name gets that name. A
//! shorthand property is written out first, so that its key stays, and an
//! import keeps the name it imports.

use vstd::prelude::*;
use vstd::string::*;
use crate::ast::{
    AssignTarget, Callee, Decl, DefaultDecl, ExportSpecifier, Expr, Ident, ImportSpecifier,
    ModuleDecl, ModuleExportName, ModuleItem, ObjectPatProp, Pat, Prop, PropName, Stmt,
    VarDeclarator,
};
use crate::renamer::{assignment_view, find_root_name, name_of_root};
use crate::symbol_box::{Mark, SymbolBox, EMPTY_MARK};

verus! {

/// The names that the classes were given, and the table that tells the class of a mark.
pub struct Renamer<'a> {
    pub mark_to_names: &'a Vec<(Mark, String)>,
    pub symbol_box: &'a SymbolBox,
}

impl<'a> Renamer<'a> {
    /// The assignment is unique and the table well formed.
    pub open spec fn wf(&self) -> bool {
        self.symbol_box.wf() && crate::renamer::is_unique(assignment_view(self.mark_to_names@))
    }

    /// The name that an identifier gets: that of its class where the class
    /// has one, else the one it has. An identifier that is bound nowhere keeps its name.
    pub open spec fn new_name(&self, id: Ident) -> Seq<char> {
        if id.mark == EMPTY_MARK {
            id.sym@
        } else {
            match name_of_root(assignment_view(self.mark_to_names@), self.symbol_box.root(id.mark)) {
                Some(n) => n,
                None => id.sym@,
            }
        }
    }

    pub open spec fn renamed_ident(&self, a: Ident, b: Ident) -> bool {
        a.mark == b.mark && a.sym@ == self.new_name(b)
    }

    pub open spec fn renamed_pat(&self, a: Pat, b: Pat) -> bool
        decreases b, 0nat,
    {
        match b {
            Pat::Ident(i) => a matches Pat::Ident(j) && self.renamed_ident(j, i),
            Pat::Array(elems) => a matches Pat::Array(after) && after@.len() == elems@.len()
                && self.renamed_pat_elems(after@, elems@, elems@.len() as int),
            Pat::Object(props) => a matches Pat::Object(after) && after@.len() == props@.len()
                && self.renamed_pat_props(after@, props@, props@.len() as int),
            Pat::Rest(inner) => a matches Pat::Rest(after) && self.renamed_pat(*after, *inner),
            Pat::Assign(left) => a matches Pat::Assign(after) && self.renamed_pat(*after, *left),
            Pat::Expr => a is Expr,
            Pat::Invalid => a is Invalid,
        }
    }

    pub open spec fn renamed_pat_elems(&self, a: Seq<Option<Pat>>, b: Seq<Option<Pat>>, n: int) -> bool
        decreases b, n,
    {
        if 0 < n <= b.len() && n <= a.len() {
            self.renamed_pat_elems(a, b, n - 1) && (match b[n - 1] {
                Some(p) => a[n - 1] matches Some(q) && self.renamed_pat(q, p),
                None => a[n - 1] is None,
            })
        } else {
            n <= 0
        }
    }

    pub open spec fn renamed_pat_props(&self, a: Seq<ObjectPatProp>, b: Seq<ObjectPatProp>, n: int) -> bool
        decreases b, n,
    {
        if 0 < n <= b.len() && n <= a.len() {
            self.renamed_pat_props(a, b, n - 1) && (match b[n - 1] {
                ObjectPatProp::KeyValue(p) => a[n - 1] matches ObjectPatProp::KeyValue(q)
                    && self.renamed_pat(q, p),
                ObjectPatProp::Assign(i) => a[n - 1] matches ObjectPatProp::Assign(j)
                    && self.renamed_ident(j, i),
                ObjectPatProp::Rest(p) => a[n - 1] matches ObjectPatProp::Rest(q)
                    && self.renamed_pat(q, p),
            })
        } else {
            n <= 0
        }
    }

    pub open spec fn renamed_expr(&self, a: Expr, b: Expr) -> bool
        decreases b, 0nat,
    {
        match b {
            Expr::Array(elems) => a matches Expr::Array(after) && after@.len() == elems@.len()
                && self.renamed_elems(after@, elems@, elems@.len() as int),
            Expr::Object(props) => a matches Expr::Object(after) && after@.len() == props@.len()
                && self.renamed_props(after@, props@, props@.len() as int),
            Expr::Update(arg) => a matches Expr::Update(after) && self.renamed_expr(*after, *arg),
            Expr::Bin(l, r) => a matches Expr::Bin(al, ar) && self.renamed_expr(*al, *l)
                && self.renamed_expr(*ar, *r),
            Expr::Assign(AssignTarget::Expr(t)) => a matches Expr::Assign(AssignTarget::Expr(at))
                && self.renamed_expr(*at, *t),
            Expr::Member(obj, prop) => a matches Expr::Member(ao, ap) && self.renamed_expr(
                *ao,
                *obj,
            ) && self.renamed_expr(*ap, *prop),
            Expr::Cond(t, c, e) => a matches Expr::Cond(at, ac, ae) && self.renamed_expr(*at, *t)
                && self.renamed_expr(*ac, *c) && self.renamed_expr(*ae, *e),
            Expr::Call(callee, args) => a matches Expr::Call(acallee, aargs) && (match callee {
                Callee::Expr(e) => acallee matches Callee::Expr(ae) && self.renamed_expr(*ae, *e),
                Callee::Super => acallee is Super,
                Callee::Import => acallee is Import,
            }) && aargs@.len() == args@.len() && self.renamed_exprs(
                aargs@,
                args@,
                args@.len() as int,
            ),
            Expr::Sequence(es) => a matches Expr::Sequence(after) && after@.len() == es@.len()
                && self.renamed_exprs(after@, es@, es@.len() as int),
            Expr::Ident(i) => a matches Expr::Ident(j) && self.renamed_ident(j, i),
            Expr::Tpl(es) => a matches Expr::Tpl(after) && after@.len() == es@.len()
                && self.renamed_exprs(after@, es@, es@.len() as int),
            Expr::Paren(inner) => a matches Expr::Paren(after) && self.renamed_expr(
                *after,
                *inner,
            ),
            Expr::OptChain(inner) => a matches Expr::OptChain(after) && self.renamed_expr(
                *after,
                *inner,
            ),
            _ => a == b,
        }
    }

    pub open spec fn renamed_exprs(&self, a: Seq<Expr>, b: Seq<Expr>, n: int) -> bool
        decreases b, n,
    {
        if 0 < n <= b.len() && n <= a.len() {
            self.renamed_exprs(a, b, n - 1) && self.renamed_expr(a[n - 1], b[n - 1])
        } else {
            n <= 0
        }
    }

    pub open spec fn renamed_elems(&self, a: Seq<Option<Expr>>, b: Seq<Option<Expr>>, n: int) -> bool
        decreases b, n,
    {
        if 0 < n <= b.len() && n <= a.len() {
            self.renamed_elems(a, b, n - 1) && (match b[n - 1] {
                Some(e) => a[n - 1] matches Some(f) && self.renamed_expr(f, e),
                None => a[n - 1] is None,
            })
        } else {
            n <= 0
        }
    }

    /// A shorthand property is written out: its key keeps the name and
    /// loses the mark, its value is the identifier renamed.
    pub open spec fn renamed_props(&self, a: Seq<Prop>, b: Seq<Prop>, n: int) -> bool
        decreases b, n,
    {
        if 0 < n <= b.len() && n <= a.len() {
            self.renamed_props(a, b, n - 1) && (match b[n - 1] {
                Prop::Shorthand(i) => a[n - 1] matches Prop::KeyValue(
                    PropName::Ident(key),
                    Expr::Ident(value),
                ) && key.sym@ == i.sym@ && key.mark == EMPTY_MARK && self.renamed_ident(value, i),
                Prop::KeyValue(name, e) => a[n - 1] matches Prop::KeyValue(aname, ae) && aname
                    == name && self.renamed_expr(ae, e),
                Prop::Other => a[n - 1] is Other,
            })
        } else {
            n <= 0
        }
    }

    /// The place of the name of the class of `mark` among the names given.
    fn name_index(&self, mark: Mark) -> (r: Option<usize>)
        requires
            self.wf(),
        ensures
            match r {
                Some(i) => i < self.mark_to_names@.len() && name_of_root(
                    assignment_view(self.mark_to_names@),
                    self.symbol_box.root(mark),
                ) == Some(self.mark_to_names@[i as int].1@),
                None => name_of_root(
                    assignment_view(self.mark_to_names@),
                    self.symbol_box.root(mark),
                ) is None,
            },
    {
        let root = self.symbol_box.find_root(mark);
        let r = find_root_name(self.mark_to_names, root);
        proof {
            match r {
                Some(i) => {
                    crate::renamer::lemma_name_of_root(
                        assignment_view(self.mark_to_names@),
                        i as int,
                    );
                },
                None => {},
            }
        }
        r
    }

    /// Gives an identifier the name of its class.
    pub fn rename_ident(&self, id: &mut Ident)
        requires
            self.wf(),
        ensures
            self.renamed_ident(*final(id), *old(id)),
    {
        if id.mark != EMPTY_MARK {
            match self.name_index(id.mark) {
                Some(i) => {
                    id.sym = self.mark_to_names[i].1.clone();
                },
                None => {},
            }
        }
    }

    /// Renames the identifiers that a pattern binds.
    #[verifier::loop_isolation(false)]
    pub fn rename_pat(&self, pat: &mut Pat)
        requires
            self.wf(),
        ensures
            self.renamed_pat(*final(pat), *old(pat)),
        decreases *old(pat),
    {
        match pat {
            Pat::Ident(i) => {
                self.rename_ident(i);
            },
            Pat::Array(elems) => {
                let ghost before = elems@;
                let ghost given = *elems;
                assert(*old(pat) == Pat::Array(given));
                let mut k: usize = 0;
                while k < elems.len()
                    invariant
                        k <= elems@.len(),
                        elems@.len() == before.len(),
                        before == given@,
                        self.renamed_pat_elems(elems@, before, k as int),
                        forall|j: int| k <= j < before.len() ==> elems@[j] == before[j],
                    decreases elems@.len() - k,
                {
                    let ghost mid = elems@;
                    assert(decreases_to!(*old(pat) => given[k as int]));
                    match &mut elems[k] {
                        Some(p) => {
                            self.rename_pat(p);
                        },
                        None => {},
                    }
                    proof {
                        self.lemma_pat_elems_keep(mid, elems@, before, k as int);
                    }
                    k += 1;
                }
            },
            Pat::Object(props) => {
                let ghost before = props@;
                let ghost given = *props;
                assert(*old(pat) == Pat::Object(given));
                let mut k: usize = 0;
                while k < props.len()
                    invariant
                        k <= props@.len(),
                        props@.len() == before.len(),
                        before == given@,
                        self.renamed_pat_props(props@, before, k as int),
                        forall|j: int| k <= j < before.len() ==> props@[j] == before[j],
                    decreases props@.len() - k,
                {
                    let ghost mid = props@;
                    assert(decreases_to!(*old(pat) => given[k as int]));
                    match &mut props[k] {
                        ObjectPatProp::KeyValue(p) => {
                            self.rename_pat(p);
                        },
                        ObjectPatProp::Assign(i) => {
                            self.rename_ident(i);
                        },
                        ObjectPatProp::Rest(p) => {
                            self.rename_pat(p);
                        },
                    }
                    proof {
                        self.lemma_pat_props_keep(mid, props@, before, k as int);
                    }
                    k += 1;
                }
            },
            Pat::Rest(inner) => {
                self.rename_pat(inner);
            },
            Pat::Assign(left) => {
                self.rename_pat(left);
            },
            Pat::Expr => {},
            Pat::Invalid => {},
        }
    }

    proof fn lemma_pat_elems_keep(
        &self,
        mid: Seq<Option<Pat>>,
        after: Seq<Option<Pat>>,
        before: Seq<Option<Pat>>,
        k: int,
    )
        requires
            self.renamed_pat_elems(mid, before, k),
            0 <= k,
            after.len() == mid.len(),
            forall|j: int| 0 <= j < k ==> after[j] == mid[j],
        ensures
            self.renamed_pat_elems(after, before, k),
        decreases k,
    {
        if 0 < k <= before.len() && k <= mid.len() {
            self.lemma_pat_elems_keep(mid, after, before, k - 1);
        }
    }

    proof fn lemma_pat_props_keep(
        &self,
        mid: Seq<ObjectPatProp>,
        after: Seq<ObjectPatProp>,
        before: Seq<ObjectPatProp>,
        k: int,
    )
        requires
            self.renamed_pat_props(mid, before, k),
            0 <= k,
            after.len() == mid.len(),
            forall|j: int| 0 <= j < k ==> after[j] == mid[j],
        ensures
            self.renamed_pat_props(after, before, k),
        decreases k,
    {
        if 0 < k <= before.len() && k <= mid.len() {
            self.lemma_pat_props_keep(mid, after, before, k - 1);
        }
    }

    proof fn lemma_exprs_keep(&self, mid: Seq<Expr>, after: Seq<Expr>, before: Seq<Expr>, k: int)
        requires
            self.renamed_exprs(mid, before, k),
            0 <= k,
            after.len() == mid.len(),
            forall|j: int| 0 <= j < k ==> after[j] == mid[j],
        ensures
            self.renamed_exprs(after, before, k),
        decreases k,
    {
        if 0 < k <= before.len() && k <= mid.len() {
            self.lemma_exprs_keep(mid, after, before, k - 1);
        }
    }

    proof fn lemma_elems_keep(
        &self,
        mid: Seq<Option<Expr>>,
        after: Seq<Option<Expr>>,
        before: Seq<Option<Expr>>,
        k: int,
    )
        requires
            self.renamed_elems(mid, before, k),
            0 <= k,
            after.len() == mid.len(),
            forall|j: int| 0 <= j < k ==> after[j] == mid[j],
        ensures
            self.renamed_elems(after, before, k),
        decreases k,
    {
        if 0 < k <= before.len() && k <= mid.len() {
            self.lemma_elems_keep(mid, after, before, k - 1);
        }
    }

    proof fn lemma_props_keep(&self, mid: Seq<Prop>, after: Seq<Prop>, before: Seq<Prop>, k: int)
        requires
            self.renamed_props(mid, before, k),
            0 <= k,
            after.len() == mid.len(),
            forall|j: int| 0 <= j < k ==> after[j] == mid[j],
        ensures
            self.renamed_props(after, before, k),
        decreases k,
    {
        if 0 < k <= before.len() && k <= mid.len() {
            self.lemma_props_keep(mid, after, before, k - 1);
        }
    }

    /// Renames the identifiers of each expression.
    #[verifier::loop_isolation(false)]
    fn rename_exprs(&self, es: &mut Vec<Expr>, Ghost(parent): Ghost<Expr>)
        requires
            self.wf(),
            decreases_to!(parent => *old(es)),
        ensures
            final(es)@.len() == old(es)@.len(),
            self.renamed_exprs(final(es)@, old(es)@, old(es)@.len() as int),
        decreases parent, 0nat,
    {
        let ghost given = *es;
        let ghost before = es@;
        let mut k: usize = 0;
        while k < es.len()
            invariant
                k <= es@.len(),
                es@.len() == before.len(),
                before == given@,
                self.renamed_exprs(es@, before, k as int),
                forall|j: int| k <= j < before.len() ==> es@[j] == before[j],
            decreases es@.len() - k,
        {
            let ghost mid = es@;
            assert(decreases_to!(parent => given[k as int]));
            self.rename_expr(&mut es[k]);
            proof {
                self.lemma_exprs_keep(mid, es@, before, k as int);
            }
            k += 1;
        }
    }

    /// Renames the identifiers of an expression; a shorthand property is written out.
    #[verifier::loop_isolation(false)]
    pub fn rename_expr(&self, expr: &mut Expr)
        requires
            self.wf(),
        ensures
            self.renamed_expr(*final(expr), *old(expr)),
        decreases *old(expr), 1nat,
    {
        let ghost whole = *expr;
        match expr {
            Expr::Array(elems) => {
                let ghost given = *elems;
                let ghost before = elems@;
                let mut k: usize = 0;
                while k < elems.len()
                    invariant
                        k <= elems@.len(),
                        elems@.len() == before.len(),
                        before == given@,
                        self.renamed_elems(elems@, before, k as int),
                        forall|j: int| k <= j < before.len() ==> elems@[j] == before[j],
                    decreases elems@.len() - k,
                {
                    let ghost mid = elems@;
                    assert(decreases_to!(whole => given[k as int]));
                    match &mut elems[k] {
                        Some(e) => {
                            self.rename_expr(e);
                        },
                        None => {},
                    }
                    proof {
                        self.lemma_elems_keep(mid, elems@, before, k as int);
                    }
                    k += 1;
                }
            },
            Expr::Object(props) => {
                let ghost given = *props;
                let ghost before = props@;
                let mut k: usize = 0;
                while k < props.len()
                    invariant
                        k <= props@.len(),
                        props@.len() == before.len(),
                        before == given@,
                        self.renamed_props(props@, before, k as int),
                        forall|j: int| k <= j < before.len() ==> props@[j] == before[j],
                    decreases props@.len() - k,
                {
                    let ghost mid = props@;
                    assert(decreases_to!(whole => given[k as int]));
                    let mut prop = Prop::Other;
                    std::mem::swap(&mut props[k], &mut prop);
                    let mut renamed = match prop {
                        Prop::Shorthand(id) => {
                            let key = Ident { sym: id.sym.clone(), mark: EMPTY_MARK };
                            let mut value = id;
                            self.rename_ident(&mut value);
                            Prop::KeyValue(PropName::Ident(key), Expr::Ident(value))
                        },
                        Prop::KeyValue(name, value) => {
                            let mut value = value;
                            self.rename_expr(&mut value);
                            Prop::KeyValue(name, value)
                        },
                        Prop::Other => Prop::Other,
                    };
                    std::mem::swap(&mut props[k], &mut renamed);
                    proof {
                        self.lemma_props_keep(mid, props@, before, k as int);
                    }
                    k += 1;
                }
            },
            Expr::Update(arg) => {
                self.rename_expr(arg);
            },
            Expr::Bin(l, r) => {
                self.rename_expr(l);
                self.rename_expr(r);
            },
            Expr::Assign(AssignTarget::Expr(t)) => {
                self.rename_expr(t);
            },
            Expr::Member(obj, prop) => {
                self.rename_expr(obj);
                self.rename_expr(prop);
            },
            Expr::Cond(t, c, e) => {
                self.rename_expr(t);
                self.rename_expr(c);
                self.rename_expr(e);
            },
            Expr::Call(callee, args) => {
                match callee {
                    Callee::Expr(e) => {
                        self.rename_expr(e);
                    },
                    Callee::Super => {},
                    Callee::Import => {},
                }
                self.rename_exprs(args, Ghost(whole));
            },
            Expr::Sequence(es) => {
                self.rename_exprs(es, Ghost(whole));
            },
            Expr::Ident(i) => {
                self.rename_ident(i);
            },
            Expr::Tpl(es) => {
                self.rename_exprs(es, Ghost(whole));
            },
            Expr::Paren(inner) => {
                self.rename_expr(inner);
            },
            Expr::OptChain(inner) => {
                self.rename_expr(inner);
            },
            _ => {},
        }
    }

    pub open spec fn renamed_declarators(
        &self,
        a: Seq<VarDeclarator>,
        b: Seq<VarDeclarator>,
        n: int,
    ) -> bool
        decreases n,
    {
        if 0 < n <= b.len() && n <= a.len() {
            self.renamed_declarators(a, b, n - 1) && self.renamed_pat(a[n - 1].name, b[n - 1].name)
                && (match b[n - 1].init {
                Some(e) => a[n - 1].init matches Some(f) && self.renamed_expr(f, e),
                None => a[n - 1].init is None,
            })
        } else {
            n <= 0
        }
    }

    pub open spec fn renamed_decl(&self, a: Decl, b: Decl) -> bool {
        match b {
            Decl::Class(c) => a matches Decl::Class(d) && self.renamed_ident(d.ident, c.ident),
            Decl::Fn(f) => a matches Decl::Fn(g) && self.renamed_ident(g.ident, f.ident),
            Decl::Var(v) => a matches Decl::Var(w) && w.kind == v.kind && w.decls@.len()
                == v.decls@.len() && self.renamed_declarators(
                w.decls@,
                v.decls@,
                v.decls@.len() as int,
            ),
            Decl::Other => a is Other,
        }
    }

    pub open spec fn renamed_stmt(&self, a: Stmt, b: Stmt) -> bool {
        match b {
            Stmt::Decl(d) => a matches Stmt::Decl(e) && self.renamed_decl(e, d),
            Stmt::Expr(e) => a matches Stmt::Expr(f) && self.renamed_expr(f, e),
            _ => a == b,
        }
    }

    /// A name in an import or export list: an identifier is renamed, a string stays.
    pub open spec fn renamed_export_name(&self, a: ModuleExportName, b: ModuleExportName) -> bool {
        match b {
            ModuleExportName::Ident(i) => a matches ModuleExportName::Ident(j)
                && self.renamed_ident(j, i),
            ModuleExportName::Str(s) => a == b,
        }
    }

    /// An import keeps the name it imports: where the local name changes
    /// and the specifier names no other, the old name is written out.
    pub open spec fn renamed_import_specifier(&self, a: ImportSpecifier, b: ImportSpecifier) -> bool {
        match b {
            ImportSpecifier::Named { local, imported } => a matches ImportSpecifier::Named {
                local: alocal,
                imported: aimported,
            } && self.renamed_ident(alocal, local) && (match imported {
                Some(n) => aimported == Some(n),
                None => if alocal.sym@ == local.sym@ {
                    aimported is None
                } else {
                    aimported matches Some(ModuleExportName::Ident(k)) && k.sym@ == local.sym@
                        && k.mark == EMPTY_MARK
                },
            }),
            ImportSpecifier::Default { local } => a matches ImportSpecifier::Default {
                local: alocal,
            } && self.renamed_ident(alocal, local),
            ImportSpecifier::Namespace { local } => a matches ImportSpecifier::Namespace {
                local: alocal,
            } && self.renamed_ident(alocal, local),
        }
    }

    pub open spec fn renamed_import_specifiers(
        &self,
        a: Seq<ImportSpecifier>,
        b: Seq<ImportSpecifier>,
        n: int,
    ) -> bool
        decreases n,
    {
        if 0 < n <= b.len() && n <= a.len() {
            self.renamed_import_specifiers(a, b, n - 1) && self.renamed_import_specifier(
                a[n - 1],
                b[n - 1],
            )
        } else {
            n <= 0
        }
    }

    /// An export keeps the name it exports: `orig as exported` becomes
    /// `orig` alone where both names are one, and a lone `orig` whose name
    /// changes is written out as `new as orig`.
    pub open spec fn renamed_export_specifier(&self, a: ExportSpecifier, b: ExportSpecifier) -> bool {
        match b {
            ExportSpecifier::Named { orig, exported } => a matches ExportSpecifier::Named {
                orig: aorig,
                exported: aexported,
            } && self.renamed_export_name(aorig, orig) && (match exported {
                Some(e) => if e.name() == aorig.name() {
                    aexported is None
                } else {
                    aexported == Some(e)
                },
                None => if aorig.name() == orig.name() {
                    aexported is None
                } else {
                    aexported matches Some(ModuleExportName::Ident(k)) && k.sym@ == orig.name()
                        && k.mark == EMPTY_MARK
                },
            }),
            ExportSpecifier::Default { ident } => a matches ExportSpecifier::Default {
                ident: aident,
            } && self.renamed_ident(aident, ident),
            ExportSpecifier::Namespace { .. } => a == b,
        }
    }

    pub open spec fn renamed_export_specifiers(
        &self,
        a: Seq<ExportSpecifier>,
        b: Seq<ExportSpecifier>,
        n: int,
    ) -> bool
        decreases n,
    {
        if 0 < n <= b.len() && n <= a.len() {
            self.renamed_export_specifiers(a, b, n - 1) && self.renamed_export_specifier(
                a[n - 1],
                b[n - 1],
            )
        } else {
            n <= 0
        }
    }

    pub open spec fn renamed_module_decl(&self, a: ModuleDecl, b: ModuleDecl) -> bool {
        match b {
            ModuleDecl::Import(i) => a matches ModuleDecl::Import(j) && j.src == i.src
                && j.specifiers@.len() == i.specifiers@.len() && self.renamed_import_specifiers(
                j.specifiers@,
                i.specifiers@,
                i.specifiers@.len() as int,
            ),
            ModuleDecl::ExportDecl(d) => a matches ModuleDecl::ExportDecl(e) && self.renamed_decl(
                e,
                d,
            ),
            ModuleDecl::ExportNamed(n) => a matches ModuleDecl::ExportNamed(m) && m.src == n.src
                && m.specifiers@.len() == n.specifiers@.len() && (if n.src is Some {
                m.specifiers == n.specifiers
            } else {
                self.renamed_export_specifiers(
                    m.specifiers@,
                    n.specifiers@,
                    n.specifiers@.len() as int,
                )
            }),
            ModuleDecl::ExportDefaultDecl(DefaultDecl::Class { ident: Some(i) }) => a matches ModuleDecl::ExportDefaultDecl(
                DefaultDecl::Class { ident: Some(j) },
            ) && self.renamed_ident(j, i),
            ModuleDecl::ExportDefaultDecl(DefaultDecl::Fn { ident: Some(i) }) => a matches ModuleDecl::ExportDefaultDecl(
                DefaultDecl::Fn { ident: Some(j) },
            ) && self.renamed_ident(j, i),
            ModuleDecl::ExportDefaultExpr(e) => a matches ModuleDecl::ExportDefaultExpr(f)
                && self.renamed_expr(f, e),
            _ => a == b,
        }
    }

    /// Whether `a` is the item `b` with every identifier renamed.
    pub open spec fn renamed_item(&self, a: ModuleItem, b: ModuleItem) -> bool {
        match b {
            ModuleItem::ModuleDecl(d) => a matches ModuleItem::ModuleDecl(e)
                && self.renamed_module_decl(e, d),
            ModuleItem::Stmt(s) => a matches ModuleItem::Stmt(t) && self.renamed_stmt(t, s),
        }
    }

    proof fn lemma_pat_again(&self, a: Pat, b: Pat)
        requires
            self.renamed_pat(a, b),
        ensures
            self.renamed_pat(a, a),
        decreases b, 0nat,
    {
        match (a, b) {
            (Pat::Array(x), Pat::Array(y)) => {
                self.lemma_pat_elems_again(x@, y@, y@.len() as int);
            },
            (Pat::Object(x), Pat::Object(y)) => {
                self.lemma_pat_props_again(x@, y@, y@.len() as int);
            },
            (Pat::Rest(x), Pat::Rest(y)) => {
                self.lemma_pat_again(*x, *y);
            },
            (Pat::Assign(x), Pat::Assign(y)) => {
                self.lemma_pat_again(*x, *y);
            },
            _ => {},
        }
    }

    proof fn lemma_pat_elems_again(&self, a: Seq<Option<Pat>>, b: Seq<Option<Pat>>, n: int)
        requires
            self.renamed_pat_elems(a, b, n),
        ensures
            self.renamed_pat_elems(a, a, n),
        decreases b, n,
    {
        if 0 < n <= b.len() && n <= a.len() {
            self.lemma_pat_elems_again(a, b, n - 1);
            match (a[n - 1], b[n - 1]) {
                (Some(q), Some(p)) => {
                    self.lemma_pat_again(q, p);
                },
                _ => {},
            }
        }
    }

    proof fn lemma_pat_props_again(&self, a: Seq<ObjectPatProp>, b: Seq<ObjectPatProp>, n: int)
        requires
            self.renamed_pat_props(a, b, n),
        ensures
            self.renamed_pat_props(a, a, n),
        decreases b, n,
    {
        if 0 < n <= b.len() && n <= a.len() {
            self.lemma_pat_props_again(a, b, n - 1);
            match (a[n - 1], b[n - 1]) {
                (ObjectPatProp::KeyValue(q), ObjectPatProp::KeyValue(p)) => {
                    self.lemma_pat_again(q, p);
                },
                (ObjectPatProp::Rest(q), ObjectPatProp::Rest(p)) => {
                    self.lemma_pat_again(q, p);
                },
                _ => {},
            }
        }
    }

    proof fn lemma_expr_again(&self, a: Expr, b: Expr)
        requires
            self.renamed_expr(a, b),
        ensures
            self.renamed_expr(a, a),
        decreases b, 0nat,
    {
        match (a, b) {
            (Expr::Array(x), Expr::Array(y)) => {
                self.lemma_elems_again(x@, y@, y@.len() as int);
            },
            (Expr::Object(x), Expr::Object(y)) => {
                self.lemma_props_again(x@, y@, y@.len() as int);
            },
            (Expr::Update(x), Expr::Update(y)) => {
                self.lemma_expr_again(*x, *y);
            },
            (Expr::Bin(xl, xr), Expr::Bin(yl, yr)) => {
                self.lemma_expr_again(*xl, *yl);
                self.lemma_expr_again(*xr, *yr);
            },
            (Expr::Assign(AssignTarget::Expr(x)), Expr::Assign(AssignTarget::Expr(y))) => {
                self.lemma_expr_again(*x, *y);
            },
            (Expr::Member(xo, xp), Expr::Member(yo, yp)) => {
                self.lemma_expr_again(*xo, *yo);
                self.lemma_expr_again(*xp, *yp);
            },
            (Expr::Cond(xt, xc, xe), Expr::Cond(yt, yc, ye)) => {
                self.lemma_expr_again(*xt, *yt);
                self.lemma_expr_again(*xc, *yc);
                self.lemma_expr_again(*xe, *ye);
            },
            (Expr::Call(xc, xa), Expr::Call(yc, ya)) => {
                match (xc, yc) {
                    (Callee::Expr(x), Callee::Expr(y)) => {
                        self.lemma_expr_again(*x, *y);
                    },
                    _ => {},
                }
                self.lemma_exprs_again(xa@, ya@, ya@.len() as int);
            },
            (Expr::Sequence(x), Expr::Sequence(y)) => {
                self.lemma_exprs_again(x@, y@, y@.len() as int);
            },
            (Expr::Tpl(x), Expr::Tpl(y)) => {
                self.lemma_exprs_again(x@, y@, y@.len() as int);
            },
            (Expr::Paren(x), Expr::Paren(y)) => {
                self.lemma_expr_again(*x, *y);
            },
            (Expr::OptChain(x), Expr::OptChain(y)) => {
                self.lemma_expr_again(*x, *y);
            },
            _ => {},
        }
    }

    proof fn lemma_exprs_again(&self, a: Seq<Expr>, b: Seq<Expr>, n: int)
        requires
            self.renamed_exprs(a, b, n),
        ensures
            self.renamed_exprs(a, a, n),
        decreases b, n,
    {
        if 0 < n <= b.len() && n <= a.len() {
            self.lemma_exprs_again(a, b, n - 1);
            self.lemma_expr_again(a[n - 1], b[n - 1]);
        }
    }

    proof fn lemma_elems_again(&self, a: Seq<Option<Expr>>, b: Seq<Option<Expr>>, n: int)
        requires
            self.renamed_elems(a, b, n),
        ensures
            self.renamed_elems(a, a, n),
        decreases b, n,
    {
        if 0 < n <= b.len() && n <= a.len() {
            self.lemma_elems_again(a, b, n - 1);
            match (a[n - 1], b[n - 1]) {
                (Some(f), Some(e)) => {
                    self.lemma_expr_again(f, e);
                },
                _ => {},
            }
        }
    }

    proof fn lemma_props_again(&self, a: Seq<Prop>, b: Seq<Prop>, n: int)
        requires
            self.renamed_props(a, b, n),
        ensures
            self.renamed_props(a, a, n),
        decreases b, n,
    {
        if 0 < n <= b.len() && n <= a.len() {
            self.lemma_props_again(a, b, n - 1);
            match (a[n - 1], b[n - 1]) {
                (Prop::KeyValue(_, f), Prop::KeyValue(_, e)) => {
                    self.lemma_expr_again(f, e);
                },
                (Prop::KeyValue(_, Expr::Ident(value)), Prop::Shorthand(i)) => {
                    assert(self.renamed_ident(value, i));
                    assert(self.renamed_expr(Expr::Ident(value), Expr::Ident(value)));
                },
                _ => {},
            }
        }
    }

    proof fn lemma_declarators_again(&self, a: Seq<VarDeclarator>, b: Seq<VarDeclarator>, n: int)
        requires
            self.renamed_declarators(a, b, n),
        ensures
            self.renamed_declarators(a, a, n),
        decreases n,
    {
        if 0 < n <= b.len() && n <= a.len() {
            self.lemma_declarators_again(a, b, n - 1);
            self.lemma_pat_again(a[n - 1].name, b[n - 1].name);
            match (a[n - 1].init, b[n - 1].init) {
                (Some(f), Some(e)) => {
                    self.lemma_expr_again(f, e);
                },
                _ => {},
            }
        }
    }

    proof fn lemma_decl_again(&self, a: Decl, b: Decl)
        requires
            self.renamed_decl(a, b),
        ensures
            self.renamed_decl(a, a),
    {
        match (a, b) {
            (Decl::Var(w), Decl::Var(v)) => {
                self.lemma_declarators_again(w.decls@, v.decls@, v.decls@.len() as int);
            },
            _ => {},
        }
    }

    proof fn lemma_import_specifiers_again(
        &self,
        a: Seq<ImportSpecifier>,
        b: Seq<ImportSpecifier>,
        n: int,
    )
        requires
            self.renamed_import_specifiers(a, b, n),
        ensures
            self.renamed_import_specifiers(a, a, n),
        decreases n,
    {
        if 0 < n <= b.len() && n <= a.len() {
            self.lemma_import_specifiers_again(a, b, n - 1);
        }
    }

    proof fn lemma_export_specifiers_again(
        &self,
        a: Seq<ExportSpecifier>,
        b: Seq<ExportSpecifier>,
        n: int,
    )
        requires
            self.renamed_export_specifiers(a, b, n),
        ensures
            self.renamed_export_specifiers(a, a, n),
        decreases n,
    {
        if 0 < n <= b.len() && n <= a.len() {
            self.lemma_export_specifiers_again(a, b, n - 1);
        }
    }

    /// Renaming what was renamed changes nothing: an item that renaming
    /// gave is what renaming gives of it again.
    pub proof fn lemma_item_again(&self, a: ModuleItem, b: ModuleItem)
        requires
            self.renamed_item(a, b),
        ensures
            self.renamed_item(a, a),
    {
        match (a, b) {
            (ModuleItem::ModuleDecl(e), ModuleItem::ModuleDecl(d)) => {
                match (e, d) {
                    (ModuleDecl::Import(j), ModuleDecl::Import(i)) => {
                        self.lemma_import_specifiers_again(
                            j.specifiers@,
                            i.specifiers@,
                            i.specifiers@.len() as int,
                        );
                    },
                    (ModuleDecl::ExportDecl(y), ModuleDecl::ExportDecl(x)) => {
                        self.lemma_decl_again(y, x);
                    },
                    (ModuleDecl::ExportNamed(m), ModuleDecl::ExportNamed(n)) => {
                        if n.src is None {
                            self.lemma_export_specifiers_again(
                                m.specifiers@,
                                n.specifiers@,
                                n.specifiers@.len() as int,
                            );
                        }
                    },
                    (ModuleDecl::ExportDefaultExpr(f), ModuleDecl::ExportDefaultExpr(x)) => {
                        self.lemma_expr_again(f, x);
                    },
                    _ => {},
                }
            },
            (ModuleItem::Stmt(t), ModuleItem::Stmt(u)) => {
                match (t, u) {
                    (Stmt::Decl(e), Stmt::Decl(d)) => {
                        self.lemma_decl_again(e, d);
                    },
                    (Stmt::Expr(f), Stmt::Expr(e)) => {
                        self.lemma_expr_again(f, e);
                    },
                    _ => {},
                }
            },
            _ => {},
        }
    }

    proof fn lemma_declarators_keep(
        &self,
        mid: Seq<VarDeclarator>,
        after: Seq<VarDeclarator>,
        before: Seq<VarDeclarator>,
        k: int,
    )
        requires
            self.renamed_declarators(mid, before, k),
            0 <= k,
            after.len() == mid.len(),
            forall|j: int| 0 <= j < k ==> after[j] == mid[j],
        ensures
            self.renamed_declarators(after, before, k),
        decreases k,
    {
        if 0 < k <= before.len() && k <= mid.len() {
            self.lemma_declarators_keep(mid, after, before, k - 1);
        }
    }

    proof fn lemma_import_specifiers_keep(
        &self,
        mid: Seq<ImportSpecifier>,
        after: Seq<ImportSpecifier>,
        before: Seq<ImportSpecifier>,
        k: int,
    )
        requires
            self.renamed_import_specifiers(mid, before, k),
            0 <= k,
            after.len() == mid.len(),
            forall|j: int| 0 <= j < k ==> after[j] == mid[j],
        ensures
            self.renamed_import_specifiers(after, before, k),
        decreases k,
    {
        if 0 < k <= before.len() && k <= mid.len() {
            self.lemma_import_specifiers_keep(mid, after, before, k - 1);
        }
    }

    proof fn lemma_export_specifiers_keep(
        &self,
        mid: Seq<ExportSpecifier>,
        after: Seq<ExportSpecifier>,
        before: Seq<ExportSpecifier>,
        k: int,
    )
        requires
            self.renamed_export_specifiers(mid, before, k),
            0 <= k,
            after.len() == mid.len(),
            forall|j: int| 0 <= j < k ==> after[j] == mid[j],
        ensures
            self.renamed_export_specifiers(after, before, k),
        decreases k,
    {
        if 0 < k <= before.len() && k <= mid.len() {
            self.lemma_export_specifiers_keep(mid, after, before, k - 1);
        }
    }

    /// Renames the identifiers of a declaration.
    pub fn rename_decl(&self, decl: &mut Decl)
        requires
            self.wf(),
        ensures
            self.renamed_decl(*final(decl), *old(decl)),
    {
        match decl {
            Decl::Class(c) => {
                self.rename_ident(&mut c.ident);
            },
            Decl::Fn(f) => {
                self.rename_ident(&mut f.ident);
            },
            Decl::Var(v) => {
                let ghost before = v.decls@;
                let mut k: usize = 0;
                while k < v.decls.len()
                    invariant
                        k <= v.decls@.len(),
                        self.wf(),
                        v.kind == (*old(decl))->Var_0.kind,
                        (*old(decl)) is Var,
                        before == (*old(decl))->Var_0.decls@,
                        v.decls@.len() == before.len(),
                        self.renamed_declarators(v.decls@, before, k as int),
                        forall|j: int| k <= j < before.len() ==> v.decls@[j] == before[j],
                    decreases v.decls@.len() - k,
                {
                    let ghost mid = v.decls@;
                    self.rename_pat(&mut v.decls[k].name);
                    match &mut v.decls[k].init {
                        Some(e) => {
                            self.rename_expr(e);
                        },
                        None => {},
                    }
                    proof {
                        self.lemma_declarators_keep(mid, v.decls@, before, k as int);
                    }
                    k += 1;
                }
            },
            Decl::Other => {},
        }
    }

    /// Renames a name in an import or export list.
    pub fn rename_export_name(&self, name: &mut ModuleExportName)
        requires
            self.wf(),
        ensures
            self.renamed_export_name(*final(name), *old(name)),
    {
        match name {
            ModuleExportName::Ident(i) => {
                self.rename_ident(i);
            },
            ModuleExportName::Str(_) => {},
        }
    }

    /// Renames the local name of an import specifier.
    pub fn rename_import_specifier(&self, specifier: &mut ImportSpecifier)
        requires
            self.wf(),
        ensures
            self.renamed_import_specifier(*final(specifier), *old(specifier)),
    {
        match specifier {
            ImportSpecifier::Named { local, imported } => {
                let was = local.sym.clone();
                self.rename_ident(local);
                if imported.is_none() && local.sym != was {
                    *imported = Some(ModuleExportName::Ident(Ident { sym: was, mark: EMPTY_MARK }));
                }
            },
            ImportSpecifier::Default { local } => {
                self.rename_ident(local);
            },
            ImportSpecifier::Namespace { local } => {
                self.rename_ident(local);
            },
        }
    }

    /// Renames the binding that an export specifier names.
    pub fn rename_export_specifier(&self, specifier: &mut ExportSpecifier)
        requires
            self.wf(),
        ensures
            self.renamed_export_specifier(*final(specifier), *old(specifier)),
    {
        match specifier {
            ExportSpecifier::Named { orig, exported } => {
                let was = orig.sym();
                self.rename_export_name(orig);
                let now = orig.sym();
                let collapse = match exported {
                    Some(e) => e.sym() == now,
                    None => false,
                };
                if collapse {
                    *exported = None;
                } else if exported.is_none() && now != was {
                    *exported = Some(ModuleExportName::Ident(Ident { sym: was, mark: EMPTY_MARK }));
                }
            },
            ExportSpecifier::Default { ident } => {
                self.rename_ident(ident);
            },
            ExportSpecifier::Namespace { .. } => {},
        }
    }

    /// Renames the identifiers of an import or export.
    pub fn rename_module_decl(&self, decl: &mut ModuleDecl)
        requires
            self.wf(),
        ensures
            self.renamed_module_decl(*final(decl), *old(decl)),
    {
        match decl {
            ModuleDecl::Import(i) => {
                let ghost before = i.specifiers@;
                let mut k: usize = 0;
                while k < i.specifiers.len()
                    invariant
                        k <= i.specifiers@.len(),
                        self.wf(),
                        (*old(decl)) is Import,
                        i.src == (*old(decl))->Import_0.src,
                        before == (*old(decl))->Import_0.specifiers@,
                        i.specifiers@.len() == before.len(),
                        self.renamed_import_specifiers(i.specifiers@, before, k as int),
                        forall|j: int| k <= j < before.len() ==> i.specifiers@[j] == before[j],
                    decreases i.specifiers@.len() - k,
                {
                    let ghost mid = i.specifiers@;
                    self.rename_import_specifier(&mut i.specifiers[k]);
                    proof {
                        self.lemma_import_specifiers_keep(mid, i.specifiers@, before, k as int);
                    }
                    k += 1;
                }
            },
            ModuleDecl::ExportDecl(d) => {
                self.rename_decl(d);
            },
            ModuleDecl::ExportNamed(n) => {
                if n.src.is_none() {
                    let ghost before = n.specifiers@;
                    let mut k: usize = 0;
                    while k < n.specifiers.len()
                        invariant
                            k <= n.specifiers@.len(),
                            self.wf(),
                            (*old(decl)) is ExportNamed,
                            n.src == (*old(decl))->ExportNamed_0.src,
                            n.src is None,
                            before == (*old(decl))->ExportNamed_0.specifiers@,
                            n.specifiers@.len() == before.len(),
                            self.renamed_export_specifiers(n.specifiers@, before, k as int),
                            forall|j: int| k <= j < before.len() ==> n.specifiers@[j] == before[j],
                        decreases n.specifiers@.len() - k,
                    {
                        let ghost mid = n.specifiers@;
                        self.rename_export_specifier(&mut n.specifiers[k]);
                        proof {
                            self.lemma_export_specifiers_keep(mid, n.specifiers@, before, k as int);
                        }
                        k += 1;
                    }
                }
            },
            ModuleDecl::ExportDefaultDecl(DefaultDecl::Class { ident: Some(i) }) => {
                self.rename_ident(i);
            },
            ModuleDecl::ExportDefaultDecl(DefaultDecl::Fn { ident: Some(i) }) => {
                self.rename_ident(i);
            },
            ModuleDecl::ExportDefaultExpr(e) => {
                self.rename_expr(e);
            },
            _ => {},
        }
    }

    /// Renames every identifier of an item.
    pub fn rename_item(&self, item: &mut ModuleItem)
        requires
            self.wf(),
        ensures
            self.renamed_item(*final(item), *old(item)),
    {
        match item {
            ModuleItem::ModuleDecl(d) => {
                self.rename_module_decl(d);
            },
            ModuleItem::Stmt(Stmt::Decl(d)) => {
                self.rename_decl(d);
            },
            ModuleItem::Stmt(Stmt::Expr(e)) => {
                self.rename_expr(e);
            },
            ModuleItem::Stmt(_) => {},
        }
    }
}

} // verus!
