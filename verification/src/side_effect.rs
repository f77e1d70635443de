//! The side-effect tag of a top-level item: why it has to stay in the bundle
//! even when nothing reads what it declares.

use vstd::prelude::*;
use crate::ast::{AssignTarget, Decl, Expr, ModuleDecl, ModuleItem, Stmt, VarDecl, VarDeclarator};
use crate::symbol_box::EMPTY_MARK;

verus! {

#[derive(Clone, Copy, Debug, PartialEq, Eq, Structural)]
pub enum SideEffect {
    /// Not analysed further: assumed to have an effect.
    Todo,
    /// A call, a `new` or a tagged template.
    FnCall,
    /// A member access on a name that no scope of the module declares.
    VisitGlobal,
    /// `this` at the top level.
    VisitThis,
    /// An import or export.
    ModuleDecl,
    /// A block or a control-flow statement at the top level.
    NonTopLevelBlock,
}

/// The first tag found among `a`, then `b`.
pub open spec fn first_effect(a: Option<SideEffect>, b: Option<SideEffect>) -> Option<SideEffect> {
    if a is Some {
        a
    } else {
        b
    }
}

/// The tag of an expression evaluated at the top level.
pub open spec fn effect_of_expr(e: Expr) -> Option<SideEffect>
    decreases e, 0nat,
{
    match e {
        Expr::This => Some(SideEffect::VisitThis),
        Expr::Array(elems) => effect_of_elems(elems@, 0),
        Expr::Object(_) => Some(SideEffect::Todo),
        Expr::Fn => None,
        Expr::Unary => Some(SideEffect::Todo),
        Expr::Update(arg) => effect_of_expr(*arg),
        Expr::Bin(l, r) => first_effect(effect_of_expr(*l), effect_of_expr(*r)),
        Expr::Assign(AssignTarget::Expr(t)) => effect_of_expr(*t),
        Expr::Assign(AssignTarget::Pat) => Some(SideEffect::Todo),
        Expr::Member(obj, _) => match *obj {
            Expr::Ident(i) if i.mark == EMPTY_MARK => Some(SideEffect::VisitGlobal),
            _ => Some(SideEffect::Todo),
        },
        Expr::SuperProp => Some(SideEffect::Todo),
        Expr::Cond(t, c, a) => first_effect(
            effect_of_expr(*t),
            first_effect(effect_of_expr(*c), effect_of_expr(*a)),
        ),
        Expr::Call(_, _) => Some(SideEffect::FnCall),
        Expr::New => Some(SideEffect::FnCall),
        Expr::Sequence(es) => effect_of_exprs(es@, 0),
        Expr::Ident(_) => None,
        Expr::Lit(_) => None,
        Expr::Tpl(es) => effect_of_exprs(es@, 0),
        Expr::TaggedTpl => Some(SideEffect::FnCall),
        Expr::Arrow => None,
        Expr::Class => None,
        Expr::Yield => Some(SideEffect::Todo),
        Expr::MetaProp => Some(SideEffect::Todo),
        Expr::Await => Some(SideEffect::Todo),
        Expr::Paren(inner) => effect_of_expr(*inner),
        Expr::JSXMember => Some(SideEffect::Todo),
        Expr::JSXNamespacedName => Some(SideEffect::Todo),
        Expr::JSXEmpty => Some(SideEffect::Todo),
        Expr::JSXElement => Some(SideEffect::Todo),
        Expr::JSXFragment => Some(SideEffect::Todo),
        Expr::TsTypeAssertion => None,
        Expr::TsConstAssertion => None,
        Expr::TsNonNull => None,
        Expr::TsAs => None,
        Expr::PrivateName => Some(SideEffect::Todo),
        Expr::OptChain(inner) => effect_of_expr(*inner),
        Expr::Invalid => Some(SideEffect::Todo),
    }
}

/// The first tag among the expressions from index `from` on.
pub open spec fn effect_of_exprs(es: Seq<Expr>, from: int) -> Option<SideEffect>
    decreases es, es.len() - from,
{
    if 0 <= from < es.len() {
        first_effect(effect_of_expr(es[from]), effect_of_exprs(es, from + 1))
    } else {
        None
    }
}

/// The first tag among the array elements that are present, from index `from` on.
pub open spec fn effect_of_elems(es: Seq<Option<Expr>>, from: int) -> Option<SideEffect>
    decreases es, es.len() - from,
{
    if 0 <= from < es.len() {
        first_effect(
            match es[from] {
                Some(e) => effect_of_expr(e),
                None => None,
            },
            effect_of_elems(es, from + 1),
        )
    } else {
        None
    }
}

/// The first tag among the initializers of the declarators from index `from` on.
pub open spec fn effect_of_declarators(ds: Seq<VarDeclarator>, from: int) -> Option<SideEffect>
    decreases ds.len() - from,
{
    if 0 <= from < ds.len() {
        first_effect(
            match ds[from].init {
                Some(e) => effect_of_expr(e),
                None => None,
            },
            effect_of_declarators(ds, from + 1),
        )
    } else {
        None
    }
}

/// The tag of a top-level item. Imports, export lists and re-exports always
/// stay; blocks and control flow stay; a declaration, exported or not, stays
/// for what its initializers do.
pub open spec fn effect_of_item(item: ModuleItem) -> Option<SideEffect> {
    match item {
        ModuleItem::ModuleDecl(ModuleDecl::ExportDecl(Decl::Var(v))) => effect_of_declarators(
            v.decls@,
            0,
        ),
        ModuleItem::ModuleDecl(ModuleDecl::ExportDecl(_)) => None,
        ModuleItem::ModuleDecl(ModuleDecl::ExportDefaultDecl(_)) => None,
        ModuleItem::ModuleDecl(ModuleDecl::ExportDefaultExpr(e)) => effect_of_expr(e),
        ModuleItem::ModuleDecl(_) => Some(SideEffect::ModuleDecl),
        ModuleItem::Stmt(stmt) => match stmt {
            Stmt::Empty => None,
            Stmt::Block => Some(SideEffect::NonTopLevelBlock),
            Stmt::With => Some(SideEffect::NonTopLevelBlock),
            Stmt::Labeled => Some(SideEffect::NonTopLevelBlock),
            Stmt::If => Some(SideEffect::NonTopLevelBlock),
            Stmt::Switch => Some(SideEffect::NonTopLevelBlock),
            Stmt::Try => Some(SideEffect::NonTopLevelBlock),
            Stmt::While => Some(SideEffect::NonTopLevelBlock),
            Stmt::DoWhile => Some(SideEffect::NonTopLevelBlock),
            Stmt::For => Some(SideEffect::NonTopLevelBlock),
            Stmt::ForIn => Some(SideEffect::NonTopLevelBlock),
            Stmt::ForOf => Some(SideEffect::NonTopLevelBlock),
            Stmt::Debugger => Some(SideEffect::Todo),
            Stmt::Return => Some(SideEffect::Todo),
            Stmt::Break => Some(SideEffect::Todo),
            Stmt::Continue => Some(SideEffect::Todo),
            Stmt::Throw => Some(SideEffect::Todo),
            Stmt::Decl(Decl::Var(v)) => effect_of_declarators(v.decls@, 0),
            Stmt::Decl(_) => None,
            Stmt::Expr(e) => effect_of_expr(e),
        },
    }
}

fn pick_first(a: Option<SideEffect>, b: Option<SideEffect>) -> (r: Option<SideEffect>)
    ensures
        r == first_effect(a, b),
{
    match a {
        Some(_) => a,
        None => b,
    }
}

/// The tag of an expression evaluated at the top level.
#[verifier::loop_isolation(false)]
pub fn detect_side_effect_of_expr(expr: &Expr) -> (r: Option<SideEffect>)
    ensures
        r == effect_of_expr(*expr),
    decreases expr,
{
    match expr {
        Expr::This => Some(SideEffect::VisitThis),
        Expr::Array(elems) => {
            let mut found: Option<SideEffect> = None;
            let mut i: usize = elems.len();
            while i > 0
                invariant
                    i <= elems.len(),
                    found == effect_of_elems(elems@, i as int),
                decreases i,
            {
                i -= 1;
                let here = match &elems[i] {
                    Some(e) => detect_side_effect_of_expr(e),
                    None => None,
                };
                found = pick_first(here, found);
            }
            found
        },
        Expr::Object(_) => Some(SideEffect::Todo),
        Expr::Fn => None,
        Expr::Unary => Some(SideEffect::Todo),
        Expr::Update(arg) => detect_side_effect_of_expr(arg),
        Expr::Bin(l, r) => {
            let a = detect_side_effect_of_expr(l);
            let b = detect_side_effect_of_expr(r);
            pick_first(a, b)
        },
        Expr::Assign(AssignTarget::Expr(t)) => detect_side_effect_of_expr(t),
        Expr::Assign(AssignTarget::Pat) => Some(SideEffect::Todo),
        Expr::Member(obj, _) => match &**obj {
            Expr::Ident(i) => if i.mark == EMPTY_MARK {
                Some(SideEffect::VisitGlobal)
            } else {
                Some(SideEffect::Todo)
            },
            _ => Some(SideEffect::Todo),
        },
        Expr::SuperProp => Some(SideEffect::Todo),
        Expr::Cond(t, c, a) => {
            let x = detect_side_effect_of_expr(t);
            let y = detect_side_effect_of_expr(c);
            let z = detect_side_effect_of_expr(a);
            pick_first(x, pick_first(y, z))
        },
        Expr::Call(_, _) => Some(SideEffect::FnCall),
        Expr::New => Some(SideEffect::FnCall),
        Expr::Sequence(es) => detect_first_of(es, expr),
        Expr::Ident(_) => None,
        Expr::Lit(_) => None,
        Expr::Tpl(es) => detect_first_of(es, expr),
        Expr::TaggedTpl => Some(SideEffect::FnCall),
        Expr::Arrow => None,
        Expr::Class => None,
        Expr::Yield => Some(SideEffect::Todo),
        Expr::MetaProp => Some(SideEffect::Todo),
        Expr::Await => Some(SideEffect::Todo),
        Expr::Paren(inner) => detect_side_effect_of_expr(inner),
        Expr::JSXMember => Some(SideEffect::Todo),
        Expr::JSXNamespacedName => Some(SideEffect::Todo),
        Expr::JSXEmpty => Some(SideEffect::Todo),
        Expr::JSXElement => Some(SideEffect::Todo),
        Expr::JSXFragment => Some(SideEffect::Todo),
        Expr::TsTypeAssertion => None,
        Expr::TsConstAssertion => None,
        Expr::TsNonNull => None,
        Expr::TsAs => None,
        Expr::PrivateName => Some(SideEffect::Todo),
        Expr::OptChain(inner) => detect_side_effect_of_expr(inner),
        Expr::Invalid => Some(SideEffect::Todo),
    }
}

/// The first tag among the expressions of `es`, which `parent` holds.
#[verifier::loop_isolation(false)]
fn detect_first_of(es: &Vec<Expr>, parent: &Expr) -> (r: Option<SideEffect>)
    requires
        decreases_to!(parent => es),
    ensures
        r == effect_of_exprs(es@, 0),
    decreases parent, 0nat,
{
    let mut found: Option<SideEffect> = None;
    let mut i: usize = es.len();
    while i > 0
        invariant
            i <= es.len(),
            found == effect_of_exprs(es@, i as int),
        decreases i,
    {
        i -= 1;
        let here = detect_side_effect_of_expr(&es[i]);
        found = pick_first(here, found);
    }
    found
}

/// The first tag among the initializers of a declaration.
fn detect_declarators(v: &VarDecl) -> (r: Option<SideEffect>)
    ensures
        r == effect_of_declarators(v.decls@, 0),
{
    let mut found: Option<SideEffect> = None;
    let mut i: usize = v.decls.len();
    while i > 0
        invariant
            i <= v.decls.len(),
            found == effect_of_declarators(v.decls@, i as int),
        decreases i,
    {
        i -= 1;
        let here = match &v.decls[i].init {
            Some(e) => detect_side_effect_of_expr(e),
            None => None,
        };
        found = pick_first(here, found);
    }
    found
}

/// The tag of a top-level item.
pub fn detect_side_effect(item: &ModuleItem) -> (r: Option<SideEffect>)
    ensures
        r == effect_of_item(*item),
{
    match item {
        ModuleItem::ModuleDecl(ModuleDecl::ExportDecl(Decl::Var(v))) => detect_declarators(v),
        ModuleItem::ModuleDecl(ModuleDecl::ExportDecl(_)) => None,
        ModuleItem::ModuleDecl(ModuleDecl::ExportDefaultDecl(_)) => None,
        ModuleItem::ModuleDecl(ModuleDecl::ExportDefaultExpr(e)) => detect_side_effect_of_expr(e),
        ModuleItem::ModuleDecl(_) => Some(SideEffect::ModuleDecl),
        ModuleItem::Stmt(stmt) => match stmt {
            Stmt::Empty => None,
            Stmt::Block => Some(SideEffect::NonTopLevelBlock),
            Stmt::With => Some(SideEffect::NonTopLevelBlock),
            Stmt::Labeled => Some(SideEffect::NonTopLevelBlock),
            Stmt::If => Some(SideEffect::NonTopLevelBlock),
            Stmt::Switch => Some(SideEffect::NonTopLevelBlock),
            Stmt::Try => Some(SideEffect::NonTopLevelBlock),
            Stmt::While => Some(SideEffect::NonTopLevelBlock),
            Stmt::DoWhile => Some(SideEffect::NonTopLevelBlock),
            Stmt::For => Some(SideEffect::NonTopLevelBlock),
            Stmt::ForIn => Some(SideEffect::NonTopLevelBlock),
            Stmt::ForOf => Some(SideEffect::NonTopLevelBlock),
            Stmt::Debugger => Some(SideEffect::Todo),
            Stmt::Return => Some(SideEffect::Todo),
            Stmt::Break => Some(SideEffect::Todo),
            Stmt::Continue => Some(SideEffect::Todo),
            Stmt::Throw => Some(SideEffect::Todo),
            Stmt::Decl(Decl::Var(v)) => detect_declarators(v),
            Stmt::Decl(_) => None,
            Stmt::Expr(e) => detect_side_effect_of_expr(e),
        },
    }
}

} // verus!
