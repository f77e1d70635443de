//! The syntax that the linker reads: the shape of module items, of
//! declarations and of expressions, with one `Ident` for every name that
//! carries a mark.

use vstd::prelude::*;
use crate::symbol_box::Mark;

verus! {

/// A name as written, with the mark of the binding it denotes.
#[derive(Debug)]
pub struct Ident {
    pub sym: String,
    pub mark: Mark,
}

#[derive(Clone, Copy, Debug, PartialEq, Eq, Structural)]
pub enum VarDeclKind {
    Var,
    Let,
    Const,
}

/// A binding pattern.
#[derive(Debug)]
pub enum Pat {
    Ident(Ident),
    Array(Vec<Option<Pat>>),
    Object(Vec<ObjectPatProp>),
    Rest(Box<Pat>),
    Assign(Box<Pat>),
    Expr,
    Invalid,
}

#[derive(Debug)]
pub enum ObjectPatProp {
    KeyValue(Pat),
    Assign(Ident),
    Rest(Pat),
}

#[derive(Debug)]
pub enum Lit {
    Null,
    Str(String),
    Other,
}

#[derive(Debug)]
pub enum PropName {
    Ident(Ident),
    Str(String),
    Other,
}

#[derive(Debug)]
pub enum Prop {
    Shorthand(Ident),
    KeyValue(PropName, Expr),
    Other,
}

#[derive(Debug)]
pub enum Callee {
    Super,
    Import,
    Expr(Box<Expr>),
}

#[derive(Debug)]
pub enum AssignTarget {
    Expr(Box<Expr>),
    Pat,
}

/// An expression, as far as the linker looks into it.
#[derive(Debug)]
pub enum Expr {
    This,
    Array(Vec<Option<Expr>>),
    Object(Vec<Prop>),
    Fn,
    Unary,
    Update(Box<Expr>),
    Bin(Box<Expr>, Box<Expr>),
    Assign(AssignTarget),
    Member(Box<Expr>, Box<Expr>),
    SuperProp,
    Cond(Box<Expr>, Box<Expr>, Box<Expr>),
    Call(Callee, Vec<Expr>),
    New,
    Sequence(Vec<Expr>),
    Ident(Ident),
    Lit(Lit),
    Tpl(Vec<Expr>),
    TaggedTpl,
    Arrow,
    Class,
    Yield,
    MetaProp,
    Await,
    Paren(Box<Expr>),
    JSXMember,
    JSXNamespacedName,
    JSXEmpty,
    JSXElement,
    JSXFragment,
    TsTypeAssertion,
    TsConstAssertion,
    TsNonNull,
    TsAs,
    PrivateName,
    OptChain(Box<Expr>),
    Invalid,
}

#[derive(Debug)]
pub struct ClassDecl {
    pub ident: Ident,
}

#[derive(Debug)]
pub struct FnDecl {
    pub ident: Ident,
}

#[derive(Debug)]
pub struct VarDeclarator {
    pub name: Pat,
    pub init: Option<Expr>,
}

#[derive(Debug)]
pub struct VarDecl {
    pub kind: VarDeclKind,
    pub decls: Vec<VarDeclarator>,
}

#[derive(Debug)]
pub enum Decl {
    Class(ClassDecl),
    Fn(FnDecl),
    Var(VarDecl),
    Other,
}

/// A statement at the top level of a module.
#[derive(Debug)]
pub enum Stmt {
    Block,
    Empty,
    Debugger,
    With,
    Return,
    Labeled,
    Break,
    Continue,
    If,
    Switch,
    Throw,
    Try,
    While,
    DoWhile,
    For,
    ForIn,
    ForOf,
    Decl(Decl),
    Expr(Expr),
}

/// A name on either side of `as` in an import or export specifier.
#[derive(Debug)]
pub enum ModuleExportName {
    Ident(Ident),
    Str(String),
}

#[derive(Debug)]
pub enum ImportSpecifier {
    /// `import { imported as local } from ..`
    Named { local: Ident, imported: Option<ModuleExportName> },
    /// `import local from ..`
    Default { local: Ident },
    /// `import * as local from ..`
    Namespace { local: Ident },
}

#[derive(Debug)]
pub struct ImportDecl {
    pub specifiers: Vec<ImportSpecifier>,
    pub src: String,
}

#[derive(Debug)]
pub enum ExportSpecifier {
    /// `export * as name from ..`
    Namespace { name: ModuleExportName },
    /// `export v from ..`
    Default { ident: Ident },
    /// `export { orig as exported }`
    Named { orig: ModuleExportName, exported: Option<ModuleExportName> },
}

#[derive(Debug)]
pub struct NamedExport {
    pub specifiers: Vec<ExportSpecifier>,
    pub src: Option<String>,
}

#[derive(Debug)]
pub enum DefaultDecl {
    Class { ident: Option<Ident> },
    Fn { ident: Option<Ident> },
    TsInterface,
}

#[derive(Debug)]
pub enum ModuleDecl {
    Import(ImportDecl),
    ExportDecl(Decl),
    ExportNamed(NamedExport),
    ExportDefaultDecl(DefaultDecl),
    ExportDefaultExpr(Expr),
    ExportAll { src: String },
    Other,
}

#[derive(Debug)]
pub enum ModuleItem {
    ModuleDecl(ModuleDecl),
    Stmt(Stmt),
}

impl ModuleExportName {
    /// The name as text, whichever way it was written.
    pub open spec fn name(self) -> Seq<char> {
        match self {
            ModuleExportName::Ident(i) => i.sym@,
            ModuleExportName::Str(s) => s@,
        }
    }

    /// The name as text, whichever way it was written.
    pub fn sym(&self) -> (r: String)
        ensures
            r@ == self.name(),
    {
        match self {
            ModuleExportName::Ident(i) => i.sym.clone(),
            ModuleExportName::Str(s) => s.clone(),
        }
    }
}

/// The texts of a sequence of strings.
pub open spec fn views_of(names: Seq<String>) -> Seq<Seq<char>> {
    Seq::new(names.len(), |i: int| names[i]@)
}

/// The names that a pattern binds, in source order.
pub open spec fn pat_names(pat: Pat) -> Seq<Seq<char>>
    decreases pat, 0nat,
{
    match pat {
        Pat::Ident(i) => seq![i.sym@],
        Pat::Array(elems) => names_of_elems(elems@, elems@.len() as int),
        Pat::Object(props) => names_of_props(props@, props@.len() as int),
        Pat::Rest(inner) => pat_names(*inner),
        Pat::Assign(left) => pat_names(*left),
        Pat::Expr => Seq::empty(),
        Pat::Invalid => Seq::empty(),
    }
}

/// The names that the first `n` elements of an array pattern bind.
pub open spec fn names_of_elems(elems: Seq<Option<Pat>>, n: int) -> Seq<Seq<char>>
    decreases elems, n,
{
    if 0 < n <= elems.len() {
        names_of_elems(elems, n - 1) + (match elems[n - 1] {
            Some(p) => pat_names(p),
            None => Seq::empty(),
        })
    } else {
        Seq::empty()
    }
}

/// The names that the first `n` properties of an object pattern bind.
pub open spec fn names_of_props(props: Seq<ObjectPatProp>, n: int) -> Seq<Seq<char>>
    decreases props, n,
{
    if 0 < n <= props.len() {
        names_of_props(props, n - 1) + (match props[n - 1] {
            ObjectPatProp::KeyValue(p) => pat_names(p),
            ObjectPatProp::Assign(i) => seq![i.sym@],
            ObjectPatProp::Rest(p) => pat_names(p),
        })
    } else {
        Seq::empty()
    }
}

/// The names that the first `n` declarators of a declaration bind.
pub open spec fn names_of_declarators(decls: Seq<VarDeclarator>, n: int) -> Seq<Seq<char>>
    decreases n,
{
    if 0 < n <= decls.len() {
        names_of_declarators(decls, n - 1) + pat_names(decls[n - 1].name)
    } else {
        Seq::empty()
    }
}

/// Appends to `out` the names that `pat` binds.
#[verifier::loop_isolation(false)]
pub fn collect_names_into(pat: &Pat, out: &mut Vec<String>)
    ensures
        views_of(final(out)@) == views_of(old(out)@) + pat_names(*pat),
    decreases pat,
{
    let ghost start = views_of(out@);
    match pat {
        Pat::Ident(i) => {
            out.push(i.sym.clone());
            assert(views_of(out@) =~= start + pat_names(*pat));
        },
        Pat::Array(elems) => {
            let mut k: usize = 0;
            while k < elems.len()
                invariant
                    k <= elems.len(),
                    views_of(out@) == start + names_of_elems(elems@, k as int),
                decreases elems.len() - k,
            {
                let ghost mid = views_of(out@);
                match &elems[k] {
                    Some(p) => {
                        collect_names_into(p, out);
                    },
                    None => {},
                }
                k += 1;
                assert(views_of(out@) =~= start + names_of_elems(elems@, k as int));
            }
            assert(start + Seq::<Seq<char>>::empty() =~= start);
        },
        Pat::Object(props) => {
            let mut k: usize = 0;
            while k < props.len()
                invariant
                    k <= props.len(),
                    views_of(out@) == start + names_of_props(props@, k as int),
                decreases props.len() - k,
            {
                let ghost mid = views_of(out@);
                match &props[k] {
                    ObjectPatProp::KeyValue(p) => {
                        collect_names_into(p, out);
                    },
                    ObjectPatProp::Assign(i) => {
                        out.push(i.sym.clone());
                        assert(views_of(out@) =~= mid + seq![i.sym@]);
                    },
                    ObjectPatProp::Rest(p) => {
                        collect_names_into(p, out);
                    },
                }
                k += 1;
                assert(views_of(out@) =~= start + names_of_props(props@, k as int));
            }
            assert(start + Seq::<Seq<char>>::empty() =~= start);
        },
        Pat::Rest(inner) => {
            collect_names_into(inner, out);
        },
        Pat::Assign(left) => {
            collect_names_into(left, out);
        },
        Pat::Expr => {
            assert(start + Seq::<Seq<char>>::empty() =~= start);
        },
        Pat::Invalid => {
            assert(start + Seq::<Seq<char>>::empty() =~= start);
        },
    }
}

/// The names that `pat` binds, in source order.
pub fn collect_names_of_pat(pat: &Pat) -> (names: Vec<String>)
    ensures
        views_of(names@) == pat_names(*pat),
{
    let mut out: Vec<String> = Vec::new();
    collect_names_into(pat, &mut out);
    assert(views_of(Seq::<String>::empty()) + pat_names(*pat) =~= pat_names(*pat));
    out
}

} // verus!
