//! Lexical scopes: what each one declares, and where a declaration lands.

use vstd::prelude::*;
use crate::names::{assoc_get, assoc_put, NameMap};
use crate::symbol_box::Mark;

verus! {

#[derive(Clone, Copy, Debug, PartialEq, Eq, Structural)]
pub enum ScopeKind {
    Block,
    Fn,
}

/// How a name came to be bound.
#[derive(Clone, Copy, Debug, PartialEq, Eq, Structural)]
pub enum BindType {
    Import,
    Var,
    Let,
    Const,
    Fn,
    Class,
    Param,
}

/// The syntax forms that the scope rules tell apart.
#[derive(Clone, Copy, Debug, PartialEq, Eq, Structural)]
pub enum SyntaxKind {
    FnDecl,
    FnExpr,
    Arrow,
    Method,
    Accessor,
    Constructor,
    ClassBody,
    /// A block statement that is not the body of a function.
    Block,
    /// The block that is the body of a function.
    FnBody,
    CatchClause,
    For,
    ForIn,
    ForOf,
    Other,
}

/// The scope that a syntax form opens, if it opens one.
pub open spec fn scope_opened_by(kind: SyntaxKind) -> Option<ScopeKind> {
    match kind {
        SyntaxKind::FnDecl => Some(ScopeKind::Fn),
        SyntaxKind::FnExpr => Some(ScopeKind::Fn),
        SyntaxKind::Arrow => Some(ScopeKind::Fn),
        SyntaxKind::Method => Some(ScopeKind::Fn),
        SyntaxKind::Accessor => Some(ScopeKind::Fn),
        SyntaxKind::Constructor => Some(ScopeKind::Fn),
        SyntaxKind::ClassBody => Some(ScopeKind::Fn),
        SyntaxKind::Block => Some(ScopeKind::Block),
        SyntaxKind::FnBody => None,
        SyntaxKind::CatchClause => Some(ScopeKind::Block),
        SyntaxKind::For => Some(ScopeKind::Block),
        SyntaxKind::ForIn => Some(ScopeKind::Block),
        SyntaxKind::ForOf => Some(ScopeKind::Block),
        SyntaxKind::Other => None,
    }
}

/// The scope that a syntax form opens, if it opens one.
pub fn scope_kind_of(kind: SyntaxKind) -> (r: Option<ScopeKind>)
    ensures
        r == scope_opened_by(kind),
{
    match kind {
        SyntaxKind::FnDecl
        | SyntaxKind::FnExpr
        | SyntaxKind::Arrow
        | SyntaxKind::Method
        | SyntaxKind::Accessor
        | SyntaxKind::Constructor
        | SyntaxKind::ClassBody => Some(ScopeKind::Fn),
        SyntaxKind::Block
        | SyntaxKind::CatchClause
        | SyntaxKind::For
        | SyntaxKind::ForIn
        | SyntaxKind::ForOf => Some(ScopeKind::Block),
        SyntaxKind::FnBody | SyntaxKind::Other => None,
    }
}

/// What an identifier stands as, by the place where it is met.
#[derive(Clone, Copy, Debug, PartialEq, Eq, Structural)]
pub enum IdentRole {
    /// The local name of an import.
    ImportLocal,
    /// A name that `var` declares.
    VarName,
    /// A name that `let` declares.
    LetName,
    /// A name that `const` declares.
    ConstName,
    /// The name of a function.
    FnName,
    /// The name of a class.
    ClassName,
    /// A parameter of a function.
    Param,
    /// The parameter of a `catch`.
    CatchParam,
    /// A use of a name.
    Use,
    /// A label of a statement, or the label that `break` or `continue` names.
    Label,
}

/// How the name of a role is bound; a use and a label bind nothing.
pub open spec fn binding_of_role(role: IdentRole) -> Option<BindType> {
    match role {
        IdentRole::ImportLocal => Some(BindType::Import),
        IdentRole::VarName => Some(BindType::Var),
        IdentRole::LetName => Some(BindType::Let),
        IdentRole::ConstName => Some(BindType::Const),
        IdentRole::FnName => Some(BindType::Fn),
        IdentRole::ClassName => Some(BindType::Class),
        IdentRole::Param => Some(BindType::Param),
        IdentRole::CatchParam => Some(BindType::Let),
        IdentRole::Use => None,
        IdentRole::Label => None,
    }
}

/// How the name of a role is bound; a use and a label bind nothing.
pub fn bind_type_of(role: IdentRole) -> (r: Option<BindType>)
    ensures
        r == binding_of_role(role),
{
    match role {
        IdentRole::ImportLocal => Some(BindType::Import),
        IdentRole::VarName => Some(BindType::Var),
        IdentRole::LetName => Some(BindType::Let),
        IdentRole::ConstName => Some(BindType::Const),
        IdentRole::FnName => Some(BindType::Fn),
        IdentRole::ClassName => Some(BindType::Class),
        IdentRole::Param => Some(BindType::Param),
        IdentRole::CatchParam => Some(BindType::Let),
        IdentRole::Use => None,
        IdentRole::Label => None,
    }
}

/// A `var` and a parameter belong to the function, whatever block they stand in.
pub open spec fn hoists(kind: BindType) -> bool {
    kind == BindType::Var || kind == BindType::Param
}

#[derive(Clone, Copy, Debug, PartialEq, Eq, Structural)]
pub struct Binding {
    pub mark: Mark,
    pub kind: BindType,
}

impl DeepView for Binding {
    type V = Binding;

    open spec fn deep_view(&self) -> Binding {
        *self
    }
}

pub struct Scope {
    pub kind: ScopeKind,
    pub declared_symbols: NameMap<Binding>,
}

pub ghost struct ScopeView {
    pub kind: ScopeKind,
    pub declared: Seq<(Seq<char>, Binding)>,
}

impl DeepView for Scope {
    type V = ScopeView;

    open spec fn deep_view(&self) -> ScopeView {
        ScopeView { kind: self.kind, declared: self.declared_symbols.deep_view() }
    }
}

impl Scope {
    pub fn new(kind: ScopeKind) -> (s: Scope)
        ensures
            s.deep_view() == (ScopeView { kind, declared: Seq::empty() }),
    {
        Scope { kind, declared_symbols: NameMap::new() }
    }

    /// Whether the scope is that of a function.
    pub fn is_fn(&self) -> (r: bool)
        ensures
            r == (self.kind == ScopeKind::Fn),
    {
        match self.kind {
            ScopeKind::Fn => true,
            ScopeKind::Block => false,
        }
    }
}

/// The innermost function scope at or below position `i`; the outermost
/// scope where there is none.
pub open spec fn nearest_fn(stack: Seq<ScopeView>, i: int) -> int
    decreases i,
{
    if i <= 0 {
        0
    } else if stack[i].kind == ScopeKind::Fn {
        i
    } else {
        nearest_fn(stack, i - 1)
    }
}

/// The position of the scope that receives a declaration of the given kind.
pub open spec fn declare_target(stack: Seq<ScopeView>, kind: BindType) -> int {
    if hoists(kind) {
        nearest_fn(stack, stack.len() - 1)
    } else {
        stack.len() - 1
    }
}

/// The stack after `name` was declared.
pub open spec fn stack_declare(stack: Seq<ScopeView>, name: Seq<char>, b: Binding) -> Seq<
    ScopeView,
> {
    let t = declare_target(stack, b.kind);
    stack.update(
        t,
        ScopeView { kind: stack[t].kind, declared: assoc_put(stack[t].declared, name, b) },
    )
}

/// The binding of `name` that is visible from scope `i`: that of the
/// innermost scope, from `i` outwards, that declares the name.
pub open spec fn stack_resolve(stack: Seq<ScopeView>, name: Seq<char>, i: int) -> Option<Binding>
    decreases i + 1,
{
    if i < 0 || i >= stack.len() {
        None
    } else {
        match assoc_get(stack[i].declared, name) {
            Some(b) => Some(b),
            None => stack_resolve(stack, name, i - 1),
        }
    }
}

} // verus!
