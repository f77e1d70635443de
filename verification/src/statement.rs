//! A top-level item of a module together with what the scanner found in it.

use vstd::prelude::*;
use crate::ast::ModuleItem;
use crate::names::NameMap;
use crate::scanner::ModuleItemInfo;
use crate::side_effect::SideEffect;
use crate::symbol_box::{Mark, SymbolBox};

verus! {

pub struct Statement {
    pub node: ModuleItem,
    /// Whether the statement goes into the bundle.
    pub included: bool,
    /// The module-level names that the statement declares.
    pub declared: NameMap<Mark>,
    pub reads: Vec<Mark>,
    pub writes: Vec<Mark>,
    pub side_effect: Option<SideEffect>,
    /// The mark of the default export, where the statement is one.
    pub export_mark: Option<Mark>,
}

/// Whether an item can define a binding: imports and the export forms that
/// only name bindings cannot.
pub open spec fn item_is_decl_or_stmt(node: ModuleItem) -> bool {
    match node {
        ModuleItem::ModuleDecl(crate::ast::ModuleDecl::ExportDecl(_)) => true,
        ModuleItem::ModuleDecl(crate::ast::ModuleDecl::ExportDefaultExpr(_)) => true,
        ModuleItem::ModuleDecl(crate::ast::ModuleDecl::ExportDefaultDecl(_)) => true,
        ModuleItem::ModuleDecl(_) => false,
        ModuleItem::Stmt(_) => true,
    }
}

/// Whether an item can define a binding.
pub fn is_decl_or_stmt(node: &ModuleItem) -> (r: bool)
    ensures
        r == item_is_decl_or_stmt(*node),
{
    match node {
        ModuleItem::ModuleDecl(crate::ast::ModuleDecl::ExportDecl(_)) => true,
        ModuleItem::ModuleDecl(crate::ast::ModuleDecl::ExportDefaultExpr(_)) => true,
        ModuleItem::ModuleDecl(crate::ast::ModuleDecl::ExportDefaultDecl(_)) => true,
        ModuleItem::ModuleDecl(_) => false,
        ModuleItem::Stmt(_) => true,
    }
}

impl Statement {
    /// The marks that the statement defines: those of the names it declares,
    /// and that of the default export where it is one.
    pub open spec fn defines_mark(&self, m: Mark) -> bool {
        ||| exists|i: int|
            0 <= i < self.declared.entries@.len() && (#[trigger] self.declared.entries@[i]).1 == m
        ||| self.export_mark == Some(m)
    }

    /// Whether the statement defines a binding of the class that `root` stands for.
    pub open spec fn defines_root(&self, symbol_box: &SymbolBox, root: Mark) -> bool {
        item_is_decl_or_stmt(self.node) && exists|m: Mark|
            #[trigger] self.defines_mark(m) && symbol_box.root(m) == root
    }

    /// A statement of which nothing is known yet, and which is not included.
    pub fn new(node: ModuleItem) -> (s: Statement)
        ensures
            s.node == node,
            !s.included,
            s.declared.entries@.len() == 0,
            s.reads@.len() == 0,
            s.writes@.len() == 0,
            s.side_effect is None,
            s.export_mark is None,
    {
        Statement {
            node,
            included: false,
            declared: NameMap::new(),
            reads: Vec::new(),
            writes: Vec::new(),
            side_effect: None,
            export_mark: None,
        }
    }

    /// A statement with what the scanner found in it.
    pub fn from_info(node: ModuleItem, info: ModuleItemInfo) -> (s: Statement)
        ensures
            s.node == node,
            !s.included,
            s.declared == info.declared,
            s.reads == info.reads,
            s.writes == info.writes,
            s.side_effect == info.side_effect,
            s.export_mark == info.export_mark,
    {
        Statement {
            node,
            included: false,
            declared: info.declared,
            reads: info.reads,
            writes: info.writes,
            side_effect: info.side_effect,
            export_mark: info.export_mark,
        }
    }

    /// Marks the statement as going into the bundle.
    pub fn set_included(&mut self)
        ensures
            final(self).included,
            final(self).node == old(self).node,
            final(self).declared == old(self).declared,
            final(self).reads == old(self).reads,
            final(self).writes == old(self).writes,
            final(self).side_effect == old(self).side_effect,
            final(self).export_mark == old(self).export_mark,
    {
        self.included = true;
    }

    /// Whether the statement defines a binding of the class of `root`.
    pub fn defines(&self, symbol_box: &SymbolBox, root: Mark) -> (r: bool)
        requires
            symbol_box.wf(),
        ensures
            r == self.defines_root(symbol_box, root),
    {
        if !is_decl_or_stmt(&self.node) {
            return false;
        }
        match self.export_mark {
            Some(m) => {
                if symbol_box.find_root(m) == root {
                    assert(self.defines_mark(m));
                    return true;
                }
            },
            None => {},
        }
        let mut i: usize = 0;
        while i < self.declared.entries.len()
            invariant
                i <= self.declared.entries@.len(),
                symbol_box.wf(),
                item_is_decl_or_stmt(self.node),
                self.export_mark matches Some(m) ==> symbol_box.root(m) != root,
                forall|j: int|
                    0 <= j < i ==> symbol_box.root((#[trigger] self.declared.entries@[j]).1) != root,
            decreases self.declared.entries@.len() - i,
        {
            if symbol_box.find_root(self.declared.entries[i].1) == root {
                assert(self.defines_mark(self.declared.entries@[i as int].1));
                return true;
            }
            i += 1;
        }
        false
    }
}

} // verus!
