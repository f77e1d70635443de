//! Export folding: before a module is rendered, every export form becomes
//! the plain declaration it wraps, or goes.

use vstd::prelude::*;
use vstd::string::*;
use crate::ast::{
    ClassDecl, Decl, DefaultDecl, Expr, FnDecl, Ident, ModuleDecl, ModuleItem, Pat, Stmt, VarDecl,
    VarDeclKind, VarDeclarator,
};
use crate::module::{Module, ModuleView};
use crate::names::assoc_get;
use crate::shared::{map_get, resolved_get};
use crate::path::{file_stem, file_stem_of, MAX_PATH_LEN};
use crate::statement::Statement;
use crate::symbol_box::{Mark, EMPTY_MARK};

verus! {

/// The characters that a synthesized name keeps.
pub open spec fn is_identifier_char(c: char) -> bool {
    ||| 'a' <= c <= 'z'
    ||| 'A' <= c <= 'Z'
    ||| '0' <= c <= '9'
    ||| c == '_'
    ||| c == '$'
}

/// The identifier characters among the first `n` of `name`, in order.
pub open spec fn valid_prefix(name: Seq<char>, n: int) -> Seq<char>
    decreases n,
{
    if 0 < n <= name.len() {
        valid_prefix(name, n - 1) + (if is_identifier_char(name[n - 1]) {
            seq![name[n - 1]]
        } else {
            Seq::empty()
        })
    } else {
        Seq::empty()
    }
}

/// `name` without the characters that cannot stand in an identifier.
pub open spec fn valid_name(name: Seq<char>) -> Seq<char> {
    valid_prefix(name, name.len() as int)
}

/// `name` without the characters that cannot stand in an identifier.
pub fn get_valid_name(name: &str) -> (r: String)
    ensures
        r@ == valid_name(name@),
{
    let n = name.unicode_len();
    let mut out = String::new();
    let mut i: usize = 0;
    while i < n
        invariant
            i <= n,
            n == name@.len(),
            out@ == valid_prefix(name@, i as int),
        decreases n - i,
    {
        let c = name.get_char(i);
        if ('a' <= c && c <= 'z') || ('A' <= c && c <= 'Z') || ('0' <= c && c <= '9') || c == '_'
            || c == '$' {
            let one = name.substring_char(i, i + 1);
            assert(one@ =~= seq![name@[i as int]]);
            out.append(one);
        } else {
            assert(out@ + Seq::<char>::empty() =~= out@);
        }
        i += 1;
    }
    out
}

/// The part of a module's id that names it: the file name without its extension.
pub open spec fn stem_of(id: Seq<char>) -> Seq<char> {
    if id.len() <= MAX_PATH_LEN {
        file_stem_of(id)
    } else {
        id
    }
}

/// The part of a module's id that names it.
pub fn stem_of_id(id: &String) -> (r: String)
    ensures
        r@ == stem_of(id@),
{
    if id.as_str().unicode_len() <= MAX_PATH_LEN {
        file_stem(id.as_str())
    } else {
        id.clone()
    }
}

/// The name that a module's default export gets where it has none of its
/// own: the one an importer suggested, else one made from the module's id.
pub open spec fn default_export_name(v: ModuleView) -> Seq<char> {
    match assoc_get(v.suggested_names, "default"@) {
        Some(n) => n,
        None => valid_name(stem_of(v.id)),
    }
}

/// The mark of a module's default export; the empty mark where it has none.
pub open spec fn default_export_mark(v: ModuleView) -> Mark {
    match assoc_get(v.exports, "default"@) {
        Some(m) => m,
        None => EMPTY_MARK,
    }
}

/// Whether the item is an `export *` from a source that the module knows to be external.
pub open spec fn is_external_export_all(v: ModuleView, item: ModuleItem) -> bool {
    match item {
        ModuleItem::ModuleDecl(ModuleDecl::ExportAll { src }) => match map_get(
            v.resolved_ids,
            src@,
        ) {
            Some(resolved) => resolved.external,
            None => false,
        },
        _ => false,
    }
}

/// Whether folding the item makes a name for the default export.
pub open spec fn needs_default_ident(item: ModuleItem) -> bool {
    match item {
        ModuleItem::ModuleDecl(ModuleDecl::ExportDefaultDecl(DefaultDecl::Class { ident: None })) => true,
        ModuleItem::ModuleDecl(ModuleDecl::ExportDefaultDecl(DefaultDecl::Fn { ident: None })) => true,
        ModuleItem::ModuleDecl(ModuleDecl::ExportDefaultExpr(Expr::Ident(_))) => false,
        ModuleItem::ModuleDecl(ModuleDecl::ExportDefaultExpr(_)) => true,
        _ => false,
    }
}

/// Whether `id` is the name made for a default export.
pub open spec fn is_default_ident(id: Ident, name: Seq<char>, mark: Mark) -> bool {
    id.sym@ == name && id.mark == mark
}

/// Whether `r` is `item` folded, where a default export without a name gets
/// `name` and `mark`, and `external` says whether an `export *` stays.
pub open spec fn is_fold_of(
    r: ModuleItem,
    item: ModuleItem,
    external: bool,
    name: Seq<char>,
    mark: Mark,
) -> bool {
    match item {
        ModuleItem::Stmt(_) => r == item,
        ModuleItem::ModuleDecl(decl) => match decl {
            ModuleDecl::ExportDecl(d) => r == ModuleItem::Stmt(Stmt::Decl(d)),
            ModuleDecl::ExportDefaultDecl(DefaultDecl::Class { ident: Some(i) }) => r
                == ModuleItem::Stmt(Stmt::Decl(Decl::Class(ClassDecl { ident: i }))),
            ModuleDecl::ExportDefaultDecl(DefaultDecl::Class { ident: None }) => r matches ModuleItem::Stmt(
                Stmt::Decl(Decl::Class(c)),
            ) && is_default_ident(c.ident, name, mark),
            ModuleDecl::ExportDefaultDecl(DefaultDecl::Fn { ident: Some(i) }) => r
                == ModuleItem::Stmt(Stmt::Decl(Decl::Fn(FnDecl { ident: i }))),
            ModuleDecl::ExportDefaultDecl(DefaultDecl::Fn { ident: None }) => r matches ModuleItem::Stmt(
                Stmt::Decl(Decl::Fn(f)),
            ) && is_default_ident(f.ident, name, mark),
            ModuleDecl::ExportDefaultDecl(DefaultDecl::TsInterface) => r == ModuleItem::Stmt(
                Stmt::Empty,
            ),
            ModuleDecl::ExportDefaultExpr(Expr::Ident(_)) => r == ModuleItem::Stmt(Stmt::Empty),
            ModuleDecl::ExportDefaultExpr(e) => r matches ModuleItem::Stmt(
                Stmt::Decl(Decl::Var(v)),
            ) && {
                &&& v.kind is Var
                &&& v.decls@.len() == 1
                &&& v.decls@[0].init == Some(e)
                &&& v.decls@[0].name matches Pat::Ident(i) && is_default_ident(i, name, mark)
            },
            ModuleDecl::ExportAll { .. } => if external {
                r == item
            } else {
                r == ModuleItem::Stmt(Stmt::Empty)
            },
            ModuleDecl::Import(_) => r == ModuleItem::Stmt(Stmt::Empty),
            ModuleDecl::ExportNamed(_) => r == ModuleItem::Stmt(Stmt::Empty),
            ModuleDecl::Other => r == ModuleItem::Stmt(Stmt::Empty),
        },
    }
}

/// Folding what was folded changes nothing: a folded item folds to itself,
/// whatever name and mark are at hand, and no name is made for it.
pub proof fn lemma_fold_idempotent(
    item: ModuleItem,
    once: ModuleItem,
    twice: ModuleItem,
    external: bool,
    name: Seq<char>,
    mark: Mark,
    name2: Seq<char>,
    mark2: Mark,
)
    requires
        is_fold_of(once, item, external, name, mark),
        is_fold_of(twice, once, external, name2, mark2),
    ensures
        twice == once,
        !needs_default_ident(once),
{
}

/// The declared names after a fold of `item`: with the name of the default export where one was made.
pub open spec fn symbols_after_fold(v: ModuleView, item: ModuleItem) -> Seq<(Seq<char>, Mark)> {
    if needs_default_ident(item) {
        v.declared_symbols.push((default_export_name(v), default_export_mark(v)))
    } else {
        v.declared_symbols
    }
}

/// Makes the name for a default export that has none, and declares it in the module.
fn make_default_ident(module: &mut Module) -> (id: Ident)
    ensures
        is_default_ident(
            id,
            default_export_name(old(module).deep_view()),
            default_export_mark(old(module).deep_view()),
        ),
        final(module).deep_view() == (ModuleView {
            declared_symbols: old(module).deep_view().declared_symbols.push(
                (
                    default_export_name(old(module).deep_view()),
                    default_export_mark(old(module).deep_view()),
                ),
            ),
            ..old(module).deep_view()
        }),
{
    let key = String::from_str("default");
    let name = match module.suggested_names.get(&key) {
        Some(n) => n.clone(),
        None => {
            let stem = stem_of_id(&module.id);
            get_valid_name(stem.as_str())
        },
    };
    let mark = match module.exports.get(&key) {
        Some(m) => *m,
        None => EMPTY_MARK,
    };
    module.declared_symbols.append(name.clone(), mark);
    Ident { sym: name, mark }
}

/// Folds one item: an exported declaration loses its `export`, a default
/// export without a name gets one, and what only names bindings goes. An
/// `export *` stays where its source is external.
pub fn fold_export_decl_to_decl(module_item: ModuleItem, module: &mut Module) -> (r: ModuleItem)
    ensures
        is_fold_of(
            r,
            module_item,
            is_external_export_all(old(module).deep_view(), module_item),
            default_export_name(old(module).deep_view()),
            default_export_mark(old(module).deep_view()),
        ),
        final(module).deep_view() == (ModuleView {
            declared_symbols: symbols_after_fold(old(module).deep_view(), module_item),
            ..old(module).deep_view()
        }),
{
    match module_item {
        ModuleItem::Stmt(s) => ModuleItem::Stmt(s),
        ModuleItem::ModuleDecl(decl) => match decl {
            ModuleDecl::ExportDecl(d) => ModuleItem::Stmt(Stmt::Decl(d)),
            ModuleDecl::ExportDefaultDecl(DefaultDecl::Class { ident }) => {
                let ident = match ident {
                    Some(i) => i,
                    None => make_default_ident(module),
                };
                ModuleItem::Stmt(Stmt::Decl(Decl::Class(ClassDecl { ident })))
            },
            ModuleDecl::ExportDefaultDecl(DefaultDecl::Fn { ident }) => {
                let ident = match ident {
                    Some(i) => i,
                    None => make_default_ident(module),
                };
                ModuleItem::Stmt(Stmt::Decl(Decl::Fn(FnDecl { ident })))
            },
            ModuleDecl::ExportDefaultDecl(DefaultDecl::TsInterface) => ModuleItem::Stmt(Stmt::Empty),
            ModuleDecl::ExportDefaultExpr(e) => match e {
                Expr::Ident(_) => ModuleItem::Stmt(Stmt::Empty),
                other => {
                    let ident = make_default_ident(module);
                    let mut decls: Vec<VarDeclarator> = Vec::new();
                    decls.push(VarDeclarator { name: Pat::Ident(ident), init: Some(other) });
                    ModuleItem::Stmt(Stmt::Decl(Decl::Var(VarDecl { kind: VarDeclKind::Var, decls })))
                },
            },
            ModuleDecl::ExportAll { src } => {
                let external = match resolved_get(&module.resolved_ids, &src) {
                    Some(resolved) => resolved.external,
                    None => false,
                };
                if external {
                    ModuleItem::ModuleDecl(ModuleDecl::ExportAll { src })
                } else {
                    ModuleItem::Stmt(Stmt::Empty)
                }
            },
            ModuleDecl::Import(_) => ModuleItem::Stmt(Stmt::Empty),
            ModuleDecl::ExportNamed(_) => ModuleItem::Stmt(Stmt::Empty),
            ModuleDecl::Other => ModuleItem::Stmt(Stmt::Empty),
        },
    }
}

/// The number of names for default exports that folding the first `n` statements makes.
pub open spec fn default_idents_made(statements: Seq<Statement>, n: int) -> nat
    decreases n,
{
    if 0 < n <= statements.len() {
        default_idents_made(statements, n - 1) + (if needs_default_ident(statements[n - 1].node) {
            1nat
        } else {
            0nat
        })
    } else {
        0
    }
}

/// Whether `after` is the module `before` with every statement folded: the
/// statements differ in their items alone, and the names made for default
/// exports are declared behind the others.
pub open spec fn is_trim_of(before: Module, after: Module) -> bool {
    &&& after.statements@.len() == before.statements@.len()
    &&& forall|i: int|
        0 <= i < before.statements@.len() ==> {
            let old_one = #[trigger] before.statements@[i];
            let new_one = after.statements@[i];
            &&& new_one == (Statement { node: new_one.node, ..old_one })
            &&& is_fold_of(
                new_one.node,
                old_one.node,
                is_external_export_all(before.deep_view(), old_one.node),
                default_export_name(before.deep_view()),
                default_export_mark(before.deep_view()),
            )
        }
    &&& after.deep_view() == (ModuleView {
        statements: after.statements@,
        declared_symbols: before.deep_view().declared_symbols + Seq::new(
            default_idents_made(before.statements@, before.statements@.len() as int),
            |k: int| (default_export_name(before.deep_view()), default_export_mark(before.deep_view())),
        ),
        ..before.deep_view()
    })
}

impl Module {
    /// Folds every statement of the module, in order.
    pub fn trim_exports(&mut self)
        ensures
            is_trim_of(*old(self), *final(self)),
    {
        let ghost start = self.deep_view();
        let ghost name = default_export_name(start);
        let ghost mark = default_export_mark(start);
        let mut statements: Vec<Statement> = Vec::new();
        std::mem::swap(&mut self.statements, &mut statements);
        let ghost given = statements@;
        assert(start.declared_symbols + Seq::new(0, |k: int| (name, mark))
            =~= start.declared_symbols);
        let mut i: usize = 0;
        while i < statements.len()
            invariant
                i <= statements@.len(),
                given == start.statements,
                statements@.len() == given.len(),
                name == default_export_name(start),
                mark == default_export_mark(start),
                self.deep_view() == (ModuleView {
                    statements: Seq::empty(),
                    declared_symbols: start.declared_symbols + Seq::new(
                        default_idents_made(given, i as int),
                        |k: int| (name, mark),
                    ),
                    ..start
                }),
                forall|j: int| i <= j < given.len() ==> statements@[j] == given[j],
                forall|j: int|
                    0 <= j < i ==> {
                        let before = #[trigger] given[j];
                        let after = statements@[j];
                        &&& after == (Statement { node: after.node, ..before })
                        &&& is_fold_of(
                            after.node,
                            before.node,
                            is_external_export_all(start, before.node),
                            name,
                            mark,
                        )
                    },
            decreases statements@.len() - i,
        {
            let ghost before_symbols = self.deep_view().declared_symbols;
            let mut node = ModuleItem::Stmt(Stmt::Empty);
            std::mem::swap(&mut statements[i].node, &mut node);
            let mut folded = fold_export_decl_to_decl(node, self);
            std::mem::swap(&mut statements[i].node, &mut folded);
            proof {
                let made = default_idents_made(given, i as int);
                if needs_default_ident(given[i as int].node) {
                    assert(before_symbols.push((name, mark)) =~= start.declared_symbols + Seq::new(
                        made + 1,
                        |k: int| (name, mark),
                    ));
                }
            }
            i += 1;
        }
        std::mem::swap(&mut self.statements, &mut statements);
    }
}

} // verus!
