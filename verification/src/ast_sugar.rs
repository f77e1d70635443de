//! Items that the linker writes itself: the object that stands for a
//! module's namespace, and the export list of an entry module.

use vstd::prelude::*;
use vstd::string::*;
use crate::ast::{
    Callee, Decl, ExportSpecifier, Expr, Ident, Lit, ModuleDecl, ModuleExportName, NamedExport,
    Pat, Prop, PropName, Stmt, VarDecl, VarDeclKind, VarDeclarator,
};
use crate::symbol_box::{Mark, EMPTY_MARK};

verus! {

/// `e` is `Object.freeze`, both names bound nowhere in the bundle.
pub open spec fn is_object_freeze(e: Expr) -> bool {
    e matches Expr::Member(obj, prop) && {
        &&& *obj matches Expr::Ident(o) && o.sym@ == "Object"@ && o.mark == EMPTY_MARK
        &&& *prop matches Expr::Ident(p) && p.sym@ == "freeze"@ && p.mark == EMPTY_MARK
    }
}

/// `p` is `__proto__: null`.
pub open spec fn is_proto_null(p: Prop) -> bool {
    p matches Prop::KeyValue(PropName::Str(k), Expr::Lit(Lit::Null)) && k@ == "__proto__"@
}

/// `p` is `key: key`, where the value carries the mark of the member.
pub open spec fn is_member_prop(p: Prop, member: (Seq<char>, Mark)) -> bool {
    p matches Prop::KeyValue(PropName::Str(k), Expr::Ident(i)) && {
        &&& k@ == member.0
        &&& i.sym@ == member.0
        &&& i.mark == member.1
    }
}

/// `props` are `__proto__: null` and then one property for each member, in order.
pub open spec fn are_namespace_props(props: Seq<Prop>, members: Seq<(Seq<char>, Mark)>) -> bool {
    &&& props.len() == members.len() + 1
    &&& is_proto_null(props[0])
    &&& forall|i: int| 0 <= i < members.len() ==> is_member_prop(#[trigger] props[i + 1], members[i])
}

/// `stmt` is `const name = Object.freeze({ __proto__: null, k: k, .. })`
/// with one property for each member, the name carrying `mark`.
pub open spec fn is_namespace_stmt(
    stmt: Stmt,
    name: Seq<char>,
    mark: Mark,
    members: Seq<(Seq<char>, Mark)>,
) -> bool {
    stmt matches Stmt::Decl(Decl::Var(v)) && {
        &&& v.kind is Const
        &&& v.decls@.len() == 1
        &&& v.decls@[0].name matches Pat::Ident(i) && i.sym@ == name && i.mark == mark
        &&& v.decls@[0].init matches Some(Expr::Call(Callee::Expr(callee), args)) && {
            &&& is_object_freeze(*callee)
            &&& args@.len() == 1
            &&& args@[0] matches Expr::Object(props) && are_namespace_props(props@, members)
        }
    }
}

/// `s` is `name as name`, where the first carries the mark of the export.
pub open spec fn is_export_specifier(s: ExportSpecifier, export: (Seq<char>, Mark)) -> bool {
    s matches ExportSpecifier::Named {
        orig: ModuleExportName::Ident(o),
        exported: Some(ModuleExportName::Ident(e)),
    } && {
        &&& o.sym@ == export.0
        &&& o.mark == export.1
        &&& e.sym@ == export.0
        &&& e.mark == EMPTY_MARK
    }
}

/// `decl` is `export { .. }` with one specifier for each export, in order.
pub open spec fn is_export_list(decl: ModuleDecl, exports: Seq<(Seq<char>, Mark)>) -> bool {
    decl matches ModuleDecl::ExportNamed(n) && {
        &&& n.src is None
        &&& n.specifiers@.len() == exports.len()
        &&& forall|i: int|
            0 <= i < exports.len() ==> is_export_specifier(#[trigger] n.specifiers@[i], exports[i])
    }
}

fn plain_ident(s: &str) -> (r: Expr)
    ensures
        r matches Expr::Ident(i) && i.sym@ == s@ && i.mark == EMPTY_MARK,
{
    Expr::Ident(Ident { sym: String::from_str(s), mark: EMPTY_MARK })
}

/// The statement that makes a module's namespace object.
pub fn namespace(var_name: (String, Mark), key_values: &Vec<(String, Mark)>) -> (stmt: Stmt)
    ensures
        is_namespace_stmt(stmt, var_name.0@, var_name.1, key_values.deep_view()),
{
    let ghost members = key_values.deep_view();
    let mut props: Vec<Prop> = Vec::new();
    props.push(Prop::KeyValue(PropName::Str(String::from_str("__proto__")), Expr::Lit(Lit::Null)));
    let mut i: usize = 0;
    while i < key_values.len()
        invariant
            i <= key_values@.len(),
            members == key_values.deep_view(),
            props@.len() == i + 1,
            is_proto_null(props@[0]),
            forall|j: int| 0 <= j < i ==> is_member_prop(#[trigger] props@[j + 1], members[j]),
        decreases key_values@.len() - i,
    {
        let key = key_values[i].0.clone();
        let value = Ident { sym: key_values[i].0.clone(), mark: key_values[i].1 };
        assert(members[i as int] == (key_values@[i as int].0@, key_values@[i as int].1));
        props.push(Prop::KeyValue(PropName::Str(key), Expr::Ident(value)));
        i += 1;
    }
    let callee = Expr::Member(Box::new(plain_ident("Object")), Box::new(plain_ident("freeze")));
    let mut args: Vec<Expr> = Vec::new();
    args.push(Expr::Object(props));
    let mut decls: Vec<VarDeclarator> = Vec::new();
    decls.push(
        VarDeclarator {
            name: Pat::Ident(Ident { sym: var_name.0, mark: var_name.1 }),
            init: Some(Expr::Call(Callee::Expr(Box::new(callee)), args)),
        },
    );
    Stmt::Decl(Decl::Var(VarDecl { kind: VarDeclKind::Const, decls }))
}

/// The export list of a module: `export { a as a, .. }`.
pub fn export(exports: &Vec<(String, Mark)>) -> (decl: ModuleDecl)
    ensures
        is_export_list(decl, exports.deep_view()),
{
    let ghost all = exports.deep_view();
    let mut specifiers: Vec<ExportSpecifier> = Vec::new();
    let mut i: usize = 0;
    while i < exports.len()
        invariant
            i <= exports@.len(),
            all == exports.deep_view(),
            specifiers@.len() == i,
            forall|j: int| 0 <= j < i ==> is_export_specifier(#[trigger] specifiers@[j], all[j]),
        decreases exports@.len() - i,
    {
        assert(all[i as int] == (exports@[i as int].0@, exports@[i as int].1));
        specifiers.push(
            ExportSpecifier::Named {
                orig: ModuleExportName::Ident(
                    Ident { sym: exports[i].0.clone(), mark: exports[i].1 },
                ),
                exported: Some(
                    ModuleExportName::Ident(
                        Ident { sym: exports[i].0.clone(), mark: EMPTY_MARK },
                    ),
                ),
            },
        );
        i += 1;
    }
    ModuleDecl::ExportNamed(NamedExport { specifiers, src: None })
}

} // verus!
