use rolldown::ast::{
    collect_names_of_pat, Callee, ClassDecl, Decl, DefaultDecl, ExportSpecifier, Expr, Ident,
    ImportDecl, ImportSpecifier, Lit, ModuleDecl, ModuleExportName, ModuleItem, NamedExport,
    ObjectPatProp, Pat, Stmt, VarDecl, VarDeclKind, VarDeclarator,
};
use rolldown::scanner::scope::{
    bind_type_of, scope_kind_of, BindType, IdentRole, Scope, ScopeKind, SyntaxKind,
};
use rolldown::scanner::{ident_type_for, IdentType, Scanner};
use rolldown::side_effect::{detect_side_effect, detect_side_effect_of_expr, SideEffect};
use rolldown::symbol_box::SymbolBox;

fn ident(name: &str) -> Ident {
    Ident { sym: name.to_owned(), mark: 0 }
}

fn scanner() -> Scanner {
    Scanner::new(Scope::new(ScopeKind::Fn))
}

#[test]
fn var_hoists_to_the_function_and_let_stays_in_the_block() {
    let mut sb = SymbolBox::new();
    let mut s = scanner();
    s.push_scope(ScopeKind::Fn);
    s.push_scope(ScopeKind::Block);
    let v = s.declare_name(&mut sb, &"v".to_owned(), BindType::Var);
    let l = s.declare_name(&mut sb, &"l".to_owned(), BindType::Let);
    assert_eq!(s.resolve_name(&"v".to_owned()), v);
    assert_eq!(s.resolve_name(&"l".to_owned()), l);
    s.pop_scope();
    // Out of the block the `let` is gone, the `var` is still there.
    assert_eq!(s.resolve_name(&"v".to_owned()), v);
    assert_eq!(s.resolve_name(&"l".to_owned()), 0);
    s.pop_scope();
    assert_eq!(s.resolve_name(&"v".to_owned()), 0);
    assert_eq!(s.stacks.len(), 1);
    // Neither was declared at the top of the module.
    assert_eq!(s.current.declared.len(), 0);
}

#[test]
fn a_use_resolves_to_the_innermost_binding() {
    let mut sb = SymbolBox::new();
    let mut s = scanner();
    let outer = s.declare_name(&mut sb, &"x".to_owned(), BindType::Const);
    s.push_scope(ScopeKind::Block);
    let inner = s.declare_name(&mut sb, &"x".to_owned(), BindType::Let);
    assert_ne!(outer, inner);
    let mut id = ident("x");
    s.resolve_ctxt_for_ident(&mut id);
    assert_eq!(id.mark, inner);
    s.pop_scope();
    let mut id = ident("x");
    s.resolve_ctxt_for_ident(&mut id);
    assert_eq!(id.mark, outer);
    let mut unknown = ident("window");
    s.resolve_ctxt_for_ident(&mut unknown);
    assert_eq!(unknown.mark, 0);
}

#[test]
fn the_module_scope_is_never_closed() {
    let mut s = scanner();
    s.pop_scope();
    s.pop_scope();
    assert_eq!(s.stacks.len(), 1);
    assert!(matches!(s.get_cur_scope().kind, ScopeKind::Fn));
}

#[test]
fn reads_and_writes_are_recorded_once() {
    let mut sb = SymbolBox::new();
    let mut s = scanner();
    let a = s.declare_name(&mut sb, &"a".to_owned(), BindType::Let);
    let b = s.declare_name(&mut sb, &"b".to_owned(), BindType::Let);
    s.begin_item(&ModuleItem::Stmt(Stmt::Empty));
    s.reference(&mut ident("a"), false);
    s.reference(&mut ident("b"), true);
    s.reference(&mut ident("a"), false);
    s.reference(&mut ident("global"), true);
    assert_eq!(s.current.reads, vec![a, b]);
    assert_eq!(s.current.writes, vec![b]);
    s.end_item();
    assert_eq!(s.statement_infos.len(), 1);
    assert_eq!(s.statement_infos[0].reads, vec![a, b]);
    assert_eq!(s.current.reads.len(), 0);
}

#[test]
fn a_pattern_binds_its_names_in_source_order() {
    let pat = Pat::Array(vec![
        Some(Pat::Ident(ident("a"))),
        None,
        Some(Pat::Object(vec![
            ObjectPatProp::Assign(ident("b")),
            ObjectPatProp::KeyValue(Pat::Assign(Box::new(Pat::Ident(ident("c"))))),
            ObjectPatProp::Rest(Pat::Ident(ident("d"))),
        ])),
        Some(Pat::Rest(Box::new(Pat::Ident(ident("e"))))),
        Some(Pat::Expr),
    ]);
    assert_eq!(collect_names_of_pat(&pat), vec!["a", "b", "c", "d", "e"]);
    let mut sb = SymbolBox::new();
    let mut s = scanner();
    let marks = s.declare_pat(&mut sb, &pat, BindType::Const);
    assert_eq!(marks, vec![1, 2, 3, 4, 5]);
    assert_eq!(s.resolve_ctxt_for_pat(&pat), marks);
    assert_eq!(s.current.declared.len(), 5);
}

#[test]
fn scopes_open_where_the_rules_say() {
    assert_eq!(scope_kind_of(SyntaxKind::Arrow), Some(ScopeKind::Fn));
    assert_eq!(scope_kind_of(SyntaxKind::Constructor), Some(ScopeKind::Fn));
    assert_eq!(scope_kind_of(SyntaxKind::ClassBody), Some(ScopeKind::Fn));
    assert_eq!(scope_kind_of(SyntaxKind::Block), Some(ScopeKind::Block));
    assert_eq!(scope_kind_of(SyntaxKind::CatchClause), Some(ScopeKind::Block));
    assert_eq!(scope_kind_of(SyntaxKind::ForOf), Some(ScopeKind::Block));
    assert_eq!(scope_kind_of(SyntaxKind::FnBody), None);
    assert_eq!(scope_kind_of(SyntaxKind::Other), None);
}

#[test]
fn imports_are_entered_by_source_in_order_of_first_sight() {
    let mut s = scanner();
    let import = |src: &str, specifiers: Vec<ImportSpecifier>| {
        ModuleDecl::Import(ImportDecl { specifiers, src: src.to_owned() })
    };
    s.add_import(&import(
        "./a",
        vec![
            ImportSpecifier::Default { local: Ident { sym: "d".to_owned(), mark: 5 } },
            ImportSpecifier::Named {
                local: Ident { sym: "y".to_owned(), mark: 6 },
                imported: Some(ModuleExportName::Ident(ident("x"))),
            },
        ],
    ));
    s.add_import(&import("./b", vec![ImportSpecifier::Namespace { local: ident("ns") }]));
    s.add_import(&import(
        "./a",
        vec![ImportSpecifier::Named { local: ident("z"), imported: None }],
    ));
    s.add_import(&import("./side-effect", vec![]));
    assert_eq!(s.import_infos.len(), 3);
    let a = &s.import_infos.entries[0];
    assert_eq!(a.0, "./a");
    assert_eq!(a.1.order, 0);
    let got: Vec<(&str, &str, u32)> =
        a.1.names.iter().map(|n| (n.original.as_str(), n.used.as_str(), n.mark)).collect();
    assert_eq!(got, vec![("default", "d", 5), ("x", "y", 6), ("z", "z", 0)]);
    let b = &s.import_infos.entries[1];
    assert_eq!((b.0.as_str(), b.1.order), ("./b", 1));
    assert_eq!(b.1.names[0].original, "*");
    assert_eq!(s.import_infos.entries[2].1.names.len(), 0);
    assert_eq!(s.cur_relation_order, 3);
}

#[test]
fn every_export_form_is_entered() {
    let mut sb = SymbolBox::new();
    let mut s = scanner();
    let named = |specifiers, src: Option<&str>| {
        ModuleDecl::ExportNamed(NamedExport { specifiers, src: src.map(|s| s.to_owned()) })
    };
    // export { x as y }
    s.add_export(
        &mut sb,
        &named(
            vec![ExportSpecifier::Named {
                orig: ModuleExportName::Ident(ident("x")),
                exported: Some(ModuleExportName::Ident(ident("y"))),
            }],
            None,
        ),
    );
    let y = s.local_exports.get(&"y".to_owned()).unwrap();
    assert_eq!((y.local_name.as_str(), &y.identifier, y.mark), ("x", &None, 1));
    // export { a } from 's'; export * as n from 's'
    s.add_export(
        &mut sb,
        &named(
            vec![
                ExportSpecifier::Named { orig: ModuleExportName::Ident(ident("a")), exported: None },
                ExportSpecifier::Namespace { name: ModuleExportName::Ident(ident("n")) },
                ExportSpecifier::Default { ident: ident("v") },
            ],
            Some("s"),
        ),
    );
    let a = s.re_exports.get(&"a".to_owned()).unwrap();
    assert_eq!((a.source.as_str(), a.original.as_str(), a.mark), ("s", "a", 2));
    let n = s.re_exports.get(&"n".to_owned()).unwrap();
    assert_eq!((n.source.as_str(), n.original.as_str(), n.mark), ("s", "*", 3));
    assert_eq!(s.re_export_infos.len(), 1);
    assert_eq!(s.re_export_infos.entries[0].1.names.len(), 2);
    assert_eq!(s.re_export_infos.entries[0].1.order, 0);
    // export * from 't'
    s.add_export(&mut sb, &ModuleDecl::ExportAll { src: "t".to_owned() });
    assert_eq!(s.export_all_sources, vec![("t".to_owned(), 1)]);
    // export default class Named {}
    s.begin_item(&ModuleItem::Stmt(Stmt::Empty));
    s.add_export(
        &mut sb,
        &ModuleDecl::ExportDefaultDecl(DefaultDecl::Class { ident: Some(ident("Named")) }),
    );
    let d = s.local_exports.get(&"default".to_owned()).unwrap();
    assert_eq!(
        (d.local_name.as_str(), d.identifier.as_deref(), d.mark),
        ("default", Some("Named"), 4)
    );
    assert_eq!(s.current.export_mark, Some(4));
    // export default 1 + 1; export default foo
    s.add_export(&mut sb, &ModuleDecl::ExportDefaultExpr(Expr::Lit(Lit::Other)));
    assert_eq!(s.local_exports.get(&"default".to_owned()).unwrap().identifier, None);
    s.add_export(&mut sb, &ModuleDecl::ExportDefaultExpr(Expr::Ident(ident("foo"))));
    assert_eq!(
        s.local_exports.get(&"default".to_owned()).unwrap().identifier.as_deref(),
        Some("foo")
    );
    // export class C {}; export var [p, q] = ..
    s.add_export(&mut sb, &ModuleDecl::ExportDecl(Decl::Class(ClassDecl { ident: ident("C") })));
    s.add_export(
        &mut sb,
        &ModuleDecl::ExportDecl(Decl::Var(VarDecl {
            kind: VarDeclKind::Var,
            decls: vec![VarDeclarator {
                name: Pat::Array(vec![Some(Pat::Ident(ident("p"))), Some(Pat::Ident(ident("q")))]),
                init: None,
            }],
        })),
    );
    assert_eq!(s.local_exports.get(&"C".to_owned()).unwrap().mark, 7);
    assert_eq!(s.local_exports.get(&"p".to_owned()).unwrap().mark, 8);
    assert_eq!(s.local_exports.get(&"q".to_owned()).unwrap().mark, 9);
    assert_eq!(sb.mark_count(), 10);
}

#[test]
fn dynamic_imports_with_a_literal_are_recorded_once() {
    let mut s = scanner();
    let import = |arg: Expr| Expr::Call(Callee::Import, vec![arg]);
    assert!(!s.add_dynamic_import(&import(Expr::Lit(Lit::Str("./lazy".to_owned())))));
    assert!(!s.add_dynamic_import(&import(Expr::Lit(Lit::Str("./lazy".to_owned())))));
    assert!(s.add_dynamic_import(&import(Expr::Ident(ident("path")))));
    assert!(!s.add_dynamic_import(&Expr::Call(Callee::Import, vec![])));
    assert!(!s.add_dynamic_import(&Expr::Call(
        Callee::Expr(Box::new(Expr::Ident(ident("f")))),
        vec![Expr::Lit(Lit::Str("./x".to_owned()))]
    )));
    assert_eq!(s.dynamic_imports.len(), 1);
    assert_eq!(s.dynamic_imports[0].argument, "./lazy");
    assert_eq!(s.dynamic_imports[0].id, None);
}

#[test]
fn side_effects_of_expressions() {
    let bound = || Box::new(Expr::Ident(Ident { sym: "local".to_owned(), mark: 3 }));
    let global = || Box::new(Expr::Ident(ident("window")));
    assert_eq!(detect_side_effect_of_expr(&Expr::This), Some(SideEffect::VisitThis));
    assert_eq!(detect_side_effect_of_expr(&Expr::Lit(Lit::Other)), None);
    assert_eq!(detect_side_effect_of_expr(&Expr::Ident(ident("x"))), None);
    assert_eq!(detect_side_effect_of_expr(&Expr::Arrow), None);
    assert_eq!(detect_side_effect_of_expr(&Expr::New), Some(SideEffect::FnCall));
    assert_eq!(detect_side_effect_of_expr(&Expr::TaggedTpl), Some(SideEffect::FnCall));
    assert_eq!(
        detect_side_effect_of_expr(&Expr::Member(global(), global())),
        Some(SideEffect::VisitGlobal)
    );
    assert_eq!(
        detect_side_effect_of_expr(&Expr::Member(bound(), global())),
        Some(SideEffect::Todo)
    );
    assert_eq!(
        detect_side_effect_of_expr(&Expr::Bin(Box::new(Expr::Lit(Lit::Other)), Box::new(Expr::This))),
        Some(SideEffect::VisitThis)
    );
    assert_eq!(
        detect_side_effect_of_expr(&Expr::Cond(
            Box::new(Expr::Lit(Lit::Other)),
            Box::new(Expr::New),
            Box::new(Expr::This)
        )),
        Some(SideEffect::FnCall)
    );
    assert_eq!(
        detect_side_effect_of_expr(&Expr::Array(vec![None, Some(Expr::Lit(Lit::Null)), Some(Expr::Await)])),
        Some(SideEffect::Todo)
    );
    assert_eq!(
        detect_side_effect_of_expr(&Expr::Sequence(vec![Expr::Fn, Expr::Paren(Box::new(Expr::Class))])),
        None
    );
    assert_eq!(detect_side_effect_of_expr(&Expr::Tpl(vec![Expr::New])), Some(SideEffect::FnCall));
}

#[test]
fn side_effects_of_items() {
    let stmt = |s| ModuleItem::Stmt(s);
    assert_eq!(detect_side_effect(&stmt(Stmt::Empty)), None);
    assert_eq!(detect_side_effect(&stmt(Stmt::Block)), Some(SideEffect::NonTopLevelBlock));
    assert_eq!(detect_side_effect(&stmt(Stmt::If)), Some(SideEffect::NonTopLevelBlock));
    assert_eq!(detect_side_effect(&stmt(Stmt::ForOf)), Some(SideEffect::NonTopLevelBlock));
    assert_eq!(detect_side_effect(&stmt(Stmt::Throw)), Some(SideEffect::Todo));
    assert_eq!(detect_side_effect(&stmt(Stmt::Decl(Decl::Class(ClassDecl { ident: ident("C") })))), None);
    let var = |init| {
        Decl::Var(VarDecl {
            kind: VarDeclKind::Const,
            decls: vec![
                VarDeclarator { name: Pat::Ident(ident("a")), init: None },
                VarDeclarator { name: Pat::Ident(ident("b")), init: Some(init) },
            ],
        })
    };
    assert_eq!(detect_side_effect(&stmt(Stmt::Decl(var(Expr::Lit(Lit::Other))))), None);
    assert_eq!(detect_side_effect(&stmt(Stmt::Decl(var(Expr::New)))), Some(SideEffect::FnCall));
    let decl = |d| ModuleItem::ModuleDecl(d);
    // An exported declaration stays for what it does, not for being exported.
    assert_eq!(detect_side_effect(&decl(ModuleDecl::ExportDecl(var(Expr::Lit(Lit::Other))))), None);
    assert_eq!(
        detect_side_effect(&decl(ModuleDecl::ExportDecl(var(Expr::This)))),
        Some(SideEffect::VisitThis)
    );
    assert_eq!(
        detect_side_effect(&decl(ModuleDecl::ExportDefaultDecl(DefaultDecl::Fn { ident: None }))),
        None
    );
    assert_eq!(
        detect_side_effect(&decl(ModuleDecl::ExportDefaultExpr(Expr::New))),
        Some(SideEffect::FnCall)
    );
    assert_eq!(
        detect_side_effect(&decl(ModuleDecl::ExportAll { src: "./a".to_owned() })),
        Some(SideEffect::ModuleDecl)
    );
    assert_eq!(
        detect_side_effect(&decl(ModuleDecl::Import(ImportDecl { specifiers: vec![], src: "a".to_owned() }))),
        Some(SideEffect::ModuleDecl)
    );
}

#[test]
fn identifiers_are_bound_by_their_role() {
    assert_eq!(bind_type_of(IdentRole::ImportLocal), Some(BindType::Import));
    assert_eq!(bind_type_of(IdentRole::VarName), Some(BindType::Var));
    assert_eq!(bind_type_of(IdentRole::CatchParam), Some(BindType::Let));
    assert_eq!(bind_type_of(IdentRole::Param), Some(BindType::Param));
    assert_eq!(bind_type_of(IdentRole::Use), None);
    assert_eq!(ident_type_for(IdentRole::ClassName), IdentType::Binding(BindType::Class));
    assert_eq!(ident_type_for(IdentRole::ConstName), IdentType::Binding(BindType::Const));
    assert_eq!(ident_type_for(IdentRole::Use), IdentType::Ref);
    assert_eq!(ident_type_for(IdentRole::Label), IdentType::Label);
}

#[test]
fn a_parameter_belongs_to_the_function() {
    let mut sb = SymbolBox::new();
    let mut s = scanner();
    s.push_scope(ScopeKind::Fn);
    s.push_scope(ScopeKind::Block);
    let p = s.declare_name(&mut sb, &"p".to_owned(), BindType::Param);
    s.pop_scope();
    assert_eq!(s.resolve_name(&"p".to_owned()), p);
    s.pop_scope();
    assert_eq!(s.resolve_name(&"p".to_owned()), 0);
    // At the top of the module a `var` is the module's own.
    s.push_scope(ScopeKind::Block);
    let v = s.declare_name(&mut sb, &"v".to_owned(), BindType::Var);
    s.pop_scope();
    assert_eq!(s.resolve_name(&"v".to_owned()), v);
    assert_eq!(s.current.declared.get(&"v".to_owned()), Some(&v));
}
