use rolldown::ast::{
    Callee, ClassDecl, Decl, DefaultDecl, ExportSpecifier, Expr, FnDecl, Ident, ImportDecl,
    ImportSpecifier, Lit, ModuleDecl, ModuleExportName, ModuleItem, NamedExport, Pat, Prop,
    PropName, Stmt, VarDecl, VarDeclKind, VarDeclarator,
};
use rolldown::bundle::Bundle;
use rolldown::errors::GraphError;
use rolldown::graph::{BundleGraph, Msg};
use rolldown::module::Module;
use rolldown::scanner::scope::{BindType, Scope, ScopeKind};
use rolldown::scanner::Scanner;
use rolldown::symbol_box::SymbolBox;
use rolldown::types::{NormalizedInputOptions, NormalizedOutputOptions, ResolvedId};
use rolldown::worker::{dependency_messages, finish_module};

fn ident(name: &str) -> Ident {
    Ident { sym: name.to_owned(), mark: 0 }
}

fn name(e: &str) -> Expr {
    Expr::Ident(ident(e))
}

fn const_decl(n: &str, init: Expr) -> Decl {
    Decl::Var(VarDecl {
        kind: VarDeclKind::Const,
        decls: vec![VarDeclarator { name: Pat::Ident(ident(n)), init: Some(init) }],
    })
}

fn export_const(n: &str) -> ModuleItem {
    ModuleItem::ModuleDecl(ModuleDecl::ExportDecl(const_decl(n, Expr::Lit(Lit::Other))))
}

fn log(args: Vec<Expr>) -> ModuleItem {
    ModuleItem::Stmt(Stmt::Expr(Expr::Call(
        Callee::Expr(Box::new(Expr::Member(Box::new(name("console")), Box::new(name("log"))))),
        args,
    )))
}

fn import_named(src: &str, pairs: Vec<(&str, &str)>) -> ModuleItem {
    ModuleItem::ModuleDecl(ModuleDecl::Import(ImportDecl {
        specifiers: pairs
            .into_iter()
            .map(|(imported, local)| ImportSpecifier::Named {
                local: ident(local),
                imported: if imported == local {
                    None
                } else {
                    Some(ModuleExportName::Ident(ident(imported)))
                },
            })
            .collect(),
        src: src.to_owned(),
    }))
}

fn stamp(pat: &mut Pat, marks: &[u32], at: &mut usize) {
    match pat {
        Pat::Ident(i) => {
            i.mark = marks[*at];
            *at += 1;
        }
        Pat::Array(elems) => {
            for e in elems.iter_mut().flatten() {
                stamp(e, marks, at);
            }
        }
        Pat::Rest(inner) | Pat::Assign(inner) => stamp(inner, marks, at),
        _ => {}
    }
}

fn walk_expr(scanner: &mut Scanner, e: &mut Expr) {
    match e {
        Expr::Ident(i) => scanner.reference(i, false),
        Expr::Call(callee, args) => {
            if let Callee::Expr(c) = callee {
                walk_expr(scanner, c);
            }
            for a in args.iter_mut() {
                walk_expr(scanner, a);
            }
        }
        Expr::Member(obj, _) => walk_expr(scanner, obj),
        Expr::Bin(l, r) => {
            walk_expr(scanner, l);
            walk_expr(scanner, r);
        }
        Expr::Paren(inner) => walk_expr(scanner, inner),
        Expr::Object(props) => {
            for p in props.iter_mut() {
                match p {
                    Prop::Shorthand(i) => scanner.reference(i, false),
                    Prop::KeyValue(_, v) => walk_expr(scanner, v),
                    Prop::Other => {}
                }
            }
        }
        _ => {}
    }
}

fn walk_decl(scanner: &mut Scanner, sb: &mut SymbolBox, d: &mut Decl) {
    match d {
        Decl::Class(c) => scanner.declare(sb, &mut c.ident, BindType::Class),
        Decl::Fn(f) => scanner.declare(sb, &mut f.ident, BindType::Fn),
        Decl::Var(v) => {
            let kind = match v.kind {
                VarDeclKind::Var => BindType::Var,
                VarDeclKind::Let => BindType::Let,
                VarDeclKind::Const => BindType::Const,
            };
            for decl in v.decls.iter_mut() {
                let marks = scanner.declare_pat(sb, &decl.name, kind);
                let mut at = 0;
                stamp(&mut decl.name, &marks, &mut at);
                if let Some(init) = &mut decl.init {
                    walk_expr(scanner, init);
                }
            }
        }
        Decl::Other => {}
    }
}

fn scan(sb: &mut SymbolBox, id: &str, body: Vec<ModuleItem>) -> Result<(Module, Vec<Msg>), GraphError> {
    let mut scanner = Scanner::new(Scope::new(ScopeKind::Fn));
    let mut module = Module::new(id.to_owned());
    let mut body = body;
    for item in body.iter_mut() {
        scanner.begin_item(item);
        match item {
            ModuleItem::ModuleDecl(ModuleDecl::Import(decl)) => {
                for s in decl.specifiers.iter_mut() {
                    match s {
                        ImportSpecifier::Named { local, .. }
                        | ImportSpecifier::Default { local }
                        | ImportSpecifier::Namespace { local } => {
                            scanner.declare(sb, local, BindType::Import)
                        }
                    }
                }
            }
            ModuleItem::ModuleDecl(ModuleDecl::ExportDecl(d)) => walk_decl(&mut scanner, sb, d),
            ModuleItem::ModuleDecl(ModuleDecl::ExportDefaultDecl(DefaultDecl::Class {
                ident: Some(i),
            })) => scanner.declare(sb, i, BindType::Class),
            ModuleItem::ModuleDecl(ModuleDecl::ExportDefaultDecl(DefaultDecl::Fn {
                ident: Some(i),
            })) => scanner.declare(sb, i, BindType::Fn),
            ModuleItem::ModuleDecl(ModuleDecl::ExportDefaultExpr(e)) => walk_expr(&mut scanner, e),
            ModuleItem::Stmt(Stmt::Decl(d)) => walk_decl(&mut scanner, sb, d),
            ModuleItem::Stmt(Stmt::Expr(e)) => walk_expr(&mut scanner, e),
            _ => {}
        }
        if let ModuleItem::ModuleDecl(d) = item {
            scanner.add_import(d);
            scanner.add_export(sb, d);
        }
        scanner.end_item();
    }
    let msgs = dependency_messages(&mut module, &scanner, "/");
    finish_module(&mut module, scanner, body, sb)?;
    Ok((module, msgs))
}

fn show_expr(e: &Expr) -> String {
    match e {
        Expr::Ident(i) => i.sym.clone(),
        Expr::Lit(Lit::Null) => "null".to_owned(),
        Expr::Lit(Lit::Str(s)) => format!("'{}'", s),
        Expr::Lit(Lit::Other) => "_".to_owned(),
        Expr::Member(o, p) => format!("{}.{}", show_expr(o), show_expr(p)),
        Expr::Call(Callee::Expr(c), args) => format!(
            "{}({})",
            show_expr(c),
            args.iter().map(show_expr).collect::<Vec<_>>().join(", ")
        ),
        Expr::New => "new _".to_owned(),
        Expr::Object(props) => format!(
            "{{{}}}",
            props
                .iter()
                .map(|p| match p {
                    Prop::KeyValue(PropName::Str(k), v) => format!("{}: {}", k, show_expr(v)),
                    Prop::KeyValue(PropName::Ident(k), v) => format!("{}: {}", k.sym, show_expr(v)),
                    Prop::Shorthand(i) => i.sym.clone(),
                    _ => "..".to_owned(),
                })
                .collect::<Vec<_>>()
                .join(", ")
        ),
        _ => "?".to_owned(),
    }
}

fn show_decl(d: &Decl) -> String {
    match d {
        Decl::Class(c) => format!("class {}", c.ident.sym),
        Decl::Fn(f) => format!("function {}", f.ident.sym),
        Decl::Var(v) => {
            let kind = match v.kind {
                VarDeclKind::Var => "var",
                VarDeclKind::Let => "let",
                VarDeclKind::Const => "const",
            };
            let decls = v
                .decls
                .iter()
                .map(|d| {
                    let n = match &d.name {
                        Pat::Ident(i) => i.sym.clone(),
                        _ => "?".to_owned(),
                    };
                    match &d.init {
                        Some(e) => format!("{} = {}", n, show_expr(e)),
                        None => n,
                    }
                })
                .collect::<Vec<_>>()
                .join(", ");
            format!("{} {}", kind, decls)
        }
        Decl::Other => "?".to_owned(),
    }
}

fn show_name(n: &ModuleExportName) -> String {
    match n {
        ModuleExportName::Ident(i) => i.sym.clone(),
        ModuleExportName::Str(s) => s.clone(),
    }
}

fn show(item: &ModuleItem) -> String {
    match item {
        ModuleItem::Stmt(Stmt::Empty) => ";".to_owned(),
        ModuleItem::Stmt(Stmt::Decl(d)) => show_decl(d),
        ModuleItem::Stmt(Stmt::Expr(e)) => show_expr(e),
        ModuleItem::ModuleDecl(ModuleDecl::ExportNamed(n)) => format!(
            "export {{{}}}",
            n.specifiers
                .iter()
                .map(|s| match s {
                    ExportSpecifier::Named { orig, exported: Some(e) } => {
                        format!("{} as {}", show_name(orig), show_name(e))
                    }
                    ExportSpecifier::Named { orig, exported: None } => show_name(orig),
                    _ => "?".to_owned(),
                })
                .collect::<Vec<_>>()
                .join(", ")
        ),
        ModuleItem::ModuleDecl(ModuleDecl::ExportAll { src }) => format!("export * from '{}'", src),
        ModuleItem::ModuleDecl(_) => "module-decl".to_owned(),
        _ => "?".to_owned(),
    }
}

/// Builds a bundle from modules given as items, the first one being the entry.
fn bundle(treeshake: bool, files: Vec<(&str, Vec<ModuleItem>)>) -> Result<Vec<String>, GraphError> {
    let entry = files[0].0.to_owned();
    let mut graph = BundleGraph::new(NormalizedInputOptions { treeshake, input: vec![entry.clone()] });
    assert!(graph.add_entry(ResolvedId::new(entry, false)));
    for (id, body) in files {
        let (module, msgs) = scan(&mut graph.symbol_box, id, body)?;
        assert!(graph.handle_message(Msg::NewMod(module)));
        for m in msgs {
            assert!(graph.handle_message(m));
        }
    }
    graph.build()?;
    let mut bundle = Bundle::new(graph, NormalizedOutputOptions::default());
    let mut chunks = bundle.generate_chunks();
    let mut chunk = chunks.remove(0);
    bundle.name_chunk(&mut chunk);
    chunk.prepare(&mut bundle.graph.module_by_id, &bundle.graph.symbol_box);
    let mut out = Vec::new();
    for id in chunk.order_modules.iter() {
        let i = bundle.graph.module_by_id.find(id).unwrap();
        for s in bundle.graph.module_by_id.entries[i].1.statements.iter() {
            if s.included {
                let text = show(&s.node);
                if text != ";" {
                    out.push(text);
                }
            }
        }
    }
    Ok(out)
}

#[test]
fn single_file_without_imports_loses_its_export() {
    let out = bundle(false, vec![("/main.js", vec![export_const("x"), log(vec![name("x")])])]).unwrap();
    assert_eq!(out, vec!["const x = _", "console.log(x)"]);
    assert!(out.iter().all(|s| !s.contains("export")));
}

#[test]
fn names_that_collide_across_modules_are_told_apart() {
    let out = bundle(
        false,
        vec![
            (
                "/main.js",
                vec![
                    import_named("./a", vec![("x", "a")]),
                    import_named("./b", vec![("x", "b")]),
                    log(vec![name("a"), name("b")]),
                ],
            ),
            ("/a.js", vec![export_const("x")]),
            ("/b.js", vec![export_const("x")]),
        ],
    )
    .unwrap();
    assert_eq!(out, vec!["const x = _", "const x$0 = _", "console.log(x, x$0)"]);
}

#[test]
fn anonymous_default_class_gets_a_name() {
    let out = bundle(
        false,
        vec![
            (
                "/main.js",
                vec![
                    ModuleItem::ModuleDecl(ModuleDecl::Import(ImportDecl {
                        specifiers: vec![ImportSpecifier::Default { local: ident("F") }],
                        src: "./foo".to_owned(),
                    })),
                    log(vec![name("F")]),
                ],
            ),
            (
                "/foo.js",
                vec![ModuleItem::ModuleDecl(ModuleDecl::ExportDefaultDecl(DefaultDecl::Class {
                    ident: None,
                }))],
            ),
        ],
    )
    .unwrap();
    assert_eq!(out, vec!["class F", "console.log(F)"]);
}

#[test]
fn namespace_import_gets_an_object() {
    let out = bundle(
        false,
        vec![
            (
                "/main.js",
                vec![
                    ModuleItem::ModuleDecl(ModuleDecl::Import(ImportDecl {
                        specifiers: vec![ImportSpecifier::Namespace { local: ident("ns") }],
                        src: "./foo".to_owned(),
                    })),
                    log(vec![
                        Expr::Member(Box::new(name("ns")), Box::new(name("a"))),
                        Expr::Member(Box::new(name("ns")), Box::new(name("b"))),
                    ]),
                ],
            ),
            ("/foo.js", vec![export_const("a"), export_const("b")]),
        ],
    )
    .unwrap();
    assert_eq!(
        out,
        vec![
            "const a = _",
            "const b = _",
            "const ns = Object.freeze({__proto__: null, a: a, b: b})",
            "console.log(ns.a, ns.b)",
        ]
    );
}

#[test]
fn tree_shaking_drops_the_unused_export() {
    let out = bundle(
        true,
        vec![
            ("/main.js", vec![import_named("./lib", vec![("used", "used")]), log(vec![name("used")])]),
            ("/lib.js", vec![export_const("used"), export_const("dead")]),
        ],
    )
    .unwrap();
    assert_eq!(out, vec!["const used = _", "console.log(used)"]);
    assert!(out.iter().all(|s| !s.contains("dead")));
}

#[test]
fn without_tree_shaking_everything_stays() {
    let out = bundle(
        false,
        vec![
            ("/main.js", vec![import_named("./lib", vec![("used", "used")]), log(vec![name("used")])]),
            ("/lib.js", vec![export_const("used"), export_const("dead")]),
        ],
    )
    .unwrap();
    assert_eq!(out, vec!["const used = _", "const dead = _", "console.log(used)"]);
}

#[test]
fn export_all_with_collision_fails() {
    let all = |src: &str| ModuleItem::ModuleDecl(ModuleDecl::ExportAll { src: src.to_owned() });
    let r = bundle(
        false,
        vec![
            ("/index.js", vec![all("./a"), all("./b")]),
            ("/a.js", vec![export_const("x")]),
            ("/b.js", vec![export_const("x")]),
        ],
    );
    match r {
        Err(GraphError::DuplicateExport { name, source, other, module }) => {
            assert_eq!(name, "x");
            assert_eq!(source, "/b.js");
            assert_eq!(other, "/a.js");
            assert_eq!(module, "/index.js");
        }
        _ => panic!("a duplicate export was expected"),
    }
}

#[test]
fn export_of_unknown_name_fails() {
    let mut sb = SymbolBox::new();
    let r = scan(
        &mut sb,
        "/main.js",
        vec![ModuleItem::ModuleDecl(ModuleDecl::ExportNamed(NamedExport {
            specifiers: vec![ExportSpecifier::Named {
                orig: ModuleExportName::Ident(ident("missing")),
                exported: None,
            }],
            src: None,
        }))],
    );
    match r {
        Err(GraphError::UnknownExport { name, module }) => {
            assert_eq!(name, "missing");
            assert_eq!(module, "/main.js");
        }
        _ => panic!("an unknown export was expected"),
    }
}

#[test]
fn the_entry_module_keeps_its_names() {
    let out = bundle(
        false,
        vec![
            (
                "/main.js",
                vec![
                    import_named("./a", vec![("x", "y")]),
                    export_const("x"),
                    log(vec![name("x"), name("y")]),
                ],
            ),
            ("/a.js", vec![export_const("x")]),
        ],
    )
    .unwrap();
    // The entry module keeps its name; the dependency gives way.
    assert_eq!(out, vec!["const x$0 = _", "const x = _", "console.log(x, x$0)"]);
}

#[test]
fn re_export_chain_reaches_the_declaration_under_tree_shaking() {
    let re_export = ModuleItem::ModuleDecl(ModuleDecl::ExportNamed(NamedExport {
        specifiers: vec![ExportSpecifier::Named {
            orig: ModuleExportName::Ident(ident("deep")),
            exported: None,
        }],
        src: Some("./c".to_owned()),
    }));
    let out = bundle(
        true,
        vec![
            ("/main.js", vec![import_named("./b", vec![("deep", "deep")]), log(vec![name("deep")])]),
            ("/b.js", vec![re_export]),
            ("/c.js", vec![export_const("deep"), export_const("other")]),
        ],
    )
    .unwrap();
    assert_eq!(out, vec!["const deep = _", "console.log(deep)"]);
}

#[test]
fn function_and_class_declarations_are_kept_only_when_read() {
    let out = bundle(
        true,
        vec![(
            "/main.js",
            vec![
                ModuleItem::Stmt(Stmt::Decl(Decl::Fn(FnDecl { ident: ident("f") }))),
                ModuleItem::Stmt(Stmt::Decl(Decl::Class(ClassDecl { ident: ident("C") }))),
                log(vec![name("f")]),
            ],
        )],
    )
    .unwrap();
    assert_eq!(out, vec!["function f", "console.log(f)"]);
}

#[test]
fn an_export_list_can_be_made_for_a_module() {
    let mut sb = SymbolBox::new();
    let (mut module, _) = scan(&mut sb, "/main.js", vec![export_const("x"), export_const("y")]).unwrap();
    let before = module.statements.len();
    module.generate_exports();
    assert_eq!(module.statements.len(), before + 1);
    let list = module.statements.last().unwrap();
    assert!(list.included);
    assert_eq!(show(&list.node), "export {x as x, y as y}");
    let mut empty = Module::new("/empty.js".to_owned());
    empty.generate_exports();
    assert_eq!(empty.statements.len(), 0);
}

#[test]
fn deconflicting_what_was_deconflicted_changes_nothing() {
    let files = vec![
        (
            "/main.js",
            vec![
                import_named("./a", vec![("x", "a")]),
                import_named("./b", vec![("x", "b")]),
                log(vec![name("a"), name("b")]),
            ],
        ),
        ("/a.js", vec![export_const("x")]),
        ("/b.js", vec![export_const("x")]),
    ];
    let mut graph = BundleGraph::new(NormalizedInputOptions { treeshake: false, input: vec!["/main.js".to_owned()] });
    assert!(graph.add_entry(ResolvedId::new("/main.js".to_owned(), false)));
    for (id, body) in files {
        let (module, msgs) = scan(&mut graph.symbol_box, id, body).unwrap();
        assert!(graph.handle_message(Msg::NewMod(module)));
        for m in msgs {
            assert!(graph.handle_message(m));
        }
    }
    assert_eq!(graph.build(), Ok(()));
    let mut bundle = Bundle::new(graph, NormalizedOutputOptions::default());
    let mut chunks = bundle.generate_chunks();
    let chunk = chunks.remove(0);
    let once = chunk.prepare(&mut bundle.graph.module_by_id, &bundle.graph.symbol_box);
    let statements = |bundle: &Bundle| -> Vec<String> {
        bundle
            .graph
            .module_by_id
            .entries
            .iter()
            .flat_map(|(_, m)| m.statements.iter().map(|s| format!("{:?}", s.node)))
            .collect()
    };
    let before = statements(&bundle);
    assert!(before.iter().any(|s| s.contains("x$0")));
    let twice = chunk.de_conflict(&mut bundle.graph.module_by_id, &bundle.graph.symbol_box);
    assert_eq!(twice, once);
    assert_eq!(statements(&bundle), before);
}
