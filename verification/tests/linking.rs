use rolldown::ast::{
    DefaultDecl, Decl, Expr, FnDecl, Ident, Lit, ModuleDecl, ModuleItem, Pat, Stmt, VarDeclKind,
};
use rolldown::dep_graph::{ModuleGraph, Rel};
use rolldown::execution_order::analyse_module_execution;
use rolldown::fold::{fold_export_decl_to_decl, get_valid_name};
use rolldown::linker::link_exports;
use rolldown::module::Module;
use rolldown::names::NameMap;
use rolldown::scanner::rel::{RelationInfo, Specifier};
use rolldown::symbol_box::SymbolBox;
use rolldown::treeshake::include_reachable;
use rolldown::types::ResolvedId;
use rolldown::statement::Statement;

fn ident(name: &str, mark: u32) -> Ident {
    Ident { sym: name.to_owned(), mark }
}

#[test]
fn modules_run_after_what_they_depend_on() {
    // 0 -> 1, 0 -> 2, 1 -> 2, 2 -> 3
    let adj = vec![vec![1, 2], vec![2], vec![3], vec![]];
    let (cycles, order) = analyse_module_execution(&adj, &vec![0]);
    assert_eq!(order, vec![3, 2, 1, 0]);
    assert!(cycles.is_empty());
}

#[test]
fn children_are_visited_in_the_order_given() {
    let adj = vec![vec![2, 1], vec![], vec![]];
    let (_, order) = analyse_module_execution(&adj, &vec![0]);
    assert_eq!(order, vec![2, 1, 0]);
}

#[test]
fn cycles_are_reported_and_the_walk_goes_on() {
    // 0 -> 1 -> 2 -> 0, and 2 -> 3
    let adj = vec![vec![1], vec![2], vec![0, 3], vec![]];
    let (cycles, order) = analyse_module_execution(&adj, &vec![0]);
    assert_eq!(order, vec![3, 2, 1, 0]);
    assert_eq!(cycles, vec![vec![0, 1, 2, 0]]);
    // A module that imports itself is a cycle of one.
    let (cycles, order) = analyse_module_execution(&vec![vec![0]], &vec![0]);
    assert_eq!(order, vec![0]);
    assert_eq!(cycles, vec![vec![0, 0]]);
}

#[test]
fn every_entry_is_walked_and_no_module_comes_twice() {
    let adj = vec![vec![2], vec![2], vec![]];
    let (_, order) = analyse_module_execution(&adj, &vec![0, 1, 0, 7]);
    assert_eq!(order, vec![2, 0, 1]);
    let (_, order) = analyse_module_execution(&adj, &vec![]);
    assert!(order.is_empty());
}

#[test]
fn edges_leave_a_node_in_source_order() {
    let mut g = ModuleGraph::new();
    let a = g.add_node("/a.js".to_owned()).unwrap();
    let b = g.add_node("/b.js".to_owned()).unwrap();
    let c = g.add_node("/c.js".to_owned()).unwrap();
    assert_eq!((a, b, c), (0, 1, 2));
    assert_eq!(g.node_count(), 3);
    assert_eq!(g.node_id(1), Some("/b.js".to_owned()));
    assert_eq!(g.node_id(3), None);
    assert!(g.add_edge(a, c, Rel::ReExportAll(2)));
    assert!(g.add_edge(a, b, Rel::Import(RelationInfo::new("./b".to_owned(), 0))));
    assert!(g.add_edge(b, c, Rel::ReExport(RelationInfo::new("./c".to_owned(), 0))));
    assert!(g.add_edge(a, a, Rel::ReExportAll(1)));
    assert!(!g.add_edge(a, 9, Rel::ReExportAll(5)));
    assert_eq!(g.children(a), vec![b, a, c]);
    assert_eq!(g.children(b), vec![c]);
    assert_eq!(g.children(c), Vec::<usize>::new());
    assert_eq!(g.sorted_out(a), vec![(b, 1), (a, 3), (c, 0)]);
    assert_eq!(g.adjacency_lists(), vec![vec![b, a, c], vec![c], vec![]]);
    assert_eq!(g.rels[1].get_order(), 0);
}

#[test]
fn edges_of_one_order_come_last_added_first() {
    let mut g = ModuleGraph::new();
    let a = g.add_node("a".to_owned()).unwrap();
    let b = g.add_node("b".to_owned()).unwrap();
    let c = g.add_node("c".to_owned()).unwrap();
    assert!(g.add_edge(a, b, Rel::ReExportAll(0)));
    assert!(g.add_edge(a, c, Rel::ReExportAll(0)));
    assert_eq!(g.children(a), vec![c, b]);
}

fn module_exporting(id: &str, names: &[(&str, u32)]) -> Module {
    let mut m = Module::new(id.to_owned());
    for (n, mark) in names {
        m.exports.insert((*n).to_owned(), *mark);
    }
    m
}

#[test]
fn export_all_takes_over_every_name_but_default() {
    let mut modules: NameMap<Module> = NameMap::new();
    let mut index = module_exporting("/index.js", &[("own", 1)]);
    index.re_export_all_sources.push("./a".to_owned());
    index.re_export_all_sources.push("./gone".to_owned());
    index.resolved_ids.insert("./a".to_owned(), ResolvedId::new("/a.js".to_owned(), false));
    modules.insert("/index.js".to_owned(), index);
    modules.insert("/a.js".to_owned(), module_exporting("/a.js", &[("x", 2), ("default", 3), ("y", 4)]));
    let r = link_exports(&mut modules, &vec!["/a.js".to_owned(), "/index.js".to_owned()]);
    assert_eq!(r, Ok(()));
    let index = modules.get(&"/index.js".to_owned()).unwrap();
    let got: Vec<(&str, u32)> = index.exports.entries.iter().map(|(n, m)| (n.as_str(), *m)).collect();
    assert_eq!(got, vec![("own", 1), ("x", 2), ("y", 4)]);
}

#[test]
fn export_all_that_meets_a_local_export_fails() {
    let mut modules: NameMap<Module> = NameMap::new();
    let mut index = module_exporting("/index.js", &[("x", 1)]);
    index.re_export_all_sources.push("./a".to_owned());
    index.resolved_ids.insert("./a".to_owned(), ResolvedId::new("/a.js".to_owned(), false));
    modules.insert("/index.js".to_owned(), index);
    modules.insert("/a.js".to_owned(), module_exporting("/a.js", &[("w", 5), ("x", 2), ("z", 6)]));
    let r = link_exports(&mut modules, &vec!["/index.js".to_owned()]);
    assert_eq!(
        r,
        Err(rolldown::errors::GraphError::DuplicateExport {
            name: "x".to_owned(),
            source: "/a.js".to_owned(),
            other: "/index.js".to_owned(),
            module: "/index.js".to_owned(),
        })
    );
    // What came before the collision was taken over, what comes after was not.
    let index = modules.get(&"/index.js".to_owned()).unwrap();
    assert_eq!(index.exports.len(), 2);
    assert!(index.exports.contains_key(&"w".to_owned()));
}

#[test]
fn folding_follows_the_table() {
    let mut m = Module::new("/src/my-lib.v2.js".to_owned());
    m.exports.insert("default".to_owned(), 9);
    m.resolved_ids.insert("react".to_owned(), ResolvedId::new("react".to_owned(), true));
    m.resolved_ids.insert("./in".to_owned(), ResolvedId::new("/src/in.js".to_owned(), false));
    let decl = |d| ModuleItem::ModuleDecl(d);
    // export function f() {}  ->  function f() {}
    let r = fold_export_decl_to_decl(decl(ModuleDecl::ExportDecl(Decl::Fn(FnDecl { ident: ident("f", 1) }))), &mut m);
    assert!(matches!(r, ModuleItem::Stmt(Stmt::Decl(Decl::Fn(f))) if f.ident.sym == "f" && f.ident.mark == 1));
    // export default class Named {}  ->  class Named {}
    let r = fold_export_decl_to_decl(
        decl(ModuleDecl::ExportDefaultDecl(DefaultDecl::Class { ident: Some(ident("Named", 2)) })),
        &mut m,
    );
    assert!(matches!(r, ModuleItem::Stmt(Stmt::Decl(Decl::Class(c))) if c.ident.sym == "Named"));
    assert_eq!(m.declared_symbols.len(), 0);
    // export default function () {}  ->  function <name from the file>() {}
    let r = fold_export_decl_to_decl(decl(ModuleDecl::ExportDefaultDecl(DefaultDecl::Fn { ident: None })), &mut m);
    assert!(matches!(r, ModuleItem::Stmt(Stmt::Decl(Decl::Fn(f))) if f.ident.sym == "mylibv2" && f.ident.mark == 9));
    assert_eq!(m.declared_symbols.get(&"mylibv2".to_owned()), Some(&9));
    // export default foo  ->  dropped
    let r = fold_export_decl_to_decl(decl(ModuleDecl::ExportDefaultExpr(Expr::Ident(ident("foo", 3)))), &mut m);
    assert!(matches!(r, ModuleItem::Stmt(Stmt::Empty)));
    // export default <expr>  ->  var <name> = <expr>, under the suggested name
    m.suggest_name("default".to_owned(), "Suggested".to_owned());
    let r = fold_export_decl_to_decl(decl(ModuleDecl::ExportDefaultExpr(Expr::Lit(Lit::Null))), &mut m);
    match r {
        ModuleItem::Stmt(Stmt::Decl(Decl::Var(v))) => {
            assert_eq!(v.kind, VarDeclKind::Var);
            assert_eq!(v.decls.len(), 1);
            assert!(matches!(&v.decls[0].name, Pat::Ident(i) if i.sym == "Suggested" && i.mark == 9));
            assert!(matches!(&v.decls[0].init, Some(Expr::Lit(Lit::Null))));
        }
        _ => panic!("a variable was expected"),
    }
    // export * from: stays for a module outside the bundle, goes for one inside
    let all = |src: &str| ModuleItem::ModuleDecl(ModuleDecl::ExportAll { src: src.to_owned() });
    assert!(matches!(
        fold_export_decl_to_decl(all("react"), &mut m),
        ModuleItem::ModuleDecl(ModuleDecl::ExportAll { src }) if src == "react"
    ));
    assert!(matches!(fold_export_decl_to_decl(all("./in"), &mut m), ModuleItem::Stmt(Stmt::Empty)));
    assert!(matches!(fold_export_decl_to_decl(all("./unknown"), &mut m), ModuleItem::Stmt(Stmt::Empty)));
    // A statement stays as it is, and folding twice is folding once.
    let once = fold_export_decl_to_decl(ModuleItem::Stmt(Stmt::Debugger), &mut m);
    assert!(matches!(once, ModuleItem::Stmt(Stmt::Debugger)));
    let before = m.declared_symbols.len();
    let once = fold_export_decl_to_decl(decl(ModuleDecl::ExportDefaultDecl(DefaultDecl::Class { ident: None })), &mut m);
    let twice = fold_export_decl_to_decl(once, &mut m);
    assert!(matches!(twice, ModuleItem::Stmt(Stmt::Decl(Decl::Class(c))) if c.ident.sym == "Suggested"));
    assert_eq!(m.declared_symbols.len(), before + 1);
}

#[test]
fn names_made_from_files_keep_identifier_characters_only() {
    assert_eq!(get_valid_name("my-lib.v2"), "mylibv2");
    assert_eq!(get_valid_name("$ok_1"), "$ok_1");
    assert_eq!(get_valid_name("---"), "");
}

fn statement(reads: Vec<u32>, declares: Vec<(&str, u32)>, effect: bool) -> Statement {
    let node = if effect { ModuleItem::Stmt(Stmt::Debugger) } else { ModuleItem::Stmt(Stmt::Empty) };
    let mut s = Statement::new(node);
    s.reads = reads;
    for (n, m) in declares {
        s.declared.insert(n.to_owned(), m);
    }
    if effect {
        s.side_effect = Some(rolldown::side_effect::SideEffect::Todo);
    }
    s
}

fn included(modules: &NameMap<Module>) -> Vec<Vec<bool>> {
    modules.entries.iter().map(|(_, m)| m.statements.iter().map(|s| s.included).collect()).collect()
}

#[test]
fn shaking_takes_what_is_read_and_is_idempotent() {
    let mut sb = SymbolBox::new();
    let marks: Vec<u32> = (0..6).map(|_| sb.new_mark()).collect();
    // m[0] is the import of m[1]; m[2] is read by the declaration of m[1].
    sb.union(marks[0], marks[1]);
    let mut main = Module::new("/main.js".to_owned());
    main.statements.push(statement(vec![marks[0]], vec![], true));
    main.statements.push(statement(vec![], vec![("unused", marks[5])], false));
    let mut lib = Module::new("/lib.js".to_owned());
    lib.statements.push(statement(vec![marks[2]], vec![("a", marks[1])], false));
    lib.statements.push(statement(vec![], vec![("b", marks[2])], false));
    lib.statements.push(statement(vec![marks[2]], vec![("c", marks[3])], false));
    lib.statements.push(statement(vec![], vec![("d", marks[4])], false));
    lib.exports.insert("d".to_owned(), marks[4]);
    let mut modules: NameMap<Module> = NameMap::new();
    modules.insert("/main.js".to_owned(), main);
    modules.insert("/lib.js".to_owned(), lib);
    include_reachable(&mut modules, &sb, true);
    let once = included(&modules);
    assert_eq!(once, vec![vec![true, false], vec![true, true, false, false]]);
    // Every read of a taken statement is served by a taken statement.
    for (_, m) in modules.entries.iter() {
        for s in m.statements.iter().filter(|s| s.included) {
            for r in s.reads.iter() {
                let root = sb.find_root(*r);
                assert!(modules.entries.iter().any(|(_, m)| m
                    .statements
                    .iter()
                    .any(|t| t.included && t.defines(&sb, root))));
            }
        }
    }
    include_reachable(&mut modules, &sb, true);
    assert_eq!(included(&modules), once);
    // What an entry module exports is taken too.
    modules.entries[1].1.is_user_defined_entry_point = true;
    include_reachable(&mut modules, &sb, true);
    assert_eq!(included(&modules), vec![vec![true, false], vec![true, true, false, true]]);
    // With nothing shaken everything is taken.
    include_reachable(&mut modules, &sb, false);
    assert_eq!(included(&modules), vec![vec![true, true], vec![true, true, true, true]]);
}
