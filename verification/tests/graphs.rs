use rolldown::ast::{Ident, ModuleItem, Stmt};
use rolldown::bundle::Bundle;
use rolldown::dep_graph::Rel;
use rolldown::errors::{BundleError, GraphError};
use rolldown::graph::{BundleGraph, ModOrExt, Msg};
use rolldown::hook_driver::HookDriver;
use rolldown::module::Module;
use rolldown::scanner::rel::{RelationInfo, Specifier};
use rolldown::scanner::scope::{BindType, Scope, ScopeKind};
use rolldown::scanner::{IdentType, ModuleItemInfo, Scanner};
use rolldown::names::NameMap;
use rolldown::statement::{is_decl_or_stmt, Statement};
use rolldown::symbol_box::SymbolBox;
use rolldown::types::{ExternalModule, NormalizedInputOptions, NormalizedOutputOptions, ResolvedId};

fn import_of(source: &str, order: usize, names: Vec<(&str, &str, u32)>) -> Rel {
    let mut info = RelationInfo::new(source.to_owned(), order);
    for (original, used, mark) in names {
        info.names.push(Specifier { original: original.to_owned(), used: used.to_owned(), mark });
    }
    Rel::Import(info)
}

fn reference(from: &str, to: &str, rel: Rel) -> Msg {
    Msg::DependencyReference(from.to_owned(), to.to_owned(), rel)
}

#[test]
fn a_graph_from_one_entry() {
    let g = BundleGraph::from_single_entry("./main.js".to_owned());
    assert_eq!(g.input_options.input, vec!["./main.js"]);
    assert!(!g.input_options.treeshake);
    assert_eq!(g.module_graph.node_count(), 0);
    assert_eq!(g.symbol_box.mark_count(), 1);
}

#[test]
fn reports_become_nodes_edges_and_modules() {
    let mut g = BundleGraph::new(NormalizedInputOptions::default());
    assert!(g.add_entry(ResolvedId::new("/main.js".to_owned(), false)));
    assert!(g.handle_message(reference("/main.js", "/a.js", import_of("./a", 0, vec![]))));
    assert!(g.handle_message(reference("/a.js", "/main.js", import_of("./main", 0, vec![]))));
    assert!(g.handle_message(reference("/main.js", "react", import_of("react", 1, vec![]))));
    assert!(g.handle_message(Msg::NewExtMod(ExternalModule::new("react".to_owned()))));
    assert!(g.handle_message(Msg::NewMod(Module::new("/main.js".to_owned()))));
    assert!(g.handle_message(Msg::NewMod(Module::new("/a.js".to_owned()))));
    assert_eq!(g.module_graph.node_count(), 3);
    assert_eq!(g.node_for(&"/a.js".to_owned()), Some(1));
    assert_eq!(g.node_for(&"react".to_owned()), Some(2));
    assert_eq!(g.module_by_id.len(), 2);
    assert_eq!(g.build(), Ok(()));
    // The entry runs last; the module outside the bundle has a place too.
    assert_eq!(g.ordered_modules, vec![1, 2, 0]);
    assert_eq!(g.ordered_module_ids(), vec!["/a.js", "react", "/main.js"]);
    assert_eq!(g.cycles, vec![vec![0, 1, 0]]);
    assert_eq!(g.cycle_paths("/"), vec![vec!["main.js", "a.js", "main.js"]]);
    assert!(g.module_by_id.get(&"/main.js".to_owned()).unwrap().is_user_defined_entry_point);
    assert!(!g.module_by_id.get(&"/a.js".to_owned()).unwrap().is_user_defined_entry_point);
}

#[test]
fn imports_are_bound_to_exports() {
    let mut g = BundleGraph::new(NormalizedInputOptions::default());
    let import_x = g.symbol_box.new_mark();
    let import_d = g.symbol_box.new_mark();
    let import_ns = g.symbol_box.new_mark();
    let import_gone = g.symbol_box.new_mark();
    let export_x = g.symbol_box.new_mark();
    let export_d = g.symbol_box.new_mark();
    let ns = g.symbol_box.new_mark();
    assert!(g.add_entry(ResolvedId::new("/main.js".to_owned(), false)));
    assert!(g.handle_message(Msg::NewMod(Module::new("/main.js".to_owned()))));
    let mut a = Module::new("/a.js".to_owned());
    a.exports.insert("x".to_owned(), export_x);
    a.exports.insert("default".to_owned(), export_d);
    a.namespace.mark = ns;
    assert!(g.handle_message(Msg::NewMod(a)));
    assert!(g.handle_message(reference(
        "/main.js",
        "/a.js",
        import_of(
            "./a",
            0,
            vec![
                ("x", "y", import_x),
                ("default", "Widget", import_d),
                ("*", "all", import_ns),
                ("gone", "gone", import_gone),
            ],
        ),
    )));
    assert_eq!(g.build(), Ok(()));
    let sb = &g.symbol_box;
    assert!(sb.equiv(import_x, export_x));
    assert!(sb.equiv(import_d, export_d));
    assert!(sb.equiv(import_ns, ns));
    assert!(!sb.equiv(import_x, import_d));
    assert_eq!(sb.find_root(import_gone), import_gone);
    let a = g.module_by_id.get(&"/a.js".to_owned()).unwrap();
    assert_eq!(a.suggested_names.get(&"default".to_owned()), Some(&"Widget".to_owned()));
    assert_eq!(a.suggested_names.get(&"*".to_owned()), Some(&"all".to_owned()));
    assert!(a.namespace.included);
    assert_eq!(a.exports.get(&"*".to_owned()), Some(&ns));
    assert_eq!(a.statements.len(), 1);
    assert_eq!(a.declared_symbols.get(&"all".to_owned()), Some(&ns));
}

#[test]
fn a_mark_takes_the_statements_that_define_it() {
    let mut sb = SymbolBox::new();
    let a = sb.new_mark();
    let b = sb.new_mark();
    let e = sb.new_mark();
    sb.union(e, a);
    let mut m = Module::new("/m.js".to_owned());
    for (name, mark) in [("a", a), ("b", b)] {
        let mut s = Statement::new(ModuleItem::Stmt(Stmt::Empty));
        s.declared.insert(name.to_owned(), mark);
        m.statements.push(s);
    }
    m.include_mark(&sb, e);
    let taken: Vec<bool> = m.statements.iter().map(|s| s.included).collect();
    assert_eq!(taken, vec![true, false]);
    assert!(m.statements[0].defines(&sb, sb.find_root(a)));
    assert!(!m.statements[1].defines(&sb, sb.find_root(a)));
    m.include_statements(true);
    assert_eq!(m.statements.iter().filter(|s| s.included).count(), 1);
    m.include_statements(false);
    assert_eq!(m.statements.iter().filter(|s| s.included).count(), 2);
    assert!(is_decl_or_stmt(&ModuleItem::Stmt(Stmt::Empty)));
    assert_eq!(m.resolve_mark(&"a".to_owned()), None);
}

#[test]
fn identifiers_are_seen_to_by_what_they_are() {
    let mut sb = SymbolBox::new();
    let mut s = Scanner::new(Scope::new(ScopeKind::Fn));
    let mut id = Ident { sym: "x".to_owned(), mark: 0 };
    s.ident_type = IdentType::Binding(BindType::Const);
    s.visit_ident(&mut sb, &mut id);
    assert_eq!(id.mark, 1);
    let mut again = Ident { sym: "x".to_owned(), mark: 0 };
    s.ident_type = IdentType::Label;
    s.visit_ident(&mut sb, &mut again);
    assert_eq!(again.mark, 0);
    s.ident_type = IdentType::Ref;
    s.visit_ident(&mut sb, &mut again);
    assert_eq!(again.mark, 1);
    assert_eq!(s.current.reads, vec![1]);
    let root = s.into_cur_scope();
    assert_eq!(root.declared_symbols.get(&"x".to_owned()).unwrap().mark, 1);
    assert!(root.is_fn());
}

#[test]
fn modules_inside_and_outside() {
    let m = ModOrExt::Mod(Module::new("/a.js".to_owned()));
    let e = ModOrExt::Ext(ExternalModule::new("react".to_owned()));
    assert!(m.is_mod() && !m.is_ext());
    assert!(e.is_ext() && !e.is_mod());
    assert_eq!(m.into_mod().map(|m| m.id), Some("/a.js".to_owned()));
    assert_eq!(e.into_ext(), Some(ExternalModule::new("react".to_owned())));
    assert!(ModOrExt::Ext(ExternalModule::new("x".to_owned())).into_mod().is_none());
    assert!(ModOrExt::Mod(Module::new("x".to_owned())).into_ext().is_none());
}

#[test]
fn output_goes_to_the_directory_that_the_options_name() {
    let mut b = Bundle::new(BundleGraph::new(NormalizedInputOptions::default()), NormalizedOutputOptions::default());
    assert_eq!(b.output_file_path("main.js"), None);
    b.output_options.file = Some("dist/out/bundle.js".to_owned());
    assert_eq!(b.output_file_path("bundle.js"), Some("dist/out/bundle.js".to_owned()));
    b.output_options.dir = Some("/abs/build/".to_owned());
    assert_eq!(b.output_file_path("./chunks/../main.js"), Some("/abs/build/main.js".to_owned()));
}

#[test]
fn hooks_that_do_nothing_yet_and_errors() {
    HookDriver::options();
    HookDriver::build_start();
    HookDriver::transform();
    HookDriver::module_parsed();
    HookDriver::resolve_dynamic_import();
    HookDriver::build_end();
    assert_eq!(BundleError::from_graph_error(GraphError::NoEntry), BundleError::GraphError(GraphError::NoEntry));
    assert_ne!(BundleError::NoModule, BundleError::IoError("x".to_owned()));
}

#[test]
fn statements_are_made_of_items_and_what_was_found_in_them() {
    let info = |name: &str, mark: u32| {
        let mut declared = NameMap::new();
        declared.insert(name.to_owned(), mark);
        ModuleItemInfo { declared, reads: vec![mark + 10], writes: vec![], side_effect: None, export_mark: None }
    };
    let mut m = Module::new("/m.js".to_owned());
    m.set_statements(
        vec![ModuleItem::Stmt(Stmt::Empty), ModuleItem::Stmt(Stmt::Debugger), ModuleItem::Stmt(Stmt::Block)],
        vec![info("a", 1), info("b", 2)],
    );
    // The item without its info is left out.
    assert_eq!(m.statements.len(), 2);
    assert!(matches!(m.statements[1].node, ModuleItem::Stmt(Stmt::Debugger)));
    assert_eq!(m.statements[1].reads, vec![12]);
    assert!(!m.statements[0].included);
    assert_eq!(m.definitions.get(&"a".to_owned()), Some(&0));
    assert_eq!(m.definitions.get(&"b".to_owned()), Some(&1));
    m.set_statements(vec![ModuleItem::Stmt(Stmt::Empty)], vec![info("a", 1), info("a", 2)]);
    assert_eq!(m.statements.len(), 1);
    assert_eq!(m.definitions.len(), 1);
}

#[test]
fn an_entry_gets_the_node_of_its_id() {
    let mut g = BundleGraph::new(NormalizedInputOptions::default());
    assert!(g.handle_message(reference("/a.js", "/main.js", import_of("./main", 0, vec![]))));
    // `/main.js` has a node already: the entry takes it, and no node is made.
    assert!(g.add_entry(ResolvedId::new("/main.js".to_owned(), false)));
    assert!(g.add_entry(ResolvedId::new("/other.js".to_owned(), true)));
    assert!(g.add_entry(ResolvedId::new("/main.js".to_owned(), false)));
    assert_eq!(g.entry_indexs, vec![1, 2, 1]);
    assert_eq!(g.module_graph.node_count(), 3);
    assert_eq!(g.module_graph.node_id(2), Some("/other.js".to_owned()));
    let ids: Vec<&str> = g.resolved_entries.iter().map(|r| r.id.as_str()).collect();
    assert_eq!(ids, vec!["/main.js", "/other.js", "/main.js"]);
    assert_eq!(g.node_by_id.get(&"/other.js".to_owned()), Some(&2));
}

#[test]
fn the_last_name_given_is_the_name_noted() {
    let mut g = BundleGraph::new(NormalizedInputOptions::default());
    let first = g.symbol_box.new_mark();
    let second = g.symbol_box.new_mark();
    let plain = g.symbol_box.new_mark();
    let star = g.symbol_box.new_mark();
    let export_d = g.symbol_box.new_mark();
    let ns = g.symbol_box.new_mark();
    assert!(g.add_entry(ResolvedId::new("/main.js".to_owned(), false)));
    assert!(g.handle_message(Msg::NewMod(Module::new("/main.js".to_owned()))));
    let mut a = Module::new("/a.js".to_owned());
    a.exports.insert("default".to_owned(), export_d);
    a.namespace.mark = ns;
    assert!(g.handle_message(Msg::NewMod(a)));
    assert!(g.handle_message(reference(
        "/main.js",
        "/a.js",
        import_of("./a", 0, vec![("default", "First", first), ("default", "Second", second)]),
    )));
    assert!(g.handle_message(reference(
        "/main.js",
        "/a.js",
        import_of("./a", 1, vec![("default", "default", plain), ("*", "default", star)]),
    )));
    assert_eq!(g.build(), Ok(()));
    let a = g.module_by_id.get(&"/a.js".to_owned()).unwrap();
    // The later name stays, and `default` is no name.
    assert_eq!(a.suggested_names.get(&"default".to_owned()), Some(&"Second".to_owned()));
    assert_eq!(a.suggested_names.get(&"*".to_owned()), None);
    // The namespace was asked for: it is made, and exported under its own mark.
    assert!(a.namespace.included);
    assert_eq!(a.exports.get(&"*".to_owned()), Some(&ns));
    assert_eq!(a.namespace.mark, ns);
    assert!(g.symbol_box.equiv(star, ns));
    assert!(g.symbol_box.equiv(first, export_d));
    assert!(g.symbol_box.equiv(plain, export_d));
}

#[test]
fn a_dependency_makes_the_nodes_it_names() {
    let mut g = BundleGraph::new(NormalizedInputOptions::default());
    assert!(g.handle_message(reference("/a.js", "/b.js", import_of("./b", 0, vec![]))));
    assert_eq!(g.module_graph.node_count(), 2);
    assert_eq!(g.node_by_id.get(&"/a.js".to_owned()), Some(&0));
    assert_eq!(g.node_by_id.get(&"/b.js".to_owned()), Some(&1));
    assert!(g.handle_message(reference("/b.js", "/b.js", import_of("./b", 0, vec![]))));
    assert_eq!(g.module_graph.node_count(), 2);
    assert_eq!(g.module_graph.rels.len(), 2);
}

#[test]
fn the_chunk_holds_the_entries_of_the_graph() {
    let mut g = BundleGraph::new(NormalizedInputOptions::default());
    assert!(g.add_entry(ResolvedId::new("/main.js".to_owned(), false)));
    assert!(g.add_entry(ResolvedId::new("/other.js".to_owned(), false)));
    assert!(g.add_entry(ResolvedId::new("/main.js".to_owned(), false)));
    assert!(g.handle_message(reference("/main.js", "/a.js", import_of("./a", 0, vec![]))));
    assert!(g.handle_message(Msg::NewMod(Module::new("/main.js".to_owned()))));
    assert!(g.handle_message(Msg::NewMod(Module::new("/other.js".to_owned()))));
    assert!(g.handle_message(Msg::NewMod(Module::new("/a.js".to_owned()))));
    assert_eq!(g.build(), Ok(()));
    let bundle = Bundle::new(g, NormalizedOutputOptions::default());
    let chunks = bundle.generate_chunks();
    assert_eq!(chunks.len(), 1);
    assert_eq!(chunks[0].entries.len(), 2);
    assert!(chunks[0].entries.contains("/main.js"));
    assert!(chunks[0].entries.contains("/other.js"));
    assert!(!chunks[0].entries.contains("/a.js"));
    assert_eq!(chunks[0].order_modules, vec!["/a.js", "/main.js", "/other.js"]);
}
