use dashmap::DashSet;
use rolldown::ast::{
    Decl, ExportSpecifier, Expr, Ident, ImportDecl, ImportSpecifier, ModuleDecl, ModuleExportName,
    ModuleItem, NamedExport, Pat, Prop, PropName, Stmt, VarDecl, VarDeclKind, VarDeclarator,
};
use rolldown::ast_sugar::{export, namespace};
use rolldown::bundle::Bundle;
use rolldown::chunk::Chunk;
use rolldown::graph::BundleGraph;
use rolldown::lcp::{lcp, lcp_of_array};
use rolldown::module::Module;
use rolldown::renamer::{assign_names, make_candidate, push_decimal};
use rolldown::rewrite::Renamer;
use rolldown::symbol_box::SymbolBox;
use rolldown::types::{NormalizedInputOptions, NormalizedOutputOptions};

fn ident(name: &str, mark: u32) -> Ident {
    Ident { sym: name.to_owned(), mark }
}

fn symbols(list: &[(&str, u32)]) -> Vec<(String, u32)> {
    list.iter().map(|(n, m)| ((*n).to_owned(), *m)).collect()
}

#[test]
fn candidates_are_base_then_dollar_numbers() {
    let base = "x".to_owned();
    assert_eq!(make_candidate(&base, 0), "x");
    assert_eq!(make_candidate(&base, 1), "x$0");
    assert_eq!(make_candidate(&base, 2), "x$1");
    assert_eq!(make_candidate(&base, 11), "x$10");
    assert_eq!(make_candidate(&base, 124), "x$123");
    let mut out = "n=".to_owned();
    push_decimal(0, &mut out);
    push_decimal(907, &mut out);
    assert_eq!(out, "n=0907");
}

#[test]
fn every_class_gets_the_first_free_name() {
    let mut sb = SymbolBox::new();
    let m: Vec<u32> = (0..7).map(|_| sb.new_mark()).collect();
    sb.union(m[0], m[3]);
    let names = assign_names(
        &sb,
        &symbols(&[("x", m[0]), ("x", m[1]), ("x$0", m[2]), ("y", m[3]), ("x", m[4]), ("x", m[5]), ("x$2", m[6])]),
    );
    let got: Vec<(u32, &str)> = names.iter().map(|(r, n)| (*r, n.as_str())).collect();
    assert_eq!(
        got,
        vec![
            (sb.find_root(m[0]), "x"),
            (m[1], "x$0"),
            (m[2], "x$0$0"),
            (m[4], "x$1"),
            (m[5], "x$2"),
            (m[6], "x$2$0"),
        ]
    );
    // No two classes share a name.
    for i in 0..names.len() {
        for j in 0..i {
            assert_ne!(names[i].1, names[j].1);
            assert_ne!(names[i].0, names[j].0);
        }
    }
}

#[test]
fn deconflicting_twice_is_deconflicting_once() {
    let mut sb = SymbolBox::new();
    let m: Vec<u32> = (0..5).map(|_| sb.new_mark()).collect();
    sb.union(m[1], m[4]);
    let declared = symbols(&[("a", m[0]), ("a", m[1]), ("b", m[2]), ("a", m[3]), ("c", m[4])]);
    let names = assign_names(&sb, &declared);
    let renamed: Vec<(String, u32)> = declared
        .iter()
        .map(|(_, mark)| {
            let root = sb.find_root(*mark);
            (names.iter().find(|(r, _)| *r == root).unwrap().1.clone(), *mark)
        })
        .collect();
    assert_eq!(assign_names(&sb, &renamed), names);
}

#[test]
fn identifiers_get_the_name_of_their_class() {
    let mut sb = SymbolBox::new();
    let a = sb.new_mark();
    let b = sb.new_mark();
    let c = sb.new_mark();
    sb.union(a, b);
    let names = vec![(sb.find_root(a), "renamed".to_owned())];
    let r = Renamer { mark_to_names: &names, symbol_box: &sb };
    let mut x = ident("x", a);
    r.rename_ident(&mut x);
    assert_eq!((x.sym.as_str(), x.mark), ("renamed", a));
    let mut y = ident("y", b);
    r.rename_ident(&mut y);
    assert_eq!(y.sym, "renamed");
    let mut z = ident("z", c);
    r.rename_ident(&mut z);
    assert_eq!(z.sym, "z");
    let mut global = ident("window", 0);
    r.rename_ident(&mut global);
    assert_eq!(global.sym, "window");
}

#[test]
fn a_shorthand_property_is_written_out_so_that_its_key_stays() {
    let mut sb = SymbolBox::new();
    let a = sb.new_mark();
    let names = vec![(a, "x$0".to_owned())];
    let r = Renamer { mark_to_names: &names, symbol_box: &sb };
    let mut e = Expr::Object(vec![
        Prop::Shorthand(ident("x", a)),
        Prop::KeyValue(PropName::Ident(ident("k", a)), Expr::Ident(ident("x", a))),
        Prop::Other,
    ]);
    r.rename_expr(&mut e);
    match e {
        Expr::Object(props) => {
            assert!(matches!(&props[0], Prop::KeyValue(PropName::Ident(k), Expr::Ident(v))
                if k.sym == "x" && k.mark == 0 && v.sym == "x$0" && v.mark == a));
            assert!(matches!(&props[1], Prop::KeyValue(PropName::Ident(k), Expr::Ident(v))
                if k.sym == "k" && v.sym == "x$0"));
            assert!(matches!(&props[2], Prop::Other));
        }
        _ => panic!("an object was expected"),
    }
}

#[test]
fn imports_and_exports_keep_the_names_they_cross_the_boundary_with() {
    let mut sb = SymbolBox::new();
    let a = sb.new_mark();
    let b = sb.new_mark();
    let names = vec![(a, "useState$1".to_owned()), (b, "same".to_owned())];
    let r = Renamer { mark_to_names: &names, symbol_box: &sb };
    let mut import = ModuleItem::ModuleDecl(ModuleDecl::Import(ImportDecl {
        specifiers: vec![
            ImportSpecifier::Named { local: ident("useState", a), imported: None },
            ImportSpecifier::Named { local: ident("same", b), imported: None },
            ImportSpecifier::Named {
                local: ident("other", a),
                imported: Some(ModuleExportName::Ident(ident("orig", 0))),
            },
        ],
        src: "react".to_owned(),
    }));
    r.rename_item(&mut import);
    match import {
        ModuleItem::ModuleDecl(ModuleDecl::Import(i)) => {
            assert!(matches!(&i.specifiers[0], ImportSpecifier::Named { local, imported: Some(ModuleExportName::Ident(k)) }
                if local.sym == "useState$1" && k.sym == "useState"));
            assert!(matches!(&i.specifiers[1], ImportSpecifier::Named { local, imported: None } if local.sym == "same"));
            assert!(matches!(&i.specifiers[2], ImportSpecifier::Named { local, imported: Some(ModuleExportName::Ident(k)) }
                if local.sym == "useState$1" && k.sym == "orig"));
        }
        _ => panic!("an import was expected"),
    }
    let mut list = ModuleItem::ModuleDecl(ModuleDecl::ExportNamed(NamedExport {
        specifiers: vec![
            ExportSpecifier::Named {
                orig: ModuleExportName::Ident(ident("x", b)),
                exported: Some(ModuleExportName::Ident(ident("same", 0))),
            },
            ExportSpecifier::Named {
                orig: ModuleExportName::Ident(ident("useState", a)),
                exported: Some(ModuleExportName::Ident(ident("useState", 0))),
            },
            ExportSpecifier::Named { orig: ModuleExportName::Ident(ident("useState", a)), exported: None },
        ],
        src: None,
    }));
    r.rename_item(&mut list);
    match list {
        ModuleItem::ModuleDecl(ModuleDecl::ExportNamed(n)) => {
            assert!(matches!(&n.specifiers[0], ExportSpecifier::Named { orig: ModuleExportName::Ident(o), exported: None }
                if o.sym == "same"));
            assert!(matches!(&n.specifiers[1], ExportSpecifier::Named { orig: ModuleExportName::Ident(o), exported: Some(ModuleExportName::Ident(e)) }
                if o.sym == "useState$1" && e.sym == "useState"));
            assert!(matches!(&n.specifiers[2], ExportSpecifier::Named { orig: ModuleExportName::Ident(o), exported: Some(ModuleExportName::Ident(e)) }
                if o.sym == "useState$1" && e.sym == "useState"));
        }
        _ => panic!("an export list was expected"),
    }
}

#[test]
fn declarations_and_patterns_are_renamed() {
    let mut sb = SymbolBox::new();
    let a = sb.new_mark();
    let names = vec![(a, "n".to_owned())];
    let r = Renamer { mark_to_names: &names, symbol_box: &sb };
    let mut item = ModuleItem::Stmt(Stmt::Decl(Decl::Var(VarDecl {
        kind: VarDeclKind::Let,
        decls: vec![VarDeclarator {
            name: Pat::Array(vec![None, Some(Pat::Rest(Box::new(Pat::Ident(ident("a", a)))))]),
            init: Some(Expr::Sequence(vec![Expr::Ident(ident("a", a)), Expr::Ident(ident("b", 0))])),
        }],
    })));
    r.rename_item(&mut item);
    match item {
        ModuleItem::Stmt(Stmt::Decl(Decl::Var(v))) => {
            assert_eq!(rolldown::ast::collect_names_of_pat(&v.decls[0].name), vec!["n"]);
            assert!(matches!(&v.decls[0].init, Some(Expr::Sequence(es))
                if matches!(&es[0], Expr::Ident(i) if i.sym == "n") && matches!(&es[1], Expr::Ident(i) if i.sym == "b")));
        }
        _ => panic!("a declaration was expected"),
    }
}

#[test]
fn the_namespace_object_lists_every_member() {
    let stmt = namespace(("ns".to_owned(), 7), &vec![("a".to_owned(), 1), ("b".to_owned(), 2)]);
    match stmt {
        Stmt::Decl(Decl::Var(v)) => {
            assert_eq!(v.kind, VarDeclKind::Const);
            assert!(matches!(&v.decls[0].name, Pat::Ident(i) if i.sym == "ns" && i.mark == 7));
            match &v.decls[0].init {
                Some(Expr::Call(_, args)) => match &args[0] {
                    Expr::Object(props) => {
                        assert_eq!(props.len(), 3);
                        assert!(matches!(&props[0], Prop::KeyValue(PropName::Str(k), Expr::Lit(rolldown::ast::Lit::Null)) if k == "__proto__"));
                        assert!(matches!(&props[2], Prop::KeyValue(PropName::Str(k), Expr::Ident(i)) if k == "b" && i.mark == 2));
                    }
                    _ => panic!("an object was expected"),
                },
                _ => panic!("a call was expected"),
            }
        }
        _ => panic!("a declaration was expected"),
    }
    match export(&vec![("a".to_owned(), 1)]) {
        ModuleDecl::ExportNamed(n) => {
            assert_eq!(n.src, None);
            assert!(matches!(&n.specifiers[0], ExportSpecifier::Named { orig: ModuleExportName::Ident(o), exported: Some(ModuleExportName::Ident(e)) }
                if o.mark == 1 && e.sym == "a" && e.mark == 0));
        }
        _ => panic!("an export list was expected"),
    }
}

#[test]
fn a_namespace_is_made_once() {
    let mut m = Module::new("/src/foo.js".to_owned());
    m.namespace.mark = 9;
    m.exports.insert("a".to_owned(), 1);
    m.include_namespace();
    m.include_namespace();
    assert_eq!(m.statements.len(), 1);
    let s = &m.statements[0];
    assert!(s.included);
    assert_eq!(s.reads, vec![1]);
    assert_eq!(s.declared.get(&"foonamespace".to_owned()), Some(&9));
    assert_eq!(m.exports.get(&"*".to_owned()), Some(&9));
    assert_eq!(m.declared_symbols.get(&"foonamespace".to_owned()), Some(&9));
    assert_eq!(m.definitions.get(&"foonamespace".to_owned()), Some(&0));
    assert_eq!(m.local_exports.get(&"*".to_owned()).unwrap().local_name, "foonamespace");
    assert!(m.namespace.included);
}

#[test]
fn longest_common_prefixes() {
    assert_eq!(lcp("/a/b/c.js", "/a/b/d.js"), "/a/b/");
    assert_eq!(lcp("abc", "abc"), "abc");
    assert_eq!(lcp("abc", "x"), "");
    assert_eq!(lcp("", "x"), "");
    assert_eq!(lcp("héllo", "hélas"), "hél");
    let ids = vec!["/w/src/a.js".to_owned(), "/w/src/b/c.js".to_owned(), "/w/lib/d.js".to_owned()];
    assert_eq!(lcp_of_array(&ids), "/w/");
    assert_eq!(lcp_of_array(&vec!["only".to_owned()]), "only");
}

#[test]
fn chunks_are_named_after_their_last_module() {
    let chunk = Chunk::new(vec!["/w/src/a.js".to_owned(), "/w/src/main.entry.js".to_owned()], DashSet::new());
    assert_eq!(chunk.get_chunk_name(), "main.entry");
    assert_eq!(chunk.get_fallback_chunk_name(), "main.entry");
    assert_eq!(chunk.generate_id(&NormalizedOutputOptions::default()), "main.entry.js");
    let mut options = NormalizedOutputOptions::default();
    options.entry_file_names = "out/[name]-[name].mjs".to_owned();
    assert_eq!(chunk.generate_id(&options), "out/main.entry-main.entry.mjs");
    let info = chunk.get_chunk_info_with_file_names();
    assert_eq!((info.code.as_str(), info.file_name.as_str()), ("", ""));
    assert_eq!(chunk.module_comments(Some("/w/src")), vec![" /a.js", " /main.entry.js"]);
    assert_eq!(chunk.module_comments(Some("/other")), vec![" w/src/a.js", " w/src/main.entry.js"]);
    assert_eq!(chunk.module_comments(None), vec![" a.js", " main.entry.js"]);
}

#[test]
fn the_output_file_names_the_chunk_where_it_is_set() {
    let graph = BundleGraph::new(NormalizedInputOptions::default());
    let mut options = NormalizedOutputOptions::default();
    options.file = Some("dist/deep/bundle.js".to_owned());
    let mut bundle = Bundle::new(graph, options);
    let mut chunk = Chunk::new(vec!["/w/main.js".to_owned()], DashSet::new());
    bundle.name_chunk(&mut chunk);
    assert_eq!(chunk.id, "bundle.js");
    bundle.output_options.file = None;
    bundle.name_chunk(&mut chunk);
    assert_eq!(chunk.id, "main.js");
    let chunks = bundle.generate_chunks();
    assert_eq!(chunks.len(), 1);
    assert!(chunks[0].order_modules.is_empty());
}
