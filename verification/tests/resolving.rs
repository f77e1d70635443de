use rolldown::plugin::alias::new;
use rolldown::plugin::{resolve, resolve_id_via_plugins, transform, Plugin, PluginDriver};
use rolldown::resolve_id::{
    add_js_extension_if_necessary, fast_add_js_extension_if_necessary, is_builtin,
    is_external_module, is_relative, relative_id, resolve_id,
};
use rolldown::text::{contains, ends_with, replace_all, same_text, starts_with};
use rolldown::types::{
    ExternalModule, InternalModuleFormat, NormalizedInputOptions, NormalizedOutputOptions,
    OutputChunk, ResolvedId, RolldownOutput,
};
use rolldown::errors::GraphError;
use rolldown::worker::{
    is_finished, load_failure, pre_analyze_imported_module, stop_on_failure, JobQueue,
};
use rolldown::ast::{ImportDecl, ModuleDecl, ModuleItem, NamedExport, Stmt};
use rolldown::module::Module;

fn id(path: &str, external: bool) -> ResolvedId {
    ResolvedId::new(path.to_owned(), external)
}

#[test]
fn relative_specifiers_are_seen_from_the_importer() {
    assert_eq!(resolve_id("./b", Some("/src/a.js"), false, "/cwd"), id("/src/b.js", false));
    assert_eq!(resolve_id("../lib/c.mjs", Some("/src/deep/a.js"), false, "/cwd"), id("/src/lib/c.mjs", false));
    assert_eq!(resolve_id("./style.css", Some("/src/a.js"), false, "/cwd"), id("/src/style.css", false));
    assert_eq!(resolve_id("/abs/file", Some("/src/a.js"), false, "/cwd"), id("/abs/file.js", false));
}

#[test]
fn entries_are_seen_from_the_working_directory() {
    assert_eq!(resolve_id("./main", None, false, "/cwd"), id("/cwd/main.js", false));
    assert_eq!(resolve_id("src/main.js", None, false, "/cwd/app"), id("/cwd/app/src/main.js", false));
    assert_eq!(resolve_id("/abs/main", None, false, "/cwd"), id("/abs/main.js", false));
}

#[test]
fn bare_specifiers_name_modules_outside_the_bundle() {
    assert_eq!(resolve_id("react", Some("/src/a.js"), false, "/cwd"), id("react", true));
    assert_eq!(resolve_id("fs", Some("/src/a.js"), false, "/cwd"), id("fs", true));
    assert_eq!(resolve_id("node:fs", Some("/src/a.js"), false, "/cwd"), id("fs", true));
    assert_eq!(resolve_id("node:unknown", Some("/src/a.js"), false, "/cwd"), id("node:unknown", true));
    assert_eq!(resolve_id(".hidden", Some("/src/a.js"), false, "/cwd"), id(".hidden", true));
    assert!(is_builtin("path"));
    assert!(is_builtin("worker_threads"));
    assert!(!is_builtin("react"));
    assert!(!is_builtin(""));
    assert!(is_relative("./a") && is_relative("../a") && is_relative(".") && is_relative(".."));
    assert!(!is_relative(".a") && !is_relative("a/./b") && !is_relative("/a"));
    assert!(is_external_module("node:fs") && is_external_module("react"));
    assert!(!is_external_module("./a") && !is_external_module("/a") && !is_external_module(".a"));
}

#[test]
fn the_extension_is_added_where_there_is_none() {
    assert_eq!(add_js_extension_if_necessary("/a/b".to_owned(), false), "/a/b.js");
    assert_eq!(add_js_extension_if_necessary("/a/b.js".to_owned(), false), "/a/b.js");
    assert_eq!(add_js_extension_if_necessary("/a/b.ts".to_owned(), false), "/a/b.ts");
    assert_eq!(add_js_extension_if_necessary("/a.dir/b".to_owned(), false), "/a.dir/b.js");
    assert_eq!(add_js_extension_if_necessary("/a/.hidden".to_owned(), false), "/a/.hidden.js");
    assert_eq!(fast_add_js_extension_if_necessary("/a/b.ts".to_owned(), false), "/a/b.ts.js");
    assert_eq!(fast_add_js_extension_if_necessary("/a/b.js".to_owned(), false), "/a/b.js");
    assert_eq!(fast_add_js_extension_if_necessary("js".to_owned(), false), "js.js");
}

#[test]
fn ids_are_shown_from_the_working_directory() {
    assert_eq!(relative_id("/w/src/a.js".to_owned(), "/w"), "src/a.js");
    assert_eq!(relative_id("/other/a.js".to_owned(), "/w/x"), "../../other/a.js");
    assert_eq!(relative_id("react".to_owned(), "/w"), "react");
    assert_eq!(relative_id("/w/a.js".to_owned(), "relative"), "/w/a.js");
}

#[test]
fn text_operations() {
    assert!(starts_with("node:fs", "node:") && starts_with("a", "") && !starts_with("no", "node:"));
    assert!(ends_with("a.js", ".js") && !ends_with("a.jsx", ".js") && ends_with("", ""));
    assert!(same_text("é", "é") && !same_text("a", "ab"));
    assert!(contains("a-react-b", "react") && contains("x", "") && !contains("rea", "react"));
    assert_eq!(replace_all("react/react-dom", "react", "preact"), "preact/preact-dom");
    assert_eq!(replace_all("aaa", "aa", "b"), "ba");
    assert_eq!(replace_all("abc", "", "x"), "abc");
    assert_eq!(replace_all("abc", "abcd", "x"), "abc");
    assert_eq!(replace_all("", "a", "x"), "");
}

#[test]
fn the_alias_plugin_replaces_text() {
    let alias = new(vec![
        ("react".to_owned(), "preact".to_owned()),
        ("@/".to_owned(), "./src/".to_owned()),
        ("preact".to_owned(), "never".to_owned()),
    ]);
    assert_eq!(alias.get_name(), "rusty-alias");
    assert_eq!(alias.resolve_id("react-dom", None), Some(id("preact-dom", true)));
    assert_eq!(alias.resolve_id("@/app", Some("/x.js")), Some(id("./src/app", false)));
    assert_eq!(alias.resolve_id("lodash", None), None);
    assert_eq!(alias.load("react"), None);
}

#[test]
fn the_first_plugin_that_answers_decides() {
    let none = new(vec![]);
    let first = new(vec![("a".to_owned(), "./first".to_owned())]);
    let second = new(vec![("a".to_owned(), "./second".to_owned()), ("b".to_owned(), "bee".to_owned())]);
    let driver = PluginDriver::from_plugins(vec![none, first, second]);
    assert_eq!(driver.resolve_id("a", None), Some(id("./first", false)));
    assert_eq!(resolve_id_via_plugins("b", None, &driver), Some(id("bee", true)));
    assert_eq!(driver.resolve_id("c", None), None);
    assert_eq!(driver.load("a"), None);
    assert_eq!(driver.transform("code".to_owned(), "/a.js"), None);
    assert_eq!(transform("code".to_owned(), "/a.js", &driver), "code");
    // Where no plugin answers the bundler's own rules do.
    assert_eq!(resolve("b", Some("/x.js"), false, "/cwd", &driver), id("bee", true));
    assert_eq!(resolve("./c", Some("/src/x.js"), false, "/cwd", &driver), id("/src/c.js", false));
    let empty: PluginDriver<rolldown::plugin::alias::Alias> = PluginDriver::new();
    assert_eq!(empty.resolve_id("a", None), None);
}

#[test]
fn records_and_options() {
    let input = NormalizedInputOptions::default();
    assert!(!input.treeshake && input.input.is_empty());
    let output = NormalizedOutputOptions::default();
    assert_eq!(output.entry_file_names, "[name].js");
    assert_eq!(output.format, InternalModuleFormat::ES);
    assert!(output.file.is_none() && output.dir.is_none() && !output.minify);
    let chunk = RolldownOutput::Chunk(OutputChunk { code: "x()".to_owned(), file_name: "a.js".to_owned() });
    assert_eq!(chunk.get_file_name(), "a.js");
    assert_eq!(chunk.get_content(), "x()");
    let ext = ExternalModule::new("react".to_owned());
    assert_eq!(ext.id, "react");
    assert!(ext.module_side_effects);
}

#[test]
fn jobs_are_claimed_once_and_in_order() {
    let mut q = JobQueue::new();
    assert_eq!(q.fetch_job(), None);
    q.push(id("/a.js", false));
    q.push(id("/b.js", false));
    q.push(id("/a.js", false));
    q.push(id("react", true));
    assert_eq!(q.fetch_job(), Some(id("/a.js", false)));
    assert_eq!(q.fetch_job(), Some(id("/b.js", false)));
    // The second `/a.js` was claimed before: it leaves the queue unclaimed.
    assert_eq!(q.fetch_job(), Some(id("react", true)));
    assert_eq!(q.fetch_job(), None);
    assert_eq!(q.processed.len(), 3);
    assert!(q.processed.contains("/a.js"));
    assert!(q.processed.contains("/b.js"));
    assert!(q.processed.contains("react"));
    q.push(id("/b.js", false));
    assert_eq!(q.fetch_job(), None);
    assert!(q.pending.is_empty());
}

#[test]
fn the_builder_is_done_when_nothing_is_left() {
    assert!(is_finished(4, 4, 0, 0));
    assert!(!is_finished(3, 4, 0, 0));
    assert!(!is_finished(4, 4, 1, 0));
    assert!(!is_finished(4, 4, 0, 1));
}

#[test]
fn what_a_module_names_is_read_next() {
    let mut m = Module::new("/src/a.js".to_owned());
    let body = vec![
        ModuleItem::ModuleDecl(ModuleDecl::Import(ImportDecl { specifiers: vec![], src: "./b".to_owned() })),
        ModuleItem::Stmt(Stmt::Empty),
        ModuleItem::ModuleDecl(ModuleDecl::ExportNamed(NamedExport { specifiers: vec![], src: None })),
        ModuleItem::ModuleDecl(ModuleDecl::ExportNamed(NamedExport {
            specifiers: vec![],
            src: Some("react".to_owned()),
        })),
        ModuleItem::ModuleDecl(ModuleDecl::ExportAll { src: "./b".to_owned() }),
    ];
    let deps = pre_analyze_imported_module(&mut m, &body, "/cwd");
    assert_eq!(deps, vec![id("/src/b.js", false), id("react", true), id("/src/b.js", false)]);
    assert_eq!(m.resolved_ids.len(), 2);
    // What is remembered is what is answered.
    m.resolved_ids.insert("./b".to_owned(), id("/elsewhere.js", false));
    assert_eq!(m.resolve_id(&"./b".to_owned(), "/cwd"), id("/elsewhere.js", false));
}

#[test]
fn an_entry_is_joined_to_a_working_directory_that_is_not_absolute() {
    assert_eq!(resolve_id("./main", None, false, "proj"), id("proj/main.js", false));
    assert_eq!(resolve_id("../main.mjs", None, false, "proj/app"), id("proj/main.mjs", false));
    assert_eq!(relative_id("/w/a.js".to_owned(), "proj"), "/w/a.js");
    assert_eq!(relative_id("/w/src/a.js".to_owned(), "/w"), "src/a.js");
}

#[test]
fn a_module_that_cannot_be_loaded_fails_by_what_it_is() {
    let asked = Some(("./gone".to_owned(), "/w/main.js".to_owned()));
    assert_eq!(
        load_failure("/w/gone.js".to_owned(), asked.clone(), true, "no such file".to_owned()),
        GraphError::Unresolved { source: "./gone".to_owned(), importer: "/w/main.js".to_owned() }
    );
    assert_eq!(
        load_failure("/w/main.js".to_owned(), None, true, "no such file".to_owned()),
        GraphError::EntryNotFound("/w/main.js".to_owned())
    );
    assert_eq!(
        load_failure("/w/gone.js".to_owned(), asked, false, "permission denied".to_owned()),
        GraphError::IoError("permission denied".to_owned())
    );
}

#[test]
fn the_first_failure_stays_and_the_queue_is_dropped() {
    let mut q = JobQueue::new();
    q.push(id("/a.js", false));
    assert_eq!(q.fetch_job(), Some(id("/a.js", false)));
    q.push(id("/b.js", false));
    q.push(id("/c.js", false));
    let mut first: Option<&str> = None;
    stop_on_failure(&mut first, "one", &mut q);
    assert_eq!(first, Some("one"));
    assert_eq!(q.fetch_job(), None);
    q.push(id("/d.js", false));
    stop_on_failure(&mut first, "two", &mut q);
    assert_eq!(first, Some("one"));
    assert_eq!(q.fetch_job(), None);
    // What was claimed stays claimed.
    q.push(id("/a.js", false));
    assert_eq!(q.fetch_job(), None);
}
