//! A linker for ECMAScript modules: symbol identity, export resolution,
//! execution order, tree-shaking, deconfliction and export folding, stated
//! over plain data and proved.

pub mod ast;
pub mod ast_sugar;
pub mod binder;
pub mod bundle;
pub mod chunk;
pub mod dep_graph;
pub mod errors;
pub mod execution_order;
pub mod fold;
pub mod graph;
pub mod hook_driver;
pub mod lcp;
pub mod linker;
pub mod module;
pub mod names;
pub mod nodejs;
pub mod namespace;
pub mod path;
pub mod plugin;
pub mod renamer;
pub mod resolve_id;
pub mod rewrite;
pub mod scanner;
pub mod shared;
pub mod side_effect;
pub mod statement;
pub mod symbol_box;
pub mod text;
pub mod treeshake;
pub mod types;
pub mod union_find;
pub mod worker;
