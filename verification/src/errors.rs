//! What can stop a build.

use vstd::prelude::*;

verus! {

#[derive(Debug, PartialEq, Eq)]
pub enum GraphError {
    /// An entry specifier resolved to nothing.
    EntryNotFound(String),
    /// The build was given no entry.
    NoEntry,
    /// Loading a module failed; the text is the loader's message.
    IoError(String),
    /// The parser refused a module.
    ParseModuleError,
    /// A specifier that is not external resolved to nothing.
    Unresolved { source: String, importer: String },
    /// A name is exported twice by `module`: it has the name from `other`,
    /// which is the module itself for an export of its own, and would get it
    /// again through `export * from source`.
    DuplicateExport { name: String, source: String, other: String, module: String },
    /// A local export of `module` refers to a name that the module does not bind.
    UnknownExport { name: String, module: String },
}

#[derive(Debug, PartialEq, Eq)]
pub enum BundleError {
    GraphError(GraphError),
    IoError(String),
    NoModule,
}

impl BundleError {
    /// A failure of the graph, as a failure of the bundle.
    pub fn from_graph_error(err: GraphError) -> (r: BundleError)
        ensures
            r == BundleError::GraphError(err),
    {
        BundleError::GraphError(err)
    }
}

} // verus!
