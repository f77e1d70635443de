//! The hooks of a build as the bundler itself fills them.

pub mod built_in;

use vstd::prelude::*;

verus! {

/// The built-in hooks, which see the bundle from a working directory.
pub struct HookDriver {
    pub cwd: String,
}

impl HookDriver {
    pub fn new(cwd: String) -> (r: HookDriver)
        ensures
            r.cwd == cwd,
    {
        HookDriver { cwd }
    }

    /// The hook for the options of a build; the bundler itself does nothing here.
    pub fn options() {
    }

    /// The hook for the start of a build; the bundler itself does nothing here.
    pub fn build_start() {
    }

    /// The file that a specifier names; `None` for a module outside the bundle.
    pub fn resolve_id(&self, source: &str, importer: Option<&str>) -> (r: Option<String>)
        ensures
            r.deep_view() == built_in::resolved_file(source@, importer.deep_view(), self.cwd@),
    {
        built_in::resolve_id(source, importer, self.cwd.as_str())
    }

    /// The hook for the code of a module; the bundler itself lets it pass.
    pub fn transform() {
    }

    /// The hook for a module that was parsed; the bundler itself does nothing here.
    pub fn module_parsed() {
    }

    /// The hook for a dynamic import; the bundler itself records it and resolves nothing.
    pub fn resolve_dynamic_import() {
    }

    /// The hook for the end of a build; the bundler itself does nothing here.
    pub fn build_end() {
    }
}

} // verus!
