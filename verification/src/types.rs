//! The options a build is started with and the records it hands back.

use vstd::prelude::*;
use vstd::string::*;

verus! {

/// The id that a specifier resolved to, and whether the module stays outside the bundle.
#[derive(Debug, Clone, PartialEq, Eq)]
pub struct ResolvedId {
    pub id: String,
    pub external: bool,
}

pub ghost struct ResolvedIdView {
    pub id: Seq<char>,
    pub external: bool,
}

impl DeepView for ResolvedId {
    type V = ResolvedIdView;

    open spec fn deep_view(&self) -> ResolvedIdView {
        ResolvedIdView { id: self.id@, external: self.external }
    }
}

impl ResolvedId {
    pub fn new(id: String, external: bool) -> (r: ResolvedId)
        ensures
            r.id == id,
            r.external == external,
    {
        ResolvedId { id, external }
    }

    pub fn duplicate(&self) -> (r: ResolvedId)
        ensures
            r == *self,
    {
        ResolvedId { id: self.id.clone(), external: self.external }
    }
}

pub type ResolveIdResult = Option<ResolvedId>;

pub struct NormalizedInputOptions {
    pub treeshake: bool,
    /// The entry specifiers, in the order given.
    pub input: Vec<String>,
}

impl Default for NormalizedInputOptions {
    fn default() -> (r: Self)
        ensures
            !r.treeshake,
            r.input@.len() == 0,
    {
        NormalizedInputOptions { treeshake: false, input: Vec::new() }
    }
}

#[derive(Clone, Copy, Debug, PartialEq, Eq, Structural)]
pub enum InternalModuleFormat {
    ES,
    CJS,
    AMD,
    UMD,
}

pub struct NormalizedOutputOptions {
    pub dir: Option<String>,
    /// The pattern of an entry chunk's file name, in which `[name]` stands for the entry's name.
    pub entry_file_names: String,
    pub file: Option<String>,
    pub format: InternalModuleFormat,
    pub minify: bool,
}

impl Default for NormalizedOutputOptions {
    fn default() -> (r: Self)
        ensures
            r.format == InternalModuleFormat::ES,
            r.file is None,
            r.dir is None,
            !r.minify,
            r.entry_file_names@ == "[name].js"@,
    {
        NormalizedOutputOptions {
            format: InternalModuleFormat::ES,
            file: None,
            dir: None,
            minify: false,
            entry_file_names: String::from_str("[name].js"),
        }
    }
}

#[derive(Debug)]
pub struct OutputChunk {
    pub code: String,
    pub file_name: String,
}

#[derive(Debug)]
pub struct RenderedChunk {
    pub code: String,
    pub file_name: String,
}

#[derive(Debug)]
pub enum RolldownOutput {
    Chunk(OutputChunk),
    Asset,
}

impl RolldownOutput {
    /// The file name of a chunk.
    pub fn get_file_name(&self) -> (r: &str)
        requires
            self is Chunk,
        ensures
            r@ == self->Chunk_0.file_name@,
    {
        match self {
            RolldownOutput::Chunk(c) => c.file_name.as_str(),
            RolldownOutput::Asset => "",
        }
    }

    /// The code of a chunk.
    pub fn get_content(&self) -> (r: &str)
        requires
            self is Chunk,
        ensures
            r@ == self->Chunk_0.code@,
    {
        match self {
            RolldownOutput::Chunk(c) => c.code.as_str(),
            RolldownOutput::Asset => "",
        }
    }
}

/// A module that stays outside the bundle.
#[derive(Debug, Clone, PartialEq, Eq)]
pub struct ExternalModule {
    pub id: String,
    pub module_side_effects: bool,
}

impl ExternalModule {
    pub fn new(id: String) -> (r: ExternalModule)
        ensures
            r.id == id,
            r.module_side_effects,
    {
        ExternalModule { id, module_side_effects: true }
    }
}

} // verus!
