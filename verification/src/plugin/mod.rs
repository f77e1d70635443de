//! Plugins: what a host adds to resolving and loading. The first plugin
//! that answers decides.

pub mod alias;

use vstd::prelude::*;
use crate::types::{ResolveIdResult, ResolvedId, ResolvedIdView};

verus! {

/// What a plugin answers. A plugin answers the same question the same way.
pub trait Plugin {
    /// What the plugin resolves a specifier to, if it does.
    spec fn resolves(&self, source: Seq<char>, importer: Option<Seq<char>>) -> Option<
        ResolvedIdView,
    >;

    /// The text that the plugin loads for an id, if it does.
    spec fn loads(&self, id: Seq<char>) -> Option<Seq<char>>;

    /// The name that the plugin goes by.
    spec fn name(&self) -> Seq<char>;

    fn get_name(&self) -> (r: String)
        ensures
            r@ == self.name(),
    ;

    fn resolve_id(&self, source: &str, importer: Option<&str>) -> (r: ResolveIdResult)
        ensures
            r.deep_view() == self.resolves(source@, importer.deep_view()),
    ;

    fn load(&self, id: &str) -> (r: Option<String>)
        ensures
            r.deep_view() == self.loads(id@),
    ;
}

/// The plugins of a build, in the order in which they were registered.
pub struct PluginDriver<P: Plugin> {
    pub plugins: Vec<P>,
}

/// The answer of the first plugin, from place `from` on, that resolves the specifier.
pub open spec fn first_resolved<P: Plugin>(
    plugins: Seq<P>,
    source: Seq<char>,
    importer: Option<Seq<char>>,
    from: int,
) -> Option<ResolvedIdView>
    decreases plugins.len() - from,
{
    if from < 0 || from >= plugins.len() {
        None
    } else {
        match plugins[from].resolves(source, importer) {
            Some(r) => Some(r),
            None => first_resolved(plugins, source, importer, from + 1),
        }
    }
}

/// The answer of the first plugin, from place `from` on, that loads the id.
pub open spec fn first_loaded<P: Plugin>(plugins: Seq<P>, id: Seq<char>, from: int) -> Option<
    Seq<char>,
>
    decreases plugins.len() - from,
{
    if from < 0 || from >= plugins.len() {
        None
    } else {
        match plugins[from].loads(id) {
            Some(r) => Some(r),
            None => first_loaded(plugins, id, from + 1),
        }
    }
}

impl<P: Plugin> PluginDriver<P> {
    pub fn new() -> (d: Self)
        ensures
            d.plugins@.len() == 0,
    {
        PluginDriver { plugins: Vec::new() }
    }

    pub fn from_plugins(plugins: Vec<P>) -> (d: Self)
        ensures
            d.plugins == plugins,
    {
        PluginDriver { plugins }
    }

    /// The answer of the first plugin that resolves the specifier.
    pub fn resolve_id(&self, source: &str, importer: Option<&str>) -> (r: ResolveIdResult)
        ensures
            r.deep_view() == first_resolved(self.plugins@, source@, importer.deep_view(), 0),
    {
        let mut i: usize = 0;
        while i < self.plugins.len()
            invariant
                i <= self.plugins@.len(),
                first_resolved(self.plugins@, source@, importer.deep_view(), i as int)
                    == first_resolved(self.plugins@, source@, importer.deep_view(), 0),
            decreases self.plugins@.len() - i,
        {
            let r = self.plugins[i].resolve_id(source, importer);
            if r.is_some() {
                return r;
            }
            i += 1;
        }
        None
    }

    /// The answer of the first plugin that loads the id.
    pub fn load(&self, id: &str) -> (r: Option<String>)
        ensures
            r.deep_view() == first_loaded(self.plugins@, id@, 0),
    {
        let mut i: usize = 0;
        while i < self.plugins.len()
            invariant
                i <= self.plugins@.len(),
                first_loaded(self.plugins@, id@, i as int) == first_loaded(self.plugins@, id@, 0),
            decreases self.plugins@.len() - i,
        {
            let r = self.plugins[i].load(id);
            if r.is_some() {
                return r;
            }
            i += 1;
        }
        None
    }

    /// Plugins do not transform code: the code passes through.
    pub fn transform(&self, _code: String, _id: &str) -> (r: Option<String>)
        ensures
            r is None,
    {
        None
    }
}

/// Resolves a specifier by the plugins alone.
pub fn resolve_id_via_plugins<P: Plugin>(
    source: &str,
    importer: Option<&str>,
    plugin_driver: &PluginDriver<P>,
) -> (r: ResolveIdResult)
    ensures
        r.deep_view() == first_resolved(plugin_driver.plugins@, source@, importer.deep_view(), 0),
{
    plugin_driver.resolve_id(source, importer)
}

/// Resolves a specifier: the plugins first, then the rules of the bundler itself.
pub fn resolve<P: Plugin>(
    source: &str,
    importer: Option<&str>,
    preserve_symlinks: bool,
    cwd: &str,
    plugin_driver: &PluginDriver<P>,
) -> (r: ResolvedId)
    ensures
        match first_resolved(plugin_driver.plugins@, source@, importer.deep_view(), 0) {
            Some(answer) => r.deep_view() == answer,
            None => r.deep_view() == crate::resolve_id::resolved(
                source@,
                importer.deep_view(),
                cwd@,
            ),
        },
{
    match plugin_driver.resolve_id(source, importer) {
        Some(r) => r,
        None => crate::resolve_id::resolve_id(source, importer, preserve_symlinks, cwd),
    }
}

/// The code of a module after the plugins have seen it.
pub fn transform<P: Plugin>(source: String, id: &str, plugin_driver: &PluginDriver<P>) -> (r: String)
    ensures
        r == source,
{
    match plugin_driver.transform(source.clone(), id) {
        Some(code) => code,
        None => source,
    }
}

} // verus!
