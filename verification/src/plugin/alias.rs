//! A plugin that resolves a specifier by replacing text in it.

use vstd::prelude::*;
use vstd::string::*;
use crate::plugin::Plugin;
use crate::text::{contains, has_part, has_prefix, replace_all, replaced_from, starts_with};
use crate::types::{ResolveIdResult, ResolvedId, ResolvedIdView};

verus! {

/// Pairs of a text to find and the text to put in its place.
pub struct Alias {
    pub entries: Vec<(String, String)>,
}

/// A plugin with the given entries, such as `("react", "preact")`.
pub fn new(entries: Vec<(String, String)>) -> (r: Alias)
    ensures
        r.entries == entries,
{
    Alias { entries }
}

/// What the first entry, from place `from` on, whose text occurs in the
/// specifier makes of it: every occurrence replaced, and the outcome outside
/// the bundle unless it begins with a dot.
pub open spec fn aliased(entries: Seq<(String, String)>, importee: Seq<char>, from: int) -> Option<
    ResolvedIdView,
>
    decreases entries.len() - from,
{
    if from < 0 || from >= entries.len() {
        None
    } else if has_part(importee, entries[from].0@) {
        let replaced = replaced_from(importee, entries[from].0@, entries[from].1@, 0);
        Some(ResolvedIdView { id: replaced, external: !has_prefix(replaced, "."@) })
    } else {
        aliased(entries, importee, from + 1)
    }
}

impl Plugin for Alias {
    open spec fn resolves(&self, source: Seq<char>, importer: Option<Seq<char>>) -> Option<
        ResolvedIdView,
    > {
        aliased(self.entries@, source, 0)
    }

    open spec fn loads(&self, id: Seq<char>) -> Option<Seq<char>> {
        None
    }

    open spec fn name(&self) -> Seq<char> {
        "rusty-alias"@
    }

    fn get_name(&self) -> (r: String) {
        String::from_str("rusty-alias")
    }

    fn resolve_id(&self, importee: &str, _importer: Option<&str>) -> (r: ResolveIdResult) {
        let mut i: usize = 0;
        while i < self.entries.len()
            invariant
                i <= self.entries@.len(),
                aliased(self.entries@, importee@, i as int) == aliased(self.entries@, importee@, 0),
            decreases self.entries@.len() - i,
        {
            if contains(importee, self.entries[i].0.as_str()) {
                let replaced = replace_all(
                    importee,
                    self.entries[i].0.as_str(),
                    self.entries[i].1.as_str(),
                );
                let external = !starts_with(replaced.as_str(), ".");
                return Some(ResolvedId { id: replaced, external });
            }
            i += 1;
        }
        None
    }

    fn load(&self, _id: &str) -> (r: Option<String>) {
        None
    }
}

} // verus!
