//! Linking: the exports that a module takes over from the modules it
//! re-exports whole, and the union of every imported name with the export
//! it stands for.

use vstd::prelude::*;
use vstd::string::*;
use crate::errors::GraphError;
use crate::module::{Module, ModuleView};
use crate::names::{assoc_get, assoc_index, assoc_keys, lemma_position_some, NameMap};
use crate::shared::{map_get, resolved_get};
use crate::symbol_box::Mark;

verus! {

/// The exports of a module while it takes over those of another, and the
/// place of the first name that it has already.
pub ghost struct FanIn {
    pub exports: Seq<(Seq<char>, Mark)>,
    pub collision: Option<int>,
}

/// `exports` after the first `n` exports of `dep` were taken over, in
/// order: all but `default`, up to the first that `exports` has already.
pub open spec fn fan_in(exports: Seq<(Seq<char>, Mark)>, dep: Seq<(Seq<char>, Mark)>, n: int) -> FanIn
    decreases n,
{
    if 0 < n <= dep.len() {
        let prev = fan_in(exports, dep, n - 1);
        if prev.collision is Some {
            prev
        } else if dep[n - 1].0 == "default"@ {
            prev
        } else if assoc_get(prev.exports, dep[n - 1].0) is Some {
            FanIn { exports: prev.exports, collision: Some(n - 1) }
        } else {
            FanIn { exports: prev.exports.push(dep[n - 1]), collision: None }
        }
    } else {
        FanIn { exports, collision: None }
    }
}

/// The exports of the module that `source` names in module `m`, where the bundle has that module.
pub open spec fn dep_exports(
    table: Seq<(Seq<char>, ModuleView)>,
    m: ModuleView,
    source: Seq<char>,
) -> Option<Seq<(Seq<char>, Mark)>> {
    match map_get(m.resolved_ids, source) {
        Some(resolved) => match assoc_get(table, resolved.id) {
            Some(dep) => Some(dep.exports),
            None => None,
        },
        None => None,
    }
}

/// The id of the module that `source` names in module `m`; the source itself where it did not resolve.
pub open spec fn dep_id(m: ModuleView, source: Seq<char>) -> Seq<char> {
    match map_get(m.resolved_ids, source) {
        Some(resolved) => resolved.id,
        None => source,
    }
}

/// A name that a module would export twice.
pub ghost struct Duplicate {
    pub name: Seq<char>,
    /// The module whose export came second.
    pub source: Seq<char>,
    /// The module whose export came first.
    pub other: Seq<char>,
    /// The module that exports the name twice.
    pub module: Seq<char>,
}

/// The module that gave the module at place `mi` the name: the first of its
/// `export *` sources, from place `from` up to place `upto`, that exports
/// the name, else the module itself.
pub open spec fn first_source_of(
    table: Seq<(Seq<char>, ModuleView)>,
    mi: int,
    name: Seq<char>,
    from: int,
    upto: int,
) -> Seq<char>
    decreases upto - from,
{
    if from < 0 || from >= upto || from >= table[mi].1.re_export_all_sources.len() {
        table[mi].1.id
    } else {
        let source = table[mi].1.re_export_all_sources[from];
        match dep_exports(table, table[mi].1, source) {
            Some(dep) => if assoc_get(dep, name) is Some {
                dep_id(table[mi].1, source)
            } else {
                first_source_of(table, mi, name, from + 1, upto)
            },
            None => first_source_of(table, mi, name, from + 1, upto),
        }
    }
}

/// The table of modules while they are linked, and the failure that stopped the linking.
pub ghost struct Linked {
    pub table: Seq<(Seq<char>, ModuleView)>,
    pub error: Option<Duplicate>,
}

/// The table after the module at place `mi` took over the exports of the
/// first `n` of its `export *` sources, in order. A source that names no
/// module of the bundle is passed over.
pub open spec fn link_sources(table: Seq<(Seq<char>, ModuleView)>, mi: int, n: int) -> Linked
    decreases n,
{
    if 0 <= mi < table.len() && 0 < n <= table[mi].1.re_export_all_sources.len() {
        let prev = link_sources(table, mi, n - 1);
        if prev.error is Some {
            prev
        } else {
            let m = prev.table[mi].1;
            let source = m.re_export_all_sources[n - 1];
            match dep_exports(prev.table, m, source) {
                None => prev,
                Some(dep) => {
                    let f = fan_in(m.exports, dep, dep.len() as int);
                    let after = prev.table.update(
                        mi,
                        (prev.table[mi].0, ModuleView { exports: f.exports, ..m }),
                    );
                    Linked {
                        table: after,
                        error: match f.collision {
                            Some(i) => Some(
                                Duplicate {
                                    name: dep[i].0,
                                    source: dep_id(m, source),
                                    other: first_source_of(after, mi, dep[i].0, 0, n - 1),
                                    module: m.id,
                                },
                            ),
                            None => None,
                        },
                    }
                },
            }
        }
    } else {
        Linked { table, error: None }
    }
}

/// The table after the first `k` of the modules named by `ids` were linked,
/// in order. An id that names no module of the bundle is passed over.
pub open spec fn link_modules(table: Seq<(Seq<char>, ModuleView)>, ids: Seq<Seq<char>>, k: int) -> Linked
    decreases k,
{
    if 0 < k <= ids.len() {
        let prev = link_modules(table, ids, k - 1);
        if prev.error is Some {
            prev
        } else {
            match assoc_index(prev.table, ids[k - 1]) {
                Some(mi) => link_sources(
                    prev.table,
                    mi,
                    prev.table[mi].1.re_export_all_sources.len() as int,
                ),
                None => prev,
            }
        }
    } else {
        Linked { table, error: None }
    }
}

impl Module {
    /// Takes over the exports of another module, all but `default`, up to
    /// the first name that this module exports already, whose place is returned.
    pub fn adopt_exports(&mut self, dep: &Vec<(String, Mark)>) -> (collision: Option<usize>)
        ensures
            final(self).deep_view() == (ModuleView {
                exports: fan_in(
                    old(self).deep_view().exports,
                    dep.deep_view(),
                    dep@.len() as int,
                ).exports,
                ..old(self).deep_view()
            }),
            match collision {
                Some(i) => fan_in(
                    old(self).deep_view().exports,
                    dep.deep_view(),
                    dep@.len() as int,
                ).collision == Some(i as int) && i < dep@.len(),
                None => fan_in(
                    old(self).deep_view().exports,
                    dep.deep_view(),
                    dep@.len() as int,
                ).collision is None,
            },
    {
        let ghost start = self.deep_view();
        let ghost all = dep.deep_view();
        let default_name = String::from_str("default");
        let mut i: usize = 0;
        while i < dep.len()
            invariant
                i <= dep@.len(),
                all == dep.deep_view(),
                start == old(self).deep_view(),
                default_name@ == "default"@,
                fan_in(start.exports, all, i as int).collision is None,
                self.deep_view() == (ModuleView {
                    exports: fan_in(start.exports, all, i as int).exports,
                    ..start
                }),
            decreases dep@.len() - i,
        {
            assert(all[i as int] == (dep@[i as int].0@, dep@[i as int].1));
            if dep[i].0 != default_name {
                if self.exports.contains_key(&dep[i].0) {
                    proof {
                        assert(fan_in(start.exports, all, i as int + 1).collision == Some(i as int));
                        assert(fan_in(start.exports, all, i as int + 1).exports == fan_in(
                            start.exports,
                            all,
                            i as int,
                        ).exports);
                        lemma_fan_in_stops(start.exports, all, i as int + 1, dep@.len() as int);
                    }
                    return Some(i);
                }
                self.exports.append(dep[i].0.clone(), dep[i].1);
            }
            i += 1;
        }
        None
    }
}

/// Once a name collides, taking over more changes nothing.
pub proof fn lemma_fan_in_stops(
    exports: Seq<(Seq<char>, Mark)>,
    dep: Seq<(Seq<char>, Mark)>,
    n: int,
    m: int,
)
    requires
        0 <= n <= m <= dep.len(),
        fan_in(exports, dep, n).collision is Some,
    ensures
        fan_in(exports, dep, m) == fan_in(exports, dep, n),
    decreases m - n,
{
    if n < m {
        lemma_fan_in_stops(exports, dep, n, m - 1);
    }
}

/// The exports of a module, copied.
pub fn copy_exports(exports: &NameMap<Mark>) -> (r: Vec<(String, Mark)>)
    ensures
        r.deep_view() == exports.deep_view(),
{
    let mut r: Vec<(String, Mark)> = Vec::new();
    let mut i: usize = 0;
    while i < exports.entries.len()
        invariant
            i <= exports.entries@.len(),
            r@.len() == i,
            forall|j: int|
                0 <= j < i ==> (#[trigger] r@[j]).0@ == exports.entries@[j].0@ && r@[j].1
                    == exports.entries@[j].1,
        decreases exports.entries@.len() - i,
    {
        r.push((exports.entries[i].0.clone(), exports.entries[i].1));
        i += 1;
    }
    assert(r.deep_view() =~= exports.deep_view());
    r
}

/// The exports of the module that `source` names in the module at place `mi`, copied.
pub fn exports_of_source(modules: &NameMap<Module>, mi: usize, source: &String) -> (r: Option<
    Vec<(String, Mark)>,
>)
    requires
        mi < modules.entries@.len(),
    ensures
        r.deep_view() == dep_exports(
            modules.deep_view(),
            modules.deep_view()[mi as int].1,
            source@,
        ),
{
    let module = &modules.entries[mi].1;
    assert(modules.deep_view()[mi as int].1 == module.deep_view());
    match resolved_get(&module.resolved_ids, source) {
        Some(resolved) => match modules.get(&resolved.id) {
            Some(dep) => Some(copy_exports(&dep.exports)),
            None => None,
        },
        None => None,
    }
}

/// The module that gave the module at place `mi` the name, among its first `upto` sources.
pub fn first_source(modules: &NameMap<Module>, mi: usize, name: &String, upto: usize) -> (r: String)
    requires
        mi < modules.entries@.len(),
    ensures
        r@ == first_source_of(modules.deep_view(), mi as int, name@, 0, upto as int),
{
    let module = &modules.entries[mi].1;
    let ghost table = modules.deep_view();
    assert(table[mi as int].1 == module.deep_view());
    let mut k: usize = 0;
    while k < upto && k < module.re_export_all_sources.len()
        invariant
            mi < modules.entries@.len(),
            table == modules.deep_view(),
            *module == modules.entries@[mi as int].1,
            table[mi as int].1 == module.deep_view(),
            first_source_of(table, mi as int, name@, k as int, upto as int) == first_source_of(
                table,
                mi as int,
                name@,
                0,
                upto as int,
            ),
        decreases module.re_export_all_sources@.len() - k,
    {
        let source = &module.re_export_all_sources[k];
        assert(table[mi as int].1.re_export_all_sources[k as int] == source@);
        match exports_of_source(modules, mi, source) {
            Some(dep) => {
                let mut found = false;
                let mut i: usize = 0;
                while i < dep.len()
                    invariant
                        i <= dep@.len(),
                        found == exists|j: int|
                            0 <= j < i && (#[trigger] dep.deep_view()[j]).0 == name@,
                    decreases dep@.len() - i,
                {
                    assert(dep.deep_view()[i as int].0 == dep@[i as int].0@);
                    if dep[i].0 == *name {
                        found = true;
                    }
                    i += 1;
                }
                proof {
                    let keys = assoc_keys(dep.deep_view());
                    lemma_position_some(keys, name@);
                    if found {
                        let j = choose|j: int|
                            0 <= j < dep@.len() && (#[trigger] dep.deep_view()[j]).0 == name@;
                        assert(keys[j] == name@);
                    } else {
                        assert forall|j: int| 0 <= j < keys.len() implies keys[j] != name@ by {
                            assert(dep.deep_view()[j].0 == keys[j]);
                        }
                        crate::names::lemma_position_none(keys, name@);
                    }
                }
                if found {
                    return match resolved_get(&module.resolved_ids, source) {
                        Some(resolved) => resolved.id,
                        None => source.clone(),
                    };
                }
            },
            None => {},
        }
        k += 1;
    }
    module.id.clone()
}

/// The module at place `mi` takes over the exports of all its `export *`
/// sources, in order. Fails at the first name that it would export twice.
pub fn link_exports_of(modules: &mut NameMap<Module>, mi: usize) -> (r: Result<(), GraphError>)
    requires
        mi < old(modules).entries@.len(),
    ensures
        ({
            let linked = link_sources(
                old(modules).deep_view(),
                mi as int,
                old(modules).deep_view()[mi as int].1.re_export_all_sources.len() as int,
            );
            &&& final(modules).deep_view() == linked.table
            &&& final(modules).entries@.len() == old(modules).entries@.len()
            &&& match r {
                Ok(_) => linked.error is None,
                Err(GraphError::DuplicateExport { name, source, other, module }) => linked.error
                    == Some(
                    Duplicate { name: name@, source: source@, other: other@, module: module@ },
                ),
                Err(_) => false,
            }
        }),
{
    let ghost start = modules.deep_view();
    let ghost sources = start[mi as int].1.re_export_all_sources;
    assert(start[mi as int].1 == modules.entries@[mi as int].1.deep_view());
    let n = modules.entries[mi].1.re_export_all_sources.len();
    let mut k: usize = 0;
    while k < n
        invariant
            k <= n,
            n == sources.len(),
            mi < modules.entries@.len(),
            modules.entries@.len() == old(modules).entries@.len(),
            start == old(modules).deep_view(),
            sources == start[mi as int].1.re_export_all_sources,
            modules.deep_view()[mi as int].1.re_export_all_sources == sources,
            link_sources(start, mi as int, k as int).error is None,
            modules.deep_view() == link_sources(start, mi as int, k as int).table,
        decreases n - k,
    {
        let ghost table = modules.deep_view();
        assert(table[mi as int] == (
            modules.entries@[mi as int].0@,
            modules.entries@[mi as int].1.deep_view(),
        ));
        let source = modules.entries[mi].1.re_export_all_sources[k].clone();
        assert(source@ == sources[k as int]);
        match exports_of_source(modules, mi, &source) {
            None => {},
            Some(dep) => {
                let collision = modules.entries[mi].1.adopt_exports(&dep);
                proof {
                    let m = table[mi as int].1;
                    let f = fan_in(m.exports, dep.deep_view(), dep@.len() as int);
                    assert(modules.deep_view() =~= table.update(
                        mi as int,
                        (table[mi as int].0, ModuleView { exports: f.exports, ..m }),
                    ));
                }
                match collision {
                    Some(i) => {
                        let module = &modules.entries[mi].1;
                        let from = match resolved_get(&module.resolved_ids, &source) {
                            Some(resolved) => resolved.id,
                            None => source.clone(),
                        };
                        let other = first_source(modules, mi, &dep[i].0, k);
                        let err = GraphError::DuplicateExport {
                            name: dep[i].0.clone(),
                            source: from,
                            other,
                            module: modules.entries[mi].1.id.clone(),
                        };
                        proof {
                            assert(dep.deep_view()[i as int].0 == dep@[i as int].0@);
                            lemma_link_sources_stops(start, mi as int, k as int + 1, n as int);
                        }
                        return Err(err);
                    },
                    None => {},
                }
            },
        }
        k += 1;
    }
    Ok(())
}

/// Once linking a module has failed, its further sources change nothing.
pub proof fn lemma_link_sources_stops(table: Seq<(Seq<char>, ModuleView)>, mi: int, n: int, m: int)
    requires
        0 <= mi < table.len(),
        0 <= n <= m <= table[mi].1.re_export_all_sources.len(),
        link_sources(table, mi, n).error is Some,
    ensures
        link_sources(table, mi, m) == link_sources(table, mi, n),
    decreases m - n,
{
    if n < m {
        lemma_link_sources_stops(table, mi, n, m - 1);
    }
}

/// Once linking has failed, further modules change nothing.
pub proof fn lemma_link_modules_stops(
    table: Seq<(Seq<char>, ModuleView)>,
    ids: Seq<Seq<char>>,
    n: int,
    m: int,
)
    requires
        0 <= n <= m <= ids.len(),
        link_modules(table, ids, n).error is Some,
    ensures
        link_modules(table, ids, m) == link_modules(table, ids, n),
    decreases m - n,
{
    if n < m {
        lemma_link_modules_stops(table, ids, n, m - 1);
    }
}

/// Every module named by `ids` takes over the exports of its `export *`
/// sources, in the order of `ids`. Fails at the first name that a module
/// would export twice.
pub fn link_exports(modules: &mut NameMap<Module>, ids: &Vec<String>) -> (r: Result<(), GraphError>)
    ensures
        ({
            let linked = link_modules(old(modules).deep_view(), ids.deep_view(), ids@.len() as int);
            &&& final(modules).deep_view() == linked.table
            &&& match r {
                Ok(_) => linked.error is None,
                Err(GraphError::DuplicateExport { name, source, other, module }) => linked.error
                    == Some(
                    Duplicate { name: name@, source: source@, other: other@, module: module@ },
                ),
                Err(_) => false,
            }
        }),
{
    let ghost start = modules.deep_view();
    let ghost names = ids.deep_view();
    let mut k: usize = 0;
    while k < ids.len()
        invariant
            k <= ids@.len(),
            names == ids.deep_view(),
            start == old(modules).deep_view(),
            link_modules(start, names, k as int).error is None,
            modules.deep_view() == link_modules(start, names, k as int).table,
        decreases ids@.len() - k,
    {
        assert(names[k as int] == ids@[k as int]@);
        match modules.find(&ids[k]) {
            Some(mi) => {
                assert(modules.deep_view()[mi as int].1 == modules.entries@[mi as int].1.deep_view());
                let ghost table = modules.deep_view();
                match link_exports_of(modules, mi) {
                    Ok(_) => {},
                    Err(e) => {
                        proof {
                            assert(link_modules(start, names, k as int + 1) == link_sources(
                                table,
                                mi as int,
                                table[mi as int].1.re_export_all_sources.len() as int,
                            ));
                            lemma_link_modules_stops(start, names, k as int + 1, ids@.len() as int);
                        }
                        return Err(e);
                    },
                }
            },
            None => {},
        }
        k += 1;
    }
    Ok(())
}

} // verus!
