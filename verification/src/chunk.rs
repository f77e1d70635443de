//! A chunk of the bundle: the modules that go into one file, in the order
//! in which they run.

use vstd::prelude::*;
use vstd::string::*;
use dashmap::DashSet;
use crate::fold::{is_trim_of, stem_of, stem_of_id};
use crate::lcp::{lcp, lcp_of_array, lcp_of_first, lcp_spec};
use crate::text::{replace_all, replaced_from};
use crate::module::Module;
use crate::names::{assoc_index, assoc_keys, NameMap};
use crate::renamer::{assign_all, assign_names, assignment_view, is_unique};
use crate::rewrite::Renamer;
use crate::statement::Statement;
use crate::symbol_box::{Mark, SymbolBox};
use crate::treeshake::{is_stmt, stmt_at};
use crate::types::{NormalizedOutputOptions, OutputChunk};

verus! {

pub struct Chunk {
    /// The file name of the chunk.
    pub id: String,
    /// The ids of the modules of the chunk, in the order in which they run.
    pub order_modules: Vec<String>,
    /// The ids of the entry modules among them.
    pub entries: DashSet<String>,
}

/// The number of characters that are cut from the front of every module id
/// in the comment that names it: those that all ids share with each other
/// and with the working directory, where one is known.
pub open spec fn shared_prefix_len(ids: Seq<Seq<char>>, cwd: Option<Seq<char>>) -> nat {
    let common = lcp_of_first(ids, ids.len() as int);
    match cwd {
        Some(dir) => lcp_spec(dir, common).len(),
        None => common.len(),
    }
}

/// The comment that names a module: a blank and the id without the shared prefix.
pub open spec fn module_comment(id: Seq<char>, cut: nat) -> Seq<char> {
    if cut <= id.len() {
        seq![' '] + id.subrange(cut as int, id.len() as int)
    } else {
        seq![' '] + id
    }
}

impl Chunk {
    pub fn new(order_modules: Vec<String>, entries: DashSet<String>) -> (c: Chunk)
        ensures
            c.id@.len() == 0,
            c.order_modules == order_modules,
            c.entries == entries,
    {
        Chunk { id: String::new(), order_modules, entries }
    }

    /// The record of the chunk before its code is written.
    pub fn get_chunk_info_with_file_names(&self) -> (r: OutputChunk)
        ensures
            r.code@.len() == 0,
            r.file_name@ == self.id@,
    {
        OutputChunk { code: String::new(), file_name: self.id.clone() }
    }

    /// The name of the chunk where it was given none: that of its last module.
    pub fn get_fallback_chunk_name(&self) -> (r: String)
        requires
            self.order_modules@.len() > 0,
        ensures
            r@ == stem_of(self.order_modules@[self.order_modules@.len() - 1]@),
    {
        stem_of_id(&self.order_modules[self.order_modules.len() - 1])
    }

    /// The name of the chunk.
    pub fn get_chunk_name(&self) -> (r: String)
        requires
            self.order_modules@.len() > 0,
        ensures
            r@ == stem_of(self.order_modules@[self.order_modules@.len() - 1]@),
    {
        self.get_fallback_chunk_name()
    }

    /// The file name of the chunk: the pattern for entry chunks with the
    /// name of the chunk in the place of `[name]`.
    pub fn generate_id(&self, options: &NormalizedOutputOptions) -> (r: String)
        requires
            self.order_modules@.len() > 0,
        ensures
            r@ == replaced_from(
                options.entry_file_names@,
                "[name]"@,
                stem_of(self.order_modules@[self.order_modules@.len() - 1]@),
                0,
            ),
    {
        let name = self.get_chunk_name();
        replace_all(options.entry_file_names.as_str(), "[name]", name.as_str())
    }

    /// The comments that name the modules of the chunk, in order.
    pub fn module_comments(&self, cwd: Option<&str>) -> (r: Vec<String>)
        ensures
            r@.len() == self.order_modules@.len(),
            forall|i: int|
                0 <= i < r@.len() ==> (#[trigger] r@[i])@ == module_comment(
                    self.order_modules@[i]@,
                    shared_prefix_len(self.order_modules.deep_view(), cwd.deep_view()),
                ),
    {
        let mut r: Vec<String> = Vec::new();
        if self.order_modules.len() == 0 {
            return r;
        }
        let common = lcp_of_array(&self.order_modules);
        let cut = match cwd {
            Some(dir) => lcp(dir, common.as_str()).unicode_len(),
            None => common.as_str().unicode_len(),
        };
        let mut i: usize = 0;
        while i < self.order_modules.len()
            invariant
                i <= self.order_modules@.len(),
                r@.len() == i,
                cut == shared_prefix_len(self.order_modules.deep_view(), cwd.deep_view()),
                forall|j: int|
                    0 <= j < i ==> (#[trigger] r@[j])@ == module_comment(
                        self.order_modules@[j]@,
                        cut as nat,
                    ),
            decreases self.order_modules@.len() - i,
        {
            proof {
                reveal_strlit(" ");
            }
            let id = self.order_modules[i].as_str();
            let len = id.unicode_len();
            let mut text = String::from_str(" ");
            if cut <= len {
                text.append(id.substring_char(cut, len));
            } else {
                text.append(id);
            }
            assert(text@ =~= module_comment(self.order_modules@[i as int]@, cut as nat));
            r.push(text);
            i += 1;
        }
        r
    }
}

/// The places of the modules that the first `n` ids name and that are
/// entries, or are none, as `entry` asks; in the order of the ids.
pub open spec fn places_of(
    table: Seq<(String, Module)>,
    keys: Seq<(Seq<char>, crate::module::ModuleView)>,
    ids: Seq<Seq<char>>,
    entry: bool,
    n: int,
) -> Seq<int>
    decreases n,
{
    if 0 < n <= ids.len() {
        let before = places_of(table, keys, ids, entry, n - 1);
        match assoc_index(keys, ids[n - 1]) {
            Some(m) => if 0 <= m < table.len() && table[m].1.is_user_defined_entry_point == entry {
                before.push(m)
            } else {
                before
            },
            None => before,
        }
    } else {
        Seq::empty()
    }
}

/// The order in which the modules give their names: the entry modules
/// first, so that they keep their names, then the others; each group in the
/// order in which the modules run.
pub open spec fn naming_order(
    table: Seq<(String, Module)>,
    keys: Seq<(Seq<char>, crate::module::ModuleView)>,
    ids: Seq<Seq<char>>,
) -> Seq<int> {
    places_of(table, keys, ids, true, ids.len() as int) + places_of(
        table,
        keys,
        ids,
        false,
        ids.len() as int,
    )
}

/// The declared names of the first `n` modules of `order`, module by module.
pub open spec fn symbols_of(table: Seq<(String, Module)>, order: Seq<int>, n: int) -> Seq<
    (Seq<char>, Mark),
>
    decreases n,
{
    if 0 < n <= order.len() {
        symbols_of(table, order, n - 1) + (if 0 <= order[n - 1] < table.len() {
            table[order[n - 1]].1.declared_symbols.deep_view()
        } else {
            Seq::empty()
        })
    } else {
        Seq::empty()
    }
}

/// Whether `after` is `before` with every identifier of every statement renamed.
pub open spec fn is_rewritten(
    before: Seq<(String, Module)>,
    after: Seq<(String, Module)>,
    renamer: Renamer,
) -> bool {
    &&& after.len() == before.len()
    &&& forall|m: int|
        0 <= m < before.len() ==> {
            &&& (#[trigger] after[m]).0 == before[m].0
            &&& after[m].1 == (Module { statements: after[m].1.statements, ..before[m].1 })
            &&& after[m].1.statements@.len() == before[m].1.statements@.len()
        }
    &&& forall|r: (int, int)|
        is_stmt(before, r) ==> {
            &&& #[trigger] stmt_at(after, r) == (Statement {
                node: stmt_at(after, r).node,
                ..stmt_at(before, r)
            })
            &&& renamer.renamed_item(stmt_at(after, r).node, stmt_at(before, r).node)
        }
}

/// Rewriting what was rewritten changes nothing: the statements that
/// renaming gave are what renaming gives of them again.
pub proof fn lemma_rewrite_idempotent(
    before: Seq<(String, Module)>,
    after: Seq<(String, Module)>,
    renamer: Renamer,
)
    requires
        is_rewritten(before, after, renamer),
    ensures
        is_rewritten(after, after, renamer),
{
    assert forall|r: (int, int)| is_stmt(after, r) implies {
        &&& #[trigger] stmt_at(after, r) == (Statement {
            node: stmt_at(after, r).node,
            ..stmt_at(after, r)
        })
        &&& renamer.renamed_item(stmt_at(after, r).node, stmt_at(after, r).node)
    } by {
        assert(after[r.0].1.statements@.len() == before[r.0].1.statements@.len());
        assert(is_stmt(before, r));
        renamer.lemma_item_again(stmt_at(after, r).node, stmt_at(before, r).node);
    }
}

proof fn lemma_places_kept(
    before: Seq<(String, Module)>,
    keys: Seq<(Seq<char>, crate::module::ModuleView)>,
    after: Seq<(String, Module)>,
    keys_after: Seq<(Seq<char>, crate::module::ModuleView)>,
    ids: Seq<Seq<char>>,
    entry: bool,
    n: int,
)
    requires
        after.len() == before.len(),
        forall|m: int|
            0 <= m < before.len() ==> (#[trigger] after[m]).1.is_user_defined_entry_point
                == before[m].1.is_user_defined_entry_point,
        assoc_keys(keys_after) == assoc_keys(keys),
    ensures
        places_of(after, keys_after, ids, entry, n) == places_of(before, keys, ids, entry, n),
    decreases n,
{
    if 0 < n <= ids.len() {
        lemma_places_kept(before, keys, after, keys_after, ids, entry, n - 1);
        assert(assoc_index(keys_after, ids[n - 1]) == assoc_index(keys, ids[n - 1]));
    }
}

proof fn lemma_symbols_kept(
    before: Seq<(String, Module)>,
    after: Seq<(String, Module)>,
    order: Seq<int>,
    n: int,
)
    requires
        after.len() == before.len(),
        forall|m: int|
            0 <= m < before.len() ==> (#[trigger] after[m]).1.declared_symbols
                == before[m].1.declared_symbols,
    ensures
        symbols_of(after, order, n) == symbols_of(before, order, n),
    decreases n,
{
    if 0 < n <= order.len() {
        lemma_symbols_kept(before, after, order, n - 1);
    }
}

/// Deconflicting twice changes nothing: the names and the statements that
/// deconflicting gave are what deconflicting those statements gives again.
pub proof fn lemma_deconflict_twice(
    before: Seq<(String, Module)>,
    keys: Seq<(Seq<char>, crate::module::ModuleView)>,
    after: Seq<(String, Module)>,
    keys_after: Seq<(Seq<char>, crate::module::ModuleView)>,
    ids: Seq<Seq<char>>,
    symbol_box: &SymbolBox,
    names: &Vec<(Mark, String)>,
)
    requires
        is_deconflicted(before, keys, after, ids, symbol_box, names),
        assoc_keys(keys_after) == assoc_keys(keys),
    ensures
        is_deconflicted(after, keys_after, after, ids, symbol_box, names),
{
    let renamer = Renamer { mark_to_names: names, symbol_box };
    lemma_rewrite_idempotent(before, after, renamer);
    lemma_places_kept(before, keys, after, keys_after, ids, true, ids.len() as int);
    lemma_places_kept(before, keys, after, keys_after, ids, false, ids.len() as int);
    let order = naming_order(before, keys, ids);
    assert(naming_order(after, keys_after, ids) == order);
    lemma_symbols_kept(before, after, order, order.len() as int);
}

/// The places of the modules that the ids name, entries or others.
fn collect_places(modules: &NameMap<Module>, ids: &Vec<String>, entry: bool) -> (r: Vec<usize>)
    ensures
        Seq::new(r@.len(), |i: int| r@[i] as int) == places_of(
            modules.entries@,
            modules.deep_view(),
            ids.deep_view(),
            entry,
            ids@.len() as int,
        ),
        forall|i: int| 0 <= i < r@.len() ==> #[trigger] r@[i] < modules.entries@.len(),
{
    let ghost names = ids.deep_view();
    let mut r: Vec<usize> = Vec::new();
    let mut k: usize = 0;
    assert(Seq::new(r@.len(), |i: int| r@[i] as int) =~= Seq::<int>::empty());
    while k < ids.len()
        invariant
            k <= ids@.len(),
            names == ids.deep_view(),
            Seq::new(r@.len(), |i: int| r@[i] as int) == places_of(
                modules.entries@,
                modules.deep_view(),
                names,
                entry,
                k as int,
            ),
            forall|i: int| 0 <= i < r@.len() ==> #[trigger] r@[i] < modules.entries@.len(),
        decreases ids@.len() - k,
    {
        assert(names[k as int] == ids@[k as int]@);
        let ghost before = Seq::new(r@.len(), |i: int| r@[i] as int);
        match modules.find(&ids[k]) {
            Some(m) => {
                if modules.entries[m].1.is_user_defined_entry_point == entry {
                    r.push(m);
                    assert(Seq::new(r@.len(), |i: int| r@[i] as int) =~= before.push(m as int));
                }
            },
            None => {},
        }
        k += 1;
    }
    r
}

impl Chunk {
    /// Gives every class of marks that a module of the chunk declares a name
    /// of its own, the entry modules first, and renames every identifier of
    /// every statement by it. Returns the names given.
    pub fn de_conflict(&self, modules: &mut NameMap<Module>, symbol_box: &SymbolBox) -> (names: Vec<
        (Mark, String),
    >)
        requires
            symbol_box.wf(),
        ensures
            is_unique(assignment_view(names@)),
            ({
                let order = naming_order(
                    old(modules).entries@,
                    old(modules).deep_view(),
                    self.order_modules.deep_view(),
                );
                let symbols = symbols_of(old(modules).entries@, order, order.len() as int);
                assignment_view(names@) == assign_all(symbol_box, symbols, symbols.len() as int)
            }),
            is_rewritten(
                old(modules).entries@,
                final(modules).entries@,
                Renamer { mark_to_names: &names, symbol_box },
            ),
    {
        let ghost table0 = modules.entries@;
        let ghost order = naming_order(table0, modules.deep_view(), self.order_modules.deep_view());
        let first = collect_places(modules, &self.order_modules, true);
        let rest = collect_places(modules, &self.order_modules, false);
        let mut symbols: Vec<(String, Mark)> = Vec::new();
        assert(symbols.deep_view() =~= symbols_of(table0, order, 0));
        // The entry modules give their names first, then the others.
        let mut pass: usize = 0;
        while pass < 2
            invariant
                pass <= 2,
                modules.entries@ == table0,
                order == Seq::new(first@.len(), |i: int| first@[i] as int) + Seq::new(
                    rest@.len(),
                    |i: int| rest@[i] as int,
                ),
                forall|i: int| 0 <= i < first@.len() ==> #[trigger] first@[i] < table0.len(),
                forall|i: int| 0 <= i < rest@.len() ==> #[trigger] rest@[i] < table0.len(),
                symbols.deep_view() == symbols_of(
                    table0,
                    order,
                    if pass == 0 {
                        0
                    } else if pass == 1 {
                        first@.len() as int
                    } else {
                        order.len() as int
                    },
                ),
            decreases 2 - pass,
        {
            let list = if pass == 0 {
                &first
            } else {
                &rest
            };
            let ghost base: int = if pass == 0 {
                0
            } else {
                first@.len() as int
            };
            let mut k: usize = 0;
            while k < list.len()
                invariant
                    k <= list@.len(),
                    pass < 2,
                    modules.entries@ == table0,
                    base == (if pass == 0 {
                        0
                    } else {
                        first@.len() as int
                    }),
                    list@ == (if pass == 0 {
                        first@
                    } else {
                        rest@
                    }),
                    order == Seq::new(first@.len(), |i: int| first@[i] as int) + Seq::new(
                        rest@.len(),
                        |i: int| rest@[i] as int,
                    ),
                    forall|i: int| 0 <= i < list@.len() ==> #[trigger] list@[i] < table0.len(),
                    symbols.deep_view() == symbols_of(table0, order, base + k),
                decreases list@.len() - k,
            {
                let m = list[k];
                assert(order[base + k] == m as int);
                let declared = &modules.entries[m].1.declared_symbols;
                let ghost had = symbols.deep_view();
                let mut i: usize = 0;
                while i < declared.entries.len()
                    invariant
                        i <= declared.entries@.len(),
                        symbols.deep_view() == had + declared.deep_view().subrange(0, i as int),
                    decreases declared.entries@.len() - i,
                {
                    let ghost mid = symbols.deep_view();
                    symbols.push((declared.entries[i].0.clone(), declared.entries[i].1));
                    assert(symbols.deep_view() =~= mid.push(declared.deep_view()[i as int]));
                    assert(symbols.deep_view() =~= had + declared.deep_view().subrange(0, i + 1));
                    i += 1;
                }
                assert(declared.deep_view().subrange(0, declared.entries@.len() as int)
                    =~= declared.deep_view());
                k += 1;
            }
            pass += 1;
        }
        let names = assign_names(symbol_box, &symbols);
        let renamer = Renamer { mark_to_names: &names, symbol_box };
        let mut m: usize = 0;
        while m < modules.entries.len()
            invariant
                m <= modules.entries@.len(),
                renamer.wf(),
                renamer == (Renamer { mark_to_names: &names, symbol_box }),
                modules.entries@.len() == table0.len(),
                forall|j: int|
                    0 <= j < table0.len() ==> {
                        &&& (#[trigger] modules.entries@[j]).0 == table0[j].0
                        &&& modules.entries@[j].1 == (Module {
                            statements: modules.entries@[j].1.statements,
                            ..table0[j].1
                        })
                        &&& modules.entries@[j].1.statements@.len() == table0[j].1.statements@.len()
                    },
                forall|r: (int, int)|
                    is_stmt(table0, r) ==> #[trigger] stmt_at(modules.entries@, r) == (if r.0 < m {
                        Statement { node: stmt_at(modules.entries@, r).node, ..stmt_at(table0, r) }
                    } else {
                        stmt_at(table0, r)
                    }) && (r.0 < m ==> renamer.renamed_item(
                        stmt_at(modules.entries@, r).node,
                        stmt_at(table0, r).node,
                    )),
            decreases modules.entries@.len() - m,
        {
            let count = modules.entries[m].1.statements.len();
            let mut i: usize = 0;
            while i < count
                invariant
                    i <= count,
                    m < modules.entries@.len(),
                    renamer.wf(),
                    count == table0[m as int].1.statements@.len(),
                    modules.entries@.len() == table0.len(),
                    forall|j: int|
                        0 <= j < table0.len() ==> {
                            &&& (#[trigger] modules.entries@[j]).0 == table0[j].0
                            &&& modules.entries@[j].1 == (Module {
                                statements: modules.entries@[j].1.statements,
                                ..table0[j].1
                            })
                            &&& modules.entries@[j].1.statements@.len()
                                == table0[j].1.statements@.len()
                        },
                    forall|r: (int, int)|
                        is_stmt(table0, r) ==> #[trigger] stmt_at(modules.entries@, r) == (if r.0
                            < m || (r.0 == m && r.1 < i) {
                            Statement {
                                node: stmt_at(modules.entries@, r).node,
                                ..stmt_at(table0, r)
                            }
                        } else {
                            stmt_at(table0, r)
                        }) && (r.0 < m || (r.0 == m && r.1 < i) ==> renamer.renamed_item(
                            stmt_at(modules.entries@, r).node,
                            stmt_at(table0, r).node,
                        )),
                decreases count - i,
            {
                let ghost mid = modules.entries@;
                assert(stmt_at(mid, (m as int, i as int)) == stmt_at(table0, (m as int, i as int)));
                renamer.rename_item(&mut modules.entries[m].1.statements[i].node);
                proof {
                    let now = modules.entries@;
                    assert forall|r: (int, int)| is_stmt(table0, r) implies #[trigger] stmt_at(
                        now,
                        r,
                    ) == (if r.0 < m || (r.0 == m && r.1 < i + 1) {
                        Statement { node: stmt_at(now, r).node, ..stmt_at(table0, r) }
                    } else {
                        stmt_at(table0, r)
                    }) && (r.0 < m || (r.0 == m && r.1 < i + 1) ==> renamer.renamed_item(
                        stmt_at(now, r).node,
                        stmt_at(table0, r).node,
                    )) by {
                        if r != (m as int, i as int) {
                            assert(stmt_at(now, r) == stmt_at(mid, r));
                        }
                    }
                }
                i += 1;
            }
            m += 1;
        }
        names
    }
}

/// Whether every module of `after` is the module of `before` with its statements folded.
pub open spec fn all_ready(before: Seq<(String, Module)>, after: Seq<(String, Module)>, n: int) -> bool {
    &&& after.len() == before.len()
    &&& forall|m: int|
        0 <= m < before.len() ==> (#[trigger] after[m]).0 == before[m].0 && (if m < n {
            is_trim_of(before[m].1, after[m].1)
        } else {
            after[m].1 == before[m].1
        })
}

/// Whether `names` and `after` are what deconflicting `before` gives.
pub open spec fn is_deconflicted(
    before: Seq<(String, Module)>,
    keys: Seq<(Seq<char>, crate::module::ModuleView)>,
    after: Seq<(String, Module)>,
    ids: Seq<Seq<char>>,
    symbol_box: &SymbolBox,
    names: &Vec<(Mark, String)>,
) -> bool {
    let order = naming_order(before, keys, ids);
    let symbols = symbols_of(before, order, order.len() as int);
    &&& is_unique(assignment_view(names@))
    &&& assignment_view(names@) == assign_all(symbol_box, symbols, symbols.len() as int)
    &&& is_rewritten(before, after, Renamer { mark_to_names: names, symbol_box })
}

impl Chunk {
    /// Folds the statements of every module: no import and no export is left but an
    /// `export *` from a module outside the bundle.
    pub fn trim(&self, modules: &mut NameMap<Module>)
        ensures
            all_ready(
                old(modules).entries@,
                final(modules).entries@,
                old(modules).entries@.len() as int,
            ),
    {
        let mut m: usize = 0;
        while m < modules.entries.len()
            invariant
                m <= modules.entries@.len(),
                all_ready(old(modules).entries@, modules.entries@, m as int),
            decreases modules.entries@.len() - m,
        {
            let ghost before = modules.entries@;
            modules.entries[m].1.trim_exports();
            proof {
                assert forall|k: int| 0 <= k < before.len() implies (
                #[trigger] modules.entries@[k]).0 == old(modules).entries@[k].0 && (if k < m + 1 {
                    is_trim_of(old(modules).entries@[k].1, modules.entries@[k].1)
                } else {
                    modules.entries@[k].1 == old(modules).entries@[k].1
                }) by {
                    if k != m {
                        assert(modules.entries@[k] == before[k]);
                    }
                }
            }
            m += 1;
        }
    }

    /// Makes the chunk ready to be written: the statements of every module
    /// are folded, then the names are deconflicted. Returns the names given.
    pub fn prepare(&self, modules: &mut NameMap<Module>, symbol_box: &SymbolBox) -> (names: Vec<
        (Mark, String),
    >)
        requires
            symbol_box.wf(),
        ensures
            exists|mid: NameMap<Module>|
                #[trigger] all_ready(
                    old(modules).entries@,
                    mid.entries@,
                    old(modules).entries@.len() as int,
                ) && is_deconflicted(
                    mid.entries@,
                    mid.deep_view(),
                    final(modules).entries@,
                    self.order_modules.deep_view(),
                    symbol_box,
                    &names,
                ),
    {
        self.trim(modules);
        let ghost mid = *modules;
        let names = self.de_conflict(modules, symbol_box);
        proof {
            assert(all_ready(old(modules).entries@, mid.entries@, old(modules).entries@.len() as int));
        }
        names
    }
}

} // verus!
