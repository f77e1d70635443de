//! Tree-shaking: which statements go into the bundle. A statement goes in
//! where it has a side effect, where an entry module exports what it
//! defines, and where a statement that goes in reads what it defines.

use vstd::prelude::*;
use crate::module::Module;
use crate::names::NameMap;
use crate::statement::Statement;
use crate::symbol_box::{Mark, SymbolBox};

verus! {

/// Whether `r` is the place of a statement: a module and a statement of it.
pub open spec fn is_stmt(table: Seq<(String, Module)>, r: (int, int)) -> bool {
    0 <= r.0 < table.len() && 0 <= r.1 < table[r.0].1.statements@.len()
}

/// The statement at a place.
pub open spec fn stmt_at(table: Seq<(String, Module)>, r: (int, int)) -> Statement {
    table[r.0].1.statements@[r.1]
}

/// `s` reads a binding that `t` defines.
pub open spec fn feeds(symbol_box: &SymbolBox, s: Statement, t: Statement) -> bool {
    exists|i: int|
        0 <= i < s.reads@.len() && t.defines_root(symbol_box, symbol_box.root(#[trigger] s.reads@[i]))
}

/// An entry module exports a binding that `s` defines.
pub open spec fn is_entry_export(
    table: Seq<(String, Module)>,
    symbol_box: &SymbolBox,
    s: Statement,
) -> bool {
    exists|e: int, i: int|
        {
            &&& 0 <= e < table.len()
            &&& table[e].1.is_user_defined_entry_point
            &&& 0 <= i < table[e].1.exports.entries@.len()
            &&& s.defines_root(
                symbol_box,
                symbol_box.root((#[trigger] table[e].1.exports.entries@[i]).1),
            )
        }
}

/// Whether the statement at `r` goes in for its own sake: it is taken
/// already, nothing is shaken, it has a side effect, or an entry module
/// exports what it defines.
pub open spec fn is_seed(
    table: Seq<(String, Module)>,
    symbol_box: &SymbolBox,
    treeshake: bool,
    r: (int, int),
) -> bool {
    let s = stmt_at(table, r);
    s.included || !treeshake || s.side_effect is Some || is_entry_export(table, symbol_box, s)
}

/// Whether `chain` leads from a seed to its last statement, each statement
/// reading what the next one defines.
pub open spec fn is_chain(
    table: Seq<(String, Module)>,
    symbol_box: &SymbolBox,
    treeshake: bool,
    chain: Seq<(int, int)>,
) -> bool {
    &&& chain.len() > 0
    &&& forall|i: int| 0 <= i < chain.len() ==> is_stmt(table, #[trigger] chain[i])
    &&& is_seed(table, symbol_box, treeshake, chain[0])
    &&& forall|i: int|
        0 <= i < chain.len() - 1 ==> feeds(
            symbol_box,
            stmt_at(table, #[trigger] chain[i]),
            stmt_at(table, chain[i + 1]),
        )
}

/// Whether the statement at `r` goes in: it is a seed, or a statement that
/// goes in reads what it defines.
pub open spec fn in_closure(
    table: Seq<(String, Module)>,
    symbol_box: &SymbolBox,
    treeshake: bool,
    r: (int, int),
) -> bool {
    exists|chain: Seq<(int, int)>|
        #[trigger] is_chain(table, symbol_box, treeshake, chain) && chain.last() == r
}

/// The tables differ in nothing but in which statements are taken, and none was dropped.
pub open spec fn same_but_included(before: Seq<(String, Module)>, after: Seq<(String, Module)>) -> bool {
    &&& after.len() == before.len()
    &&& forall|m: int|
        0 <= m < before.len() ==> {
            &&& (#[trigger] after[m]).0 == before[m].0
            &&& after[m].1 == (Module { statements: after[m].1.statements, ..before[m].1 })
            &&& after[m].1.statements@.len() == before[m].1.statements@.len()
        }
    &&& forall|r: (int, int)|
        is_stmt(before, r) ==> {
            &&& #[trigger] stmt_at(after, r) == (Statement {
                included: stmt_at(after, r).included,
                ..stmt_at(before, r)
            })
            &&& stmt_at(before, r).included ==> stmt_at(after, r).included
        }
}

/// A seed goes in.
pub proof fn lemma_seed_in_closure(
    table: Seq<(String, Module)>,
    symbol_box: &SymbolBox,
    treeshake: bool,
    r: (int, int),
)
    requires
        is_stmt(table, r),
        is_seed(table, symbol_box, treeshake, r),
    ensures
        in_closure(table, symbol_box, treeshake, r),
{
    let chain = seq![r];
    assert(is_chain(table, symbol_box, treeshake, chain));
    assert(chain.last() == r);
}

/// A statement goes in where one that goes in reads what it defines.
pub proof fn lemma_closure_closed(
    table: Seq<(String, Module)>,
    symbol_box: &SymbolBox,
    treeshake: bool,
    q: (int, int),
    r: (int, int),
)
    requires
        in_closure(table, symbol_box, treeshake, q),
        is_stmt(table, r),
        feeds(symbol_box, stmt_at(table, q), stmt_at(table, r)),
    ensures
        in_closure(table, symbol_box, treeshake, r),
{
    let chain = choose|chain: Seq<(int, int)>|
        #[trigger] is_chain(table, symbol_box, treeshake, chain) && chain.last() == q;
    let longer = chain.push(r);
    assert forall|i: int| 0 <= i < longer.len() - 1 implies feeds(
        symbol_box,
        stmt_at(table, #[trigger] longer[i]),
        stmt_at(table, longer[i + 1]),
    ) by {
        if i < chain.len() - 1 {
            assert(longer[i] == chain[i]);
            assert(longer[i + 1] == chain[i + 1]);
        }
    }
    assert(is_chain(table, symbol_box, treeshake, longer));
    assert(longer.last() == r);
}

/// A set of statements that holds the seeds and, with a statement, all that
/// it feeds, holds every statement of a chain.
pub proof fn lemma_chain_taken(
    table: Seq<(String, Module)>,
    symbol_box: &SymbolBox,
    treeshake: bool,
    taken: spec_fn((int, int)) -> bool,
    chain: Seq<(int, int)>,
    i: int,
)
    requires
        forall|s: (int, int)|
            is_stmt(table, s) && is_seed(table, symbol_box, treeshake, s) ==> #[trigger] taken(s),
        forall|q: (int, int), s: (int, int)|
            is_stmt(table, q) && is_stmt(table, s) && #[trigger] taken(q) && feeds(
                symbol_box,
                stmt_at(table, q),
                stmt_at(table, s),
            ) ==> #[trigger] taken(s),
        is_chain(table, symbol_box, treeshake, chain),
        0 <= i < chain.len(),
    ensures
        taken(chain[i]),
    decreases i,
{
    if i > 0 {
        lemma_chain_taken(table, symbol_box, treeshake, taken, chain, i - 1);
        assert(feeds(symbol_box, stmt_at(table, chain[i - 1]), stmt_at(table, chain[i - 1 + 1])));
    }
}

/// Whether the table is shaken: a statement is taken exactly where it goes in by `before`.
pub open spec fn is_shaken(
    before: Seq<(String, Module)>,
    after: Seq<(String, Module)>,
    symbol_box: &SymbolBox,
    treeshake: bool,
) -> bool {
    &&& same_but_included(before, after)
    &&& forall|r: (int, int)|
        is_stmt(before, r) ==> #[trigger] stmt_at(after, r).included == in_closure(
            before,
            symbol_box,
            treeshake,
            r,
        )
}

/// In a shaken table every read of a taken statement is served: each
/// statement that defines what is read is taken too.
pub proof fn lemma_mark_soundness(
    before: Seq<(String, Module)>,
    after: Seq<(String, Module)>,
    symbol_box: &SymbolBox,
    treeshake: bool,
    s: (int, int),
    i: int,
    t: (int, int),
)
    requires
        is_shaken(before, after, symbol_box, treeshake),
        is_stmt(after, s),
        stmt_at(after, s).included,
        0 <= i < stmt_at(after, s).reads@.len(),
        is_stmt(after, t),
        stmt_at(after, t).defines_root(symbol_box, symbol_box.root(stmt_at(after, s).reads@[i])),
    ensures
        stmt_at(after, t).included,
{
    assert(is_stmt(before, s) && is_stmt(before, t));
    let a = stmt_at(before, s);
    let b = stmt_at(before, t);
    assert(stmt_at(after, s) == (Statement { included: stmt_at(after, s).included, ..a }));
    assert(stmt_at(after, t) == (Statement { included: stmt_at(after, t).included, ..b }));
    lemma_defines_root_same(stmt_at(after, t), b, symbol_box, symbol_box.root(a.reads@[i]));
    assert(feeds(symbol_box, a, b));
    lemma_closure_closed(before, symbol_box, treeshake, s, t);
}

/// Whether a statement defines a root does not depend on whether it is taken.
pub proof fn lemma_defines_root_same(a: Statement, b: Statement, symbol_box: &SymbolBox, root: Mark)
    requires
        a == (Statement { included: a.included, ..b }),
    ensures
        a.defines_root(symbol_box, root) == b.defines_root(symbol_box, root),
{
    assert(a.declared == b.declared);
    assert(a.export_mark == b.export_mark);
    assert(a.node == b.node);
    if a.defines_root(symbol_box, root) {
        let m = choose|m: Mark| #[trigger] a.defines_mark(m) && symbol_box.root(m) == root;
        assert(b.defines_mark(m));
    }
    if b.defines_root(symbol_box, root) {
        let m = choose|m: Mark| #[trigger] b.defines_mark(m) && symbol_box.root(m) == root;
        assert(a.defines_mark(m));
    }
}

/// Between tables that differ only in what is taken, one statement feeds another in both or in none.
pub proof fn lemma_feeds_same(
    before: Seq<(String, Module)>,
    after: Seq<(String, Module)>,
    symbol_box: &SymbolBox,
    q: (int, int),
    r: (int, int),
)
    requires
        same_but_included(before, after),
        is_stmt(before, q),
        is_stmt(before, r),
    ensures
        feeds(symbol_box, stmt_at(after, q), stmt_at(after, r)) == feeds(
            symbol_box,
            stmt_at(before, q),
            stmt_at(before, r),
        ),
{
    let a = stmt_at(after, q);
    let b = stmt_at(before, q);
    let c = stmt_at(after, r);
    let d = stmt_at(before, r);
    assert(a == (Statement { included: a.included, ..b }));
    assert(c == (Statement { included: c.included, ..d }));
    assert(a.reads == b.reads);
    assert forall|root: Mark| c.defines_root(symbol_box, root) == d.defines_root(
        symbol_box,
        root,
    ) by {
        lemma_defines_root_same(c, d, symbol_box, root);
    }
    if feeds(symbol_box, a, c) {
        let i = choose|i: int|
            0 <= i < a.reads@.len() && c.defines_root(
                symbol_box,
                symbol_box.root(#[trigger] a.reads@[i]),
            );
        assert(d.defines_root(symbol_box, symbol_box.root(b.reads@[i])));
    }
    if feeds(symbol_box, b, d) {
        let i = choose|i: int|
            0 <= i < b.reads@.len() && d.defines_root(
                symbol_box,
                symbol_box.root(#[trigger] b.reads@[i]),
            );
        assert(c.defines_root(symbol_box, symbol_box.root(a.reads@[i])));
    }
}

/// Shaking a shaken table takes no further statement: what goes in by the
/// shaken table is what is taken in it.
pub proof fn lemma_shake_idempotent(
    before: Seq<(String, Module)>,
    after: Seq<(String, Module)>,
    symbol_box: &SymbolBox,
    treeshake: bool,
    r: (int, int),
)
    requires
        is_shaken(before, after, symbol_box, treeshake),
        is_stmt(after, r),
    ensures
        in_closure(after, symbol_box, treeshake, r) == stmt_at(after, r).included,
{
    if stmt_at(after, r).included {
        lemma_seed_in_closure(after, symbol_box, treeshake, r);
    }
    if in_closure(after, symbol_box, treeshake, r) {
        let chain = choose|chain: Seq<(int, int)>|
            #[trigger] is_chain(after, symbol_box, treeshake, chain) && chain.last() == r;
        lemma_chain_is_taken(before, after, symbol_box, treeshake, chain, chain.len() - 1);
    }
}

proof fn lemma_chain_is_taken(
    before: Seq<(String, Module)>,
    after: Seq<(String, Module)>,
    symbol_box: &SymbolBox,
    treeshake: bool,
    chain: Seq<(int, int)>,
    i: int,
)
    requires
        is_shaken(before, after, symbol_box, treeshake),
        is_chain(after, symbol_box, treeshake, chain),
        0 <= i < chain.len(),
    ensures
        stmt_at(after, chain[i]).included,
    decreases i,
{
    let r = chain[i];
    assert(is_stmt(after, r));
    assert(is_stmt(before, r));
    let s = stmt_at(after, r);
    let s0 = stmt_at(before, r);
    assert(s == (Statement { included: s.included, ..s0 }));
    if i == 0 {
        if !s.included {
            if is_entry_export(after, symbol_box, s) {
                let (e, k) = choose|e: int, k: int|
                    {
                        &&& 0 <= e < after.len()
                        &&& after[e].1.is_user_defined_entry_point
                        &&& 0 <= k < after[e].1.exports.entries@.len()
                        &&& s.defines_root(
                            symbol_box,
                            symbol_box.root((#[trigger] after[e].1.exports.entries@[k]).1),
                        )
                    };
                assert(after[e].1 == (Module { statements: after[e].1.statements, ..before[e].1 }));
                lemma_defines_root_same(
                    s,
                    s0,
                    symbol_box,
                    symbol_box.root(before[e].1.exports.entries@[k].1),
                );
                assert(is_entry_export(before, symbol_box, s0));
            }
            assert(is_seed(before, symbol_box, treeshake, r));
            lemma_seed_in_closure(before, symbol_box, treeshake, r);
        }
    } else {
        let q = chain[i - 1];
        lemma_chain_is_taken(before, after, symbol_box, treeshake, chain, i - 1);
        assert(is_stmt(after, q));
        assert(is_stmt(before, q));
        assert(feeds(symbol_box, stmt_at(after, chain[i - 1]), stmt_at(after, chain[i - 1 + 1])));
        lemma_feeds_same(before, after, symbol_box, q, r);
        assert(in_closure(before, symbol_box, treeshake, q));
        lemma_closure_closed(before, symbol_box, treeshake, q, r);
    }
}

/// The number of statements that are not taken.
pub open spec fn excluded_in(statements: Seq<Statement>) -> nat
    decreases statements.len(),
{
    if statements.len() == 0 {
        0
    } else {
        excluded_in(statements.drop_last()) + (if statements.last().included {
            0nat
        } else {
            1nat
        })
    }
}

/// The number of statements of all modules that are not taken.
pub open spec fn excluded_total(table: Seq<(String, Module)>) -> nat
    decreases table.len(),
{
    if table.len() == 0 {
        0
    } else {
        excluded_total(table.drop_last()) + excluded_in(table.last().1.statements@)
    }
}

/// Taking a statement lowers the count by one where it was not taken.
pub proof fn lemma_excluded_in_update(statements: Seq<Statement>, i: int, s: Statement)
    requires
        0 <= i < statements.len(),
        s.included,
    ensures
        excluded_in(statements.update(i, s)) + (if statements[i].included {
            0nat
        } else {
            1nat
        }) == excluded_in(statements),
    decreases statements.len(),
{
    let updated = statements.update(i, s);
    if i == statements.len() - 1 {
        assert(updated.drop_last() =~= statements.drop_last());
    } else {
        lemma_excluded_in_update(statements.drop_last(), i, s);
        assert(updated.drop_last() =~= statements.drop_last().update(i, s));
    }
}

/// A change to one module changes the count by what it changes in that module.
pub proof fn lemma_excluded_total_update(table: Seq<(String, Module)>, m: int, e: (String, Module))
    requires
        0 <= m < table.len(),
    ensures
        excluded_total(table.update(m, e)) + excluded_in(table[m].1.statements@) == excluded_total(
            table,
        ) + excluded_in(e.1.statements@),
    decreases table.len(),
{
    let updated = table.update(m, e);
    if m == table.len() - 1 {
        assert(updated.drop_last() =~= table.drop_last());
    } else {
        lemma_excluded_total_update(table.drop_last(), m, e);
        assert(updated.drop_last() =~= table.drop_last().update(m, e));
    }
}

/// The place that a work item names.
pub open spec fn place(item: (usize, usize)) -> (int, int) {
    (item.0 as int, item.1 as int)
}

/// Whether the work list holds the place `r`.
pub open spec fn queued(work: Seq<(usize, usize)>, r: (int, int)) -> bool {
    exists|k: int| 0 <= k < work.len() && place(#[trigger] work[k]) == r
}

impl Module {
    /// Takes every statement of the module that defines a binding of the
    /// class of `root` and was not taken, and queues each of them as a
    /// statement of module `mi`.
    pub fn take_root(
        &mut self,
        symbol_box: &SymbolBox,
        root: Mark,
        mi: usize,
        work: &mut Vec<(usize, usize)>,
    )
        requires
            symbol_box.wf(),
        ensures
            *final(self) == (Module { statements: final(self).statements, ..*old(self) }),
            final(self).statements@.len() == old(self).statements@.len(),
            forall|i: int|
                0 <= i < old(self).statements@.len() ==> #[trigger] final(self).statements@[i] == (
                Statement {
                    included: old(self).statements@[i].included || old(self).statements@[i].defines_root(symbol_box, root),
                    ..old(self).statements@[i]
                }),
            excluded_in(final(self).statements@) + final(work)@.len() == excluded_in(
                old(self).statements@,
            ) + old(work)@.len(),
            final(work)@.len() >= old(work)@.len(),
            final(work)@.subrange(0, old(work)@.len() as int) == old(work)@,
            forall|k: int|
                old(work)@.len() <= k < final(work)@.len() ==> {
                    &&& (#[trigger] final(work)@[k]).0 == mi
                    &&& final(work)@[k].1 < old(self).statements@.len()
                    &&& !old(self).statements@[final(work)@[k].1 as int].included
                    &&& final(self).statements@[final(work)@[k].1 as int].included
                },
            forall|i: int|
                0 <= i < old(self).statements@.len() && !old(self).statements@[i].included
                    && final(self).statements@[i].included ==> queued(
                    final(work)@,
                    (mi as int, i),
                ),
    {
        let ghost stmts0 = self.statements@;
        let ghost work0 = work@;
        let mut i: usize = 0;
        while i < self.statements.len()
            invariant
                i <= self.statements@.len(),
                symbol_box.wf(),
                stmts0 == old(self).statements@,
                work0 == old(work)@,
                *self == (Module { statements: self.statements, ..*old(self) }),
                self.statements@.len() == stmts0.len(),
                forall|j: int|
                    0 <= j < i ==> #[trigger] self.statements@[j] == (Statement {
                        included: stmts0[j].included || stmts0[j].defines_root(symbol_box, root),
                        ..stmts0[j]
                    }),
                forall|j: int| i <= j < stmts0.len() ==> self.statements@[j] == stmts0[j],
                excluded_in(self.statements@) + work@.len() == excluded_in(stmts0) + work0.len(),
                work@.len() >= work0.len(),
                work@.subrange(0, work0.len() as int) == work0,
                forall|k: int|
                    work0.len() <= k < work@.len() ==> {
                        &&& (#[trigger] work@[k]).0 == mi
                        &&& work@[k].1 < i
                        &&& !stmts0[work@[k].1 as int].included
                        &&& self.statements@[work@[k].1 as int].included
                    },
                forall|j: int|
                    0 <= j < i && !stmts0[j].included && self.statements@[j].included ==> queued(
                        work@,
                        (mi as int, j),
                    ),
            decreases self.statements@.len() - i,
        {
            let ghost before = self.statements@;
            let ghost queue = work@;
            if !self.statements[i].included && self.statements[i].defines(symbol_box, root) {
                self.statements[i].set_included();
                work.push((mi, i));
                proof {
                    assert(self.statements@ =~= before.update(i as int, self.statements@[i as int]));
                    lemma_excluded_in_update(before, i as int, self.statements@[i as int]);
                    assert(work@.subrange(0, work0.len() as int) =~= queue.subrange(
                        0,
                        work0.len() as int,
                    ));
                    assert(place(work@[queue.len() as int]) == (mi as int, i as int));
                    assert forall|j: int|
                        0 <= j < i + 1 && !stmts0[j].included
                            && self.statements@[j].included implies queued(
                        work@,
                        (mi as int, j),
                    ) by {
                        if j < i {
                            assert(queued(queue, (mi as int, j)));
                            let k = choose|k: int|
                                0 <= k < queue.len() && place(#[trigger] queue[k]) == (mi as int, j);
                            assert(place(work@[k]) == (mi as int, j));
                        }
                    }
                }
            }
            i += 1;
        }
    }
}

/// The statement, taken where it defines a binding of the class of `root`.
pub open spec fn taken_for(s: Statement, symbol_box: &SymbolBox, root: Mark) -> Statement {
    Statement { included: s.included || s.defines_root(symbol_box, root), ..s }
}

/// Whether `after` is `before` with every statement taken that defines a
/// binding of the class of `root`, in the first `upto` modules.
pub open spec fn is_taken_for(
    before: Seq<(String, Module)>,
    after: Seq<(String, Module)>,
    symbol_box: &SymbolBox,
    root: Mark,
    upto: int,
) -> bool {
    &&& after.len() == before.len()
    &&& forall|m: int|
        0 <= m < before.len() ==> {
            &&& (#[trigger] after[m]).0 == before[m].0
            &&& after[m].1 == (Module { statements: after[m].1.statements, ..before[m].1 })
            &&& after[m].1.statements@.len() == before[m].1.statements@.len()
        }
    &&& forall|r: (int, int)|
        is_stmt(before, r) ==> #[trigger] stmt_at(after, r) == (if r.0 < upto {
            taken_for(stmt_at(before, r), symbol_box, root)
        } else {
            stmt_at(before, r)
        })
}

/// Whether `work` is `work0` and behind it places of statements that were
/// not taken in `before` and are taken in `after`, all of those among them.
pub open spec fn is_queue_of_new(
    before: Seq<(String, Module)>,
    after: Seq<(String, Module)>,
    work0: Seq<(usize, usize)>,
    work: Seq<(usize, usize)>,
) -> bool {
    &&& work.len() >= work0.len()
    &&& work.subrange(0, work0.len() as int) == work0
    &&& forall|k: int|
        work0.len() <= k < work.len() ==> {
            &&& is_stmt(before, place(#[trigger] work[k]))
            &&& !stmt_at(before, place(work[k])).included
            &&& stmt_at(after, place(work[k])).included
        }
    &&& forall|r: (int, int)|
        is_stmt(before, r) && !stmt_at(before, r).included && (#[trigger] stmt_at(
            after,
            r,
        )).included ==> queued(work, r)
}

/// Takes every statement of every module that defines a binding of the
/// class of `root` and was not taken, and queues each of them.
pub fn take_root_everywhere(
    modules: &mut NameMap<Module>,
    symbol_box: &SymbolBox,
    root: Mark,
    work: &mut Vec<(usize, usize)>,
)
    requires
        symbol_box.wf(),
    ensures
        is_taken_for(
            old(modules).entries@,
            final(modules).entries@,
            symbol_box,
            root,
            old(modules).entries@.len() as int,
        ),
        is_queue_of_new(old(modules).entries@, final(modules).entries@, old(work)@, final(work)@),
        excluded_total(final(modules).entries@) + final(work)@.len() == excluded_total(
            old(modules).entries@,
        ) + old(work)@.len(),
{
    let ghost table0 = modules.entries@;
    let ghost work0 = work@;
    let mut mi: usize = 0;
    while mi < modules.entries.len()
        invariant
            mi <= modules.entries@.len(),
            symbol_box.wf(),
            table0 == old(modules).entries@,
            work0 == old(work)@,
            is_taken_for(table0, modules.entries@, symbol_box, root, mi as int),
            work@.len() >= work0.len(),
            work@.subrange(0, work0.len() as int) == work0,
            forall|k: int|
                work0.len() <= k < work@.len() ==> {
                    &&& is_stmt(table0, place(#[trigger] work@[k]))
                    &&& place(work@[k]).0 < mi
                    &&& !stmt_at(table0, place(work@[k])).included
                    &&& stmt_at(modules.entries@, place(work@[k])).included
                },
            forall|r: (int, int)|
                is_stmt(table0, r) && !stmt_at(table0, r).included && (#[trigger] stmt_at(
                    modules.entries@,
                    r,
                )).included ==> queued(work@, r),
            excluded_total(modules.entries@) + work@.len() == excluded_total(table0) + work0.len(),
        decreases modules.entries@.len() - mi,
    {
        let ghost table = modules.entries@;
        let ghost queue = work@;
        assert(is_stmt(table0, (mi as int, 0)) ==> stmt_at(table, (mi as int, 0)) == stmt_at(
            table0,
            (mi as int, 0),
        ));
        assert forall|i: int| 0 <= i < table0[mi as int].1.statements@.len() implies table[mi as int].1.statements@[i]
            == table0[mi as int].1.statements@[i] by {
            assert(stmt_at(table, (mi as int, i)) == stmt_at(table0, (mi as int, i)));
        }
        modules.entries[mi].1.take_root(symbol_box, root, mi, work);
        proof {
            let after = modules.entries@;
            assert(after =~= table.update(mi as int, after[mi as int]));
            lemma_excluded_total_update(table, mi as int, after[mi as int]);
            assert(work@.subrange(0, work0.len() as int) =~= queue.subrange(0, work0.len() as int));
            assert forall|r: (int, int)| is_stmt(table0, r) implies #[trigger] stmt_at(after, r) == (
            if r.0 < mi + 1 {
                taken_for(stmt_at(table0, r), symbol_box, root)
            } else {
                stmt_at(table0, r)
            }) by {
                if r.0 == mi {
                    assert(after[mi as int].1.statements@[r.1] == (Statement {
                        included: table[mi as int].1.statements@[r.1].included
                            || table[mi as int].1.statements@[r.1].defines_root(symbol_box, root),
                        ..table[mi as int].1.statements@[r.1]
                    }));
                } else {
                    assert(stmt_at(after, r) == stmt_at(table, r));
                }
            }
            assert forall|k: int| work0.len() <= k < work@.len() implies {
                &&& is_stmt(table0, place(#[trigger] work@[k]))
                &&& place(work@[k]).0 < mi + 1
                &&& !stmt_at(table0, place(work@[k])).included
                &&& stmt_at(after, place(work@[k])).included
            } by {
                if k < queue.len() {
                    assert(work@[k] == work@.subrange(0, queue.len() as int)[k]);
                    assert(work@[k] == queue[k]);
                    assert(stmt_at(after, place(queue[k])) == stmt_at(table, place(queue[k])));
                }
            }
            assert forall|r: (int, int)|
                is_stmt(table0, r) && !stmt_at(table0, r).included && (#[trigger] stmt_at(
                    after,
                    r,
                )).included implies queued(work@, r) by {
                if r.0 == mi {
                    assert(queued(work@, (mi as int, r.1)));
                } else {
                    assert(stmt_at(after, r) == stmt_at(table, r));
                    assert(queued(queue, r));
                    let k = choose|k: int| 0 <= k < queue.len() && place(#[trigger] queue[k]) == r;
                    assert(work@[k] == work@.subrange(0, queue.len() as int)[k]);
                    assert(place(work@[k]) == r);
                }
            }
        }
        mi += 1;
    }
}

/// What holds while the table is shaken: nothing but inclusion has changed,
/// every taken statement goes in, and the work list names statements.
pub open spec fn shaking(
    table0: Seq<(String, Module)>,
    table: Seq<(String, Module)>,
    work: Seq<(usize, usize)>,
    symbol_box: &SymbolBox,
    treeshake: bool,
) -> bool {
    &&& same_but_included(table0, table)
    &&& forall|r: (int, int)|
        is_stmt(table0, r) && (#[trigger] stmt_at(table, r)).included ==> in_closure(
            table0,
            symbol_box,
            treeshake,
            r,
        )
    &&& forall|k: int| 0 <= k < work.len() ==> is_stmt(table0, place(#[trigger] work[k]))
}

/// Every statement that the statement at `q` feeds is taken.
pub open spec fn fed_all(
    table0: Seq<(String, Module)>,
    table: Seq<(String, Module)>,
    symbol_box: &SymbolBox,
    q: (int, int),
) -> bool {
    forall|r: (int, int)|
        is_stmt(table0, r) && feeds(symbol_box, stmt_at(table0, q), #[trigger] stmt_at(table0, r))
            ==> stmt_at(table, r).included
}

/// Every taken statement is queued or has all that it feeds taken, but for the one at `current`.
pub open spec fn settled(
    table0: Seq<(String, Module)>,
    table: Seq<(String, Module)>,
    work: Seq<(usize, usize)>,
    symbol_box: &SymbolBox,
    current: Option<(int, int)>,
) -> bool {
    forall|q: (int, int)|
        is_stmt(table0, q) && (#[trigger] stmt_at(table, q)).included ==> queued(work, q) || fed_all(
            table0,
            table,
            symbol_box,
            q,
        ) || current == Some(q)
}

/// Every statement that defines a binding of the class of `root` is taken.
pub open spec fn root_taken(
    table0: Seq<(String, Module)>,
    table: Seq<(String, Module)>,
    symbol_box: &SymbolBox,
    root: Mark,
) -> bool {
    forall|r: (int, int)|
        is_stmt(table0, r) && (#[trigger] stmt_at(table0, r)).defines_root(symbol_box, root)
            ==> stmt_at(table, r).included
}

/// One more root taken: what held while shaking still holds, and the root is taken.
pub proof fn lemma_take_step(
    table0: Seq<(String, Module)>,
    before: Seq<(String, Module)>,
    after: Seq<(String, Module)>,
    work0: Seq<(usize, usize)>,
    work: Seq<(usize, usize)>,
    symbol_box: &SymbolBox,
    treeshake: bool,
    root: Mark,
    current: Option<(int, int)>,
)
    requires
        shaking(table0, before, work0, symbol_box, treeshake),
        settled(table0, before, work0, symbol_box, current),
        is_taken_for(before, after, symbol_box, root, before.len() as int),
        is_queue_of_new(before, after, work0, work),
        forall|r: (int, int)|
            is_stmt(table0, r) && (#[trigger] stmt_at(table0, r)).defines_root(symbol_box, root)
                ==> in_closure(table0, symbol_box, treeshake, r),
    ensures
        shaking(table0, after, work, symbol_box, treeshake),
        settled(table0, after, work, symbol_box, current),
        root_taken(table0, after, symbol_box, root),
        forall|r: (int, int)|
            is_stmt(table0, r) && (#[trigger] stmt_at(before, r)).included ==> stmt_at(
                after,
                r,
            ).included,
{
    assert forall|r: (int, int)| is_stmt(table0, r) implies {
        &&& #[trigger] stmt_at(after, r) == (Statement {
            included: stmt_at(after, r).included,
            ..stmt_at(table0, r)
        })
        &&& stmt_at(after, r).included == (stmt_at(before, r).included || stmt_at(
            table0,
            r,
        ).defines_root(symbol_box, root))
    } by {
        assert(is_stmt(before, r));
        assert(stmt_at(before, r) == (Statement {
            included: stmt_at(before, r).included,
            ..stmt_at(table0, r)
        }));
        assert(stmt_at(after, r) == taken_for(stmt_at(before, r), symbol_box, root));
        lemma_defines_root_same(stmt_at(before, r), stmt_at(table0, r), symbol_box, root);
    }
    assert(same_but_included(table0, after)) by {
        assert forall|m: int| 0 <= m < table0.len() implies {
            &&& (#[trigger] after[m]).0 == table0[m].0
            &&& after[m].1 == (Module { statements: after[m].1.statements, ..table0[m].1 })
            &&& after[m].1.statements@.len() == table0[m].1.statements@.len()
        } by {
            assert(before[m].0 == table0[m].0);
        }
    }
    assert forall|k: int| 0 <= k < work.len() implies is_stmt(table0, place(#[trigger] work[k])) by {
        if k < work0.len() {
            assert(work[k] == work.subrange(0, work0.len() as int)[k]);
        } else {
            assert(is_stmt(before, place(work[k])));
        }
    }
    assert forall|q: (int, int)|
        is_stmt(table0, q) && (#[trigger] stmt_at(after, q)).included implies queued(work, q) || fed_all(
        table0,
        after,
        symbol_box,
        q,
    ) || current == Some(q) by {
        assert(is_stmt(before, q));
        if stmt_at(before, q).included {
            if queued(work0, q) {
                let k = choose|k: int| 0 <= k < work0.len() && place(#[trigger] work0[k]) == q;
                assert(work[k] == work.subrange(0, work0.len() as int)[k]);
                assert(place(work[k]) == q);
            } else if fed_all(table0, before, symbol_box, q) {
                assert forall|r: (int, int)|
                    is_stmt(table0, r) && feeds(
                        symbol_box,
                        stmt_at(table0, q),
                        #[trigger] stmt_at(table0, r),
                    ) implies stmt_at(after, r).included by {
                    assert(stmt_at(before, r).included);
                }
            }
        }
    }
}

/// The statements that are taken, queued.
pub fn collect_included(modules: &NameMap<Module>) -> (work: Vec<(usize, usize)>)
    ensures
        forall|k: int| 0 <= k < work@.len() ==> is_stmt(modules.entries@, place(#[trigger] work@[k])),
        forall|r: (int, int)|
            is_stmt(modules.entries@, r) && (#[trigger] stmt_at(modules.entries@, r)).included
                ==> queued(work@, r),
{
    let mut work: Vec<(usize, usize)> = Vec::new();
    let mut mi: usize = 0;
    while mi < modules.entries.len()
        invariant
            mi <= modules.entries@.len(),
            forall|k: int|
                0 <= k < work@.len() ==> is_stmt(modules.entries@, place(#[trigger] work@[k])),
            forall|r: (int, int)|
                is_stmt(modules.entries@, r) && r.0 < mi && (#[trigger] stmt_at(
                    modules.entries@,
                    r,
                )).included ==> queued(work@, r),
        decreases modules.entries@.len() - mi,
    {
        let module = &modules.entries[mi].1;
        let mut si: usize = 0;
        while si < module.statements.len()
            invariant
                mi < modules.entries@.len(),
                *module == modules.entries@[mi as int].1,
                si <= module.statements@.len(),
                forall|k: int|
                    0 <= k < work@.len() ==> is_stmt(modules.entries@, place(#[trigger] work@[k])),
                forall|r: (int, int)|
                    is_stmt(modules.entries@, r) && (r.0 < mi || (r.0 == mi && r.1 < si)) && (
                    #[trigger] stmt_at(modules.entries@, r)).included ==> queued(work@, r),
            decreases module.statements@.len() - si,
        {
            let ghost queue = work@;
            if module.statements[si].included {
                work.push((mi, si));
                proof {
                    assert(place(work@[queue.len() as int]) == (mi as int, si as int));
                    assert forall|r: (int, int)|
                        is_stmt(modules.entries@, r) && (r.0 < mi || (r.0 == mi && r.1 < si + 1))
                            && (#[trigger] stmt_at(modules.entries@, r)).included implies queued(
                        work@,
                        r,
                    ) by {
                        if r != (mi as int, si as int) {
                            assert(queued(queue, r));
                            let k = choose|k: int|
                                0 <= k < queue.len() && place(#[trigger] queue[k]) == r;
                            assert(place(work@[k]) == r);
                        }
                    }
                }
            }
            si += 1;
        }
        mi += 1;
    }
    work
}

/// The first pass over every module: every statement is taken where nothing
/// is shaken, else every statement with a side effect.
fn first_pass_everywhere(modules: &mut NameMap<Module>, treeshake: bool)
    ensures
        same_but_included(old(modules).entries@, final(modules).entries@),
        forall|r: (int, int)|
            is_stmt(old(modules).entries@, r) ==> (#[trigger] stmt_at(
                final(modules).entries@,
                r,
            )).included == (stmt_at(old(modules).entries@, r).included || !treeshake || stmt_at(
                old(modules).entries@,
                r,
            ).side_effect is Some),
{
    let ghost table0 = modules.entries@;
    let mut mi: usize = 0;
    while mi < modules.entries.len()
        invariant
            mi <= modules.entries@.len(),
            table0 == old(modules).entries@,
            modules.entries@.len() == table0.len(),
            forall|m: int|
                0 <= m < table0.len() ==> {
                    &&& (#[trigger] modules.entries@[m]).0 == table0[m].0
                    &&& modules.entries@[m].1 == (Module {
                        statements: modules.entries@[m].1.statements,
                        ..table0[m].1
                    })
                    &&& modules.entries@[m].1.statements@.len() == table0[m].1.statements@.len()
                },
            forall|r: (int, int)|
                is_stmt(table0, r) ==> #[trigger] stmt_at(modules.entries@, r) == (if r.0 < mi {
                    crate::module::first_pass(stmt_at(table0, r), treeshake)
                } else {
                    stmt_at(table0, r)
                }),
        decreases modules.entries@.len() - mi,
    {
        let ghost table = modules.entries@;
        assert forall|i: int| 0 <= i < table0[mi as int].1.statements@.len() implies table[mi as int].1.statements@[i]
            == table0[mi as int].1.statements@[i] by {
            assert(stmt_at(table, (mi as int, i)) == stmt_at(table0, (mi as int, i)));
        }
        modules.entries[mi].1.include_statements(treeshake);
        proof {
            let after = modules.entries@;
            assert forall|r: (int, int)| is_stmt(table0, r) implies #[trigger] stmt_at(after, r) == (
            if r.0 < mi + 1 {
                crate::module::first_pass(stmt_at(table0, r), treeshake)
            } else {
                stmt_at(table0, r)
            }) by {
                if r.0 != mi {
                    assert(stmt_at(after, r) == stmt_at(table, r));
                }
            }
        }
        mi += 1;
    }
}

/// Decides which statements go into the bundle: with nothing shaken all of
/// them, else the seeds and whatever a taken statement reads. Nothing else
/// about the modules changes.
pub fn include_reachable(modules: &mut NameMap<Module>, symbol_box: &SymbolBox, treeshake: bool)
    requires
        symbol_box.wf(),
    ensures
        is_shaken(old(modules).entries@, final(modules).entries@, symbol_box, treeshake),
{
    let ghost table0 = modules.entries@;
    first_pass_everywhere(modules, treeshake);
    if !treeshake {
        proof {
            assert forall|r: (int, int)| is_stmt(table0, r) implies #[trigger] stmt_at(
                modules.entries@,
                r,
            ).included == in_closure(table0, symbol_box, treeshake, r) by {
                lemma_seed_in_closure(table0, symbol_box, treeshake, r);
            }
        }
        return ;
    }
    let mut work = collect_included(modules);
    proof {
        assert forall|r: (int, int)|
            is_stmt(table0, r) && (#[trigger] stmt_at(
                modules.entries@,
                r,
            )).included implies in_closure(table0, symbol_box, treeshake, r) by {
            lemma_seed_in_closure(table0, symbol_box, treeshake, r);
        }
        assert(shaking(table0, modules.entries@, work@, symbol_box, treeshake));
        assert(settled(table0, modules.entries@, work@, symbol_box, None));
    }
    // Second pass: what the entry modules export.
    let n = modules.entries.len();
    let mut e: usize = 0;
    while e < n
        invariant
            e <= n,
            n == table0.len(),
            treeshake,
            symbol_box.wf(),
            shaking(table0, modules.entries@, work@, symbol_box, treeshake),
            settled(table0, modules.entries@, work@, symbol_box, None),
            forall|r: (int, int)|
                is_stmt(table0, r) && (stmt_at(table0, r).included || (#[trigger] stmt_at(
                    table0,
                    r,
                )).side_effect is Some) ==> stmt_at(modules.entries@, r).included,
            forall|m: int, i: int|
                0 <= m < e && table0[m].1.is_user_defined_entry_point && 0 <= i
                    < table0[m].1.exports.entries@.len() ==> root_taken(
                    table0,
                    modules.entries@,
                    symbol_box,
                    symbol_box.root((#[trigger] table0[m].1.exports.entries@[i]).1),
                ),
        decreases n - e,
    {
        assert(modules.entries@[e as int].1 == (Module {
            statements: modules.entries@[e as int].1.statements,
            ..table0[e as int].1
        }));
        if modules.entries[e].1.is_user_defined_entry_point {
            let count = modules.entries[e].1.exports.entries.len();
            let mut i: usize = 0;
            while i < count
                invariant
                    i <= count,
                    e < n,
                    n == table0.len(),
                    treeshake,
                    symbol_box.wf(),
                    table0[e as int].1.is_user_defined_entry_point,
                    count == table0[e as int].1.exports.entries@.len(),
                    shaking(table0, modules.entries@, work@, symbol_box, treeshake),
                    settled(table0, modules.entries@, work@, symbol_box, None),
                    forall|r: (int, int)|
                        is_stmt(table0, r) && (stmt_at(table0, r).included || (#[trigger] stmt_at(
                            table0,
                            r,
                        )).side_effect is Some) ==> stmt_at(modules.entries@, r).included,
                    forall|m: int, j: int|
                        0 <= m < table0.len() && table0[m].1.is_user_defined_entry_point && 0 <= j
                            < table0[m].1.exports.entries@.len() && (m < e || (m == e && j < i))
                            ==> root_taken(
                            table0,
                            modules.entries@,
                            symbol_box,
                            symbol_box.root((#[trigger] table0[m].1.exports.entries@[j]).1),
                        ),
                decreases count - i,
            {
                let ghost before = modules.entries@;
                let ghost queue = work@;
                assert(before[e as int].1 == (Module {
                    statements: before[e as int].1.statements,
                    ..table0[e as int].1
                }));
                let mark = modules.entries[e].1.exports.entries[i].1;
                let root = symbol_box.find_root(mark);
                take_root_everywhere(modules, symbol_box, root, &mut work);
                proof {
                    assert forall|r: (int, int)|
                        is_stmt(table0, r) && (#[trigger] stmt_at(table0, r)).defines_root(
                            symbol_box,
                            root,
                        ) implies in_closure(table0, symbol_box, treeshake, r) by {
                        assert(table0[e as int].1.exports.entries@[i as int].1 == mark);
                        assert(is_entry_export(table0, symbol_box, stmt_at(table0, r)));
                        lemma_seed_in_closure(table0, symbol_box, treeshake, r);
                    }
                    lemma_take_step(
                        table0,
                        before,
                        modules.entries@,
                        queue,
                        work@,
                        symbol_box,
                        treeshake,
                        root,
                        None,
                    );
                }
                i += 1;
            }
        }
        e += 1;
    }
    proof {
        assert forall|r: (int, int)|
            is_stmt(table0, r) && is_seed(table0, symbol_box, treeshake, r) implies (#[trigger] stmt_at(
            modules.entries@,
            r,
        )).included by {
            let s = stmt_at(table0, r);
            if !(s.included || s.side_effect is Some) {
                let (m, i) = choose|m: int, i: int|
                    {
                        &&& 0 <= m < table0.len()
                        &&& table0[m].1.is_user_defined_entry_point
                        &&& 0 <= i < table0[m].1.exports.entries@.len()
                        &&& s.defines_root(
                            symbol_box,
                            symbol_box.root((#[trigger] table0[m].1.exports.entries@[i]).1),
                        )
                    };
                assert(root_taken(
                    table0,
                    modules.entries@,
                    symbol_box,
                    symbol_box.root(table0[m].1.exports.entries@[i].1),
                ));
            }
        }
    }
    // Third pass: what the taken statements read.
    while work.len() > 0
        invariant
            treeshake,
            symbol_box.wf(),
            shaking(table0, modules.entries@, work@, symbol_box, treeshake),
            settled(table0, modules.entries@, work@, symbol_box, None),
            forall|r: (int, int)|
                is_stmt(table0, r) && is_seed(table0, symbol_box, treeshake, r) ==> (
                #[trigger] stmt_at(modules.entries@, r)).included,
        decreases excluded_total(modules.entries@) + work@.len(),
    {
        let ghost full = work@;
        let item = work.pop().unwrap();
        let ghost q = place(item);
        let mi = item.0;
        let si = item.1;
        proof {
            assert(is_stmt(table0, place(full[full.len() - 1])));
            assert forall|k: int| 0 <= k < work@.len() implies is_stmt(
                table0,
                place(#[trigger] work@[k]),
            ) by {
                assert(work@[k] == full[k]);
            }
            assert forall|p: (int, int)|
                is_stmt(table0, p) && (#[trigger] stmt_at(
                    modules.entries@,
                    p,
                )).included implies queued(work@, p) || fed_all(
                table0,
                modules.entries@,
                symbol_box,
                p,
            ) || Some(q) == Some(p) by {
                if queued(full, p) {
                    let k = choose|k: int| 0 <= k < full.len() && place(#[trigger] full[k]) == p;
                    if k < work@.len() {
                        assert(place(work@[k]) == p);
                    }
                }
            }
            assert(stmt_at(modules.entries@, q) == (Statement {
                included: stmt_at(modules.entries@, q).included,
                ..stmt_at(table0, q)
            }));
        }
        let ghost measure = excluded_total(modules.entries@) + work@.len();
        let ghost reads = stmt_at(table0, q).reads@;
        let count = modules.entries[mi].1.statements[si].reads.len();
        let taken = modules.entries[mi].1.statements[si].included;
        let mut ri: usize = 0;
        while ri < count
            invariant
                ri <= count,
                treeshake,
                symbol_box.wf(),
                q == (mi as int, si as int),
                is_stmt(table0, q),
                reads == stmt_at(table0, q).reads@,
                count == reads.len(),
                taken == stmt_at(modules.entries@, q).included,
                shaking(table0, modules.entries@, work@, symbol_box, treeshake),
                settled(table0, modules.entries@, work@, symbol_box, Some(q)),
                forall|r: (int, int)|
                    is_stmt(table0, r) && is_seed(table0, symbol_box, treeshake, r) ==> (
                    #[trigger] stmt_at(modules.entries@, r)).included,
                excluded_total(modules.entries@) + work@.len() == measure,
                taken ==> forall|i: int|
                    0 <= i < ri ==> root_taken(
                        table0,
                        modules.entries@,
                        symbol_box,
                        symbol_box.root(#[trigger] reads[i]),
                    ),
            decreases count - ri,
        {
            let ghost before = modules.entries@;
            let ghost queue = work@;
            proof {
                assert(stmt_at(before, q) == (Statement {
                    included: stmt_at(before, q).included,
                    ..stmt_at(table0, q)
                }));
            }
            if taken {
                let mark = modules.entries[mi].1.statements[si].reads[ri];
                let root = symbol_box.find_root(mark);
                take_root_everywhere(modules, symbol_box, root, &mut work);
                proof {
                    assert(mark == reads[ri as int]);
                    assert forall|r: (int, int)|
                        is_stmt(table0, r) && (#[trigger] stmt_at(table0, r)).defines_root(
                            symbol_box,
                            root,
                        ) implies in_closure(table0, symbol_box, treeshake, r) by {
                        assert(feeds(symbol_box, stmt_at(table0, q), stmt_at(table0, r)));
                        lemma_closure_closed(table0, symbol_box, treeshake, q, r);
                    }
                    lemma_take_step(
                        table0,
                        before,
                        modules.entries@,
                        queue,
                        work@,
                        symbol_box,
                        treeshake,
                        root,
                        Some(q),
                    );
                    assert forall|i: int| 0 <= i < ri + 1 implies root_taken(
                        table0,
                        modules.entries@,
                        symbol_box,
                        symbol_box.root(#[trigger] reads[i]),
                    ) by {
                        if i < ri {
                            assert(root_taken(table0, before, symbol_box, symbol_box.root(reads[i])));
                        }
                    }
                }
            }
            ri += 1;
        }
        proof {
            if taken {
                assert(fed_all(table0, modules.entries@, symbol_box, q)) by {
                    assert forall|r: (int, int)|
                        is_stmt(table0, r) && feeds(
                            symbol_box,
                            stmt_at(table0, q),
                            #[trigger] stmt_at(table0, r),
                        ) implies stmt_at(modules.entries@, r).included by {
                        let i = choose|i: int|
                            0 <= i < reads.len() && stmt_at(table0, r).defines_root(
                                symbol_box,
                                symbol_box.root(#[trigger] reads[i]),
                            );
                        assert(root_taken(
                            table0,
                            modules.entries@,
                            symbol_box,
                            symbol_box.root(reads[i]),
                        ));
                    }
                }
            }
        }
    }
    proof {
        let table = modules.entries@;
        let taken = |r: (int, int)| is_stmt(table0, r) && stmt_at(table, r).included;
        assert forall|r: (int, int)| is_stmt(table0, r) implies #[trigger] stmt_at(
            table,
            r,
        ).included == in_closure(table0, symbol_box, treeshake, r) by {
            if in_closure(table0, symbol_box, treeshake, r) {
                let chain = choose|chain: Seq<(int, int)>|
                    #[trigger] is_chain(table0, symbol_box, treeshake, chain) && chain.last() == r;
                assert forall|p: (int, int), s: (int, int)|
                    is_stmt(table0, p) && is_stmt(table0, s) && #[trigger] taken(p) && feeds(
                        symbol_box,
                        stmt_at(table0, p),
                        stmt_at(table0, s),
                    ) implies #[trigger] taken(s) by {
                    assert(stmt_at(table, p).included);
                    assert(!queued(work@, p));
                    assert(fed_all(table0, table, symbol_box, p));
                }
                lemma_chain_taken(
                    table0,
                    symbol_box,
                    treeshake,
                    taken,
                    chain,
                    chain.len() - 1,
                );
            }
        }
    }
}

} // verus!
