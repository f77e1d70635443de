//! The order in which the modules of a bundle run: a depth-first walk from
//! the entries in which a module comes after the modules it depends on, and
//! which records every path that leads back into itself.

use vstd::prelude::*;

verus! {

/// The module was not reached yet.
pub const UNSEEN: u8 = 0;

/// The module was reached and the walk is among its dependencies.
pub const ENTERED: u8 = 1;

/// The module and all that it depends on have their place in the order.
pub const DONE: u8 = 2;

/// What a walk has found so far.
pub ghost struct Walk {
    /// For each module how far the walk is with it.
    pub status: Seq<u8>,
    /// The modules that are done, in the order in which they were.
    pub order: Seq<usize>,
    /// The cycles met, each as the path from a module back to itself.
    pub cycles: Seq<Seq<usize>>,
}

/// The number of modules that the walk has not reached.
pub open spec fn count_unseen(status: Seq<u8>) -> nat
    decreases status.len(),
{
    if status.len() == 0 {
        0
    } else {
        count_unseen(status.drop_last()) + (if status.last() == UNSEEN {
            1nat
        } else {
            0nat
        })
    }
}

/// The first place of `node` in `path` from `from` on; the end where it has none.
pub open spec fn place_in_path(path: Seq<usize>, node: usize, from: int) -> int
    decreases path.len() - from,
{
    if from < 0 || from >= path.len() {
        path.len() as int
    } else if path[from] == node {
        from
    } else {
        place_in_path(path, node, from + 1)
    }
}

/// The cycle that an edge from the end of `path` back to `node` closes:
/// from `node` along the path and back to `node`.
pub open spec fn cycle_path(path: Seq<usize>, node: usize) -> Seq<usize> {
    path.subrange(place_in_path(path, node, 0), path.len() as int).push(node)
}

/// The walk after `node` was visited along `path`. With at least as much
/// fuel as there are unseen modules the fuel never runs out.
pub open spec fn visit_spec(
    adj: Seq<Seq<usize>>,
    node: usize,
    path: Seq<usize>,
    w: Walk,
    fuel: nat,
) -> Walk
    decreases fuel, 0nat, 0nat,
{
    if fuel == 0 || node >= adj.len() || node >= w.status.len() || w.status[node as int]
        != UNSEEN {
        w
    } else {
        let entered = Walk { status: w.status.update(node as int, ENTERED), ..w };
        let walked = visit_children_spec(
            adj,
            adj[node as int],
            0,
            path.push(node),
            entered,
            (fuel - 1) as nat,
        );
        Walk {
            status: walked.status.update(node as int, DONE),
            order: walked.order.push(node),
            cycles: walked.cycles,
        }
    }
}

/// The walk after the children from place `k` on were visited, in order.
/// A child that the walk is inside of closes a cycle.
pub open spec fn visit_children_spec(
    adj: Seq<Seq<usize>>,
    children: Seq<usize>,
    k: int,
    path: Seq<usize>,
    w: Walk,
    fuel: nat,
) -> Walk
    decreases fuel, 1nat, children.len() - k,
{
    if k < 0 || k >= children.len() {
        w
    } else {
        let c = children[k];
        let next = if c < w.status.len() && w.status[c as int] == ENTERED {
            Walk { cycles: w.cycles.push(cycle_path(path, c)), ..w }
        } else {
            visit_spec(adj, c, path, w, fuel)
        };
        visit_children_spec(adj, children, k + 1, path, next, fuel)
    }
}

/// The walk after the entries from place `k` on were visited, in order.
pub open spec fn visit_entries_spec(
    adj: Seq<Seq<usize>>,
    entries: Seq<usize>,
    k: int,
    w: Walk,
    fuel: nat,
) -> Walk
    decreases entries.len() - k,
{
    if k < 0 || k >= entries.len() {
        w
    } else {
        visit_entries_spec(
            adj,
            entries,
            k + 1,
            visit_spec(adj, entries[k], Seq::empty(), w, fuel),
            fuel,
        )
    }
}

/// The walk that has reached nothing.
pub open spec fn initial_walk(n: nat) -> Walk {
    Walk { status: Seq::new(n, |i: int| UNSEEN), order: Seq::empty(), cycles: Seq::empty() }
}

/// The order of execution and the cycles of a graph, walked from the entries.
pub open spec fn execution_walk(adj: Seq<Seq<usize>>, entries: Seq<usize>) -> Walk {
    visit_entries_spec(adj, entries, 0, initial_walk(adj.len()), adj.len())
}

/// Marking a module as reached takes it out of the count, once.
pub proof fn lemma_count_update(status: Seq<u8>, i: int, v: u8)
    requires
        0 <= i < status.len(),
        v != UNSEEN,
    ensures
        count_unseen(status.update(i, v)) + (if status[i] == UNSEEN {
            1nat
        } else {
            0nat
        }) == count_unseen(status),
    decreases status.len(),
{
    let updated = status.update(i, v);
    if i == status.len() - 1 {
        assert(updated.drop_last() =~= status.drop_last());
    } else {
        lemma_count_update(status.drop_last(), i, v);
        assert(updated.drop_last() =~= status.drop_last().update(i, v));
    }
}

/// At the start every module is unseen.
pub proof fn lemma_count_initial(n: nat)
    ensures
        count_unseen(Seq::new(n, |i: int| UNSEEN)) == n,
    decreases n,
{
    if n > 0 {
        lemma_count_initial((n - 1) as nat);
        assert(Seq::new(n, |i: int| UNSEEN).drop_last() =~= Seq::new(
            (n - 1) as nat,
            |i: int| UNSEEN,
        ));
    }
}

/// The modules that are done are the modules in the order, each once.
pub open spec fn is_sound(w: Walk, n: nat) -> bool {
    &&& w.status.len() == n
    &&& forall|i: int|
        0 <= i < w.order.len() ==> (#[trigger] w.order[i]) < n && w.status[w.order[i] as int] == DONE
    &&& forall|i: int, j: int| 0 <= i < j < w.order.len() ==> w.order[i] != w.order[j]
}

/// A later walk leaves alone what an earlier one has reached and put in order.
pub open spec fn extends(before: Walk, after: Walk) -> bool {
    &&& after.status.len() == before.status.len()
    &&& forall|x: int|
        0 <= x < before.status.len() && before.status[x] != UNSEEN ==> #[trigger] after.status[x]
            == before.status[x]
    &&& before.order.len() <= after.order.len()
    &&& after.order.subrange(0, before.order.len() as int) == before.order
}

/// A visit keeps the walk sound: no module comes into the order twice.
pub proof fn lemma_visit_sound(
    adj: Seq<Seq<usize>>,
    node: usize,
    path: Seq<usize>,
    w: Walk,
    fuel: nat,
)
    requires
        is_sound(w, adj.len()),
    ensures
        is_sound(visit_spec(adj, node, path, w, fuel), adj.len()),
        extends(w, visit_spec(adj, node, path, w, fuel)),
    decreases fuel, 0nat, 0nat,
{
    let r = visit_spec(adj, node, path, w, fuel);
    if fuel == 0 || node >= adj.len() || node >= w.status.len() || w.status[node as int]
        != UNSEEN {
        assert(r.order.subrange(0, w.order.len() as int) =~= w.order);
    } else {
        let entered = Walk { status: w.status.update(node as int, ENTERED), ..w };
        assert(is_sound(entered, adj.len()));
        lemma_children_sound(
            adj,
            adj[node as int],
            0,
            path.push(node),
            entered,
            (fuel - 1) as nat,
        );
        let walked = visit_children_spec(
            adj,
            adj[node as int],
            0,
            path.push(node),
            entered,
            (fuel - 1) as nat,
        );
        assert(walked.status[node as int] == ENTERED);
        assert forall|i: int| 0 <= i < walked.order.len() implies walked.order[i] != node by {
            assert(walked.status[walked.order[i] as int] == DONE);
        }
        assert(r.order.subrange(0, w.order.len() as int) =~= w.order) by {
            assert(walked.order.subrange(0, w.order.len() as int) == w.order);
            assert forall|i: int| 0 <= i < w.order.len() implies r.order[i] == w.order[i] by {
                assert(walked.order.subrange(0, w.order.len() as int)[i] == walked.order[i]);
            }
        }
    }
}

/// The visits of the children keep the walk sound.
pub proof fn lemma_children_sound(
    adj: Seq<Seq<usize>>,
    children: Seq<usize>,
    k: int,
    path: Seq<usize>,
    w: Walk,
    fuel: nat,
)
    requires
        is_sound(w, adj.len()),
    ensures
        is_sound(visit_children_spec(adj, children, k, path, w, fuel), adj.len()),
        extends(w, visit_children_spec(adj, children, k, path, w, fuel)),
    decreases fuel, 1nat, children.len() - k,
{
    if k < 0 || k >= children.len() {
        assert(w.order.subrange(0, w.order.len() as int) =~= w.order);
    } else {
        let c = children[k];
        let next = if c < w.status.len() && w.status[c as int] == ENTERED {
            Walk { cycles: w.cycles.push(cycle_path(path, c)), ..w }
        } else {
            visit_spec(adj, c, path, w, fuel)
        };
        if c < w.status.len() && w.status[c as int] == ENTERED {
            assert(next.order.subrange(0, w.order.len() as int) =~= w.order);
        } else {
            lemma_visit_sound(adj, c, path, w, fuel);
        }
        lemma_children_sound(adj, children, k + 1, path, next, fuel);
        let r = visit_children_spec(adj, children, k + 1, path, next, fuel);
        assert(r.order.subrange(0, w.order.len() as int) =~= w.order) by {
            assert forall|i: int| 0 <= i < w.order.len() implies r.order[i] == w.order[i] by {
                assert(r.order.subrange(0, next.order.len() as int)[i] == r.order[i]);
                assert(next.order.subrange(0, w.order.len() as int)[i] == next.order[i]);
            }
        }
    }
}

/// The visits of the entries keep the walk sound.
pub proof fn lemma_entries_sound(
    adj: Seq<Seq<usize>>,
    entries: Seq<usize>,
    k: int,
    w: Walk,
    fuel: nat,
)
    requires
        is_sound(w, adj.len()),
    ensures
        is_sound(visit_entries_spec(adj, entries, k, w, fuel), adj.len()),
    decreases entries.len() - k,
{
    if !(k < 0 || k >= entries.len()) {
        lemma_visit_sound(adj, entries[k], Seq::empty(), w, fuel);
        lemma_entries_sound(
            adj,
            entries,
            k + 1,
            visit_spec(adj, entries[k], Seq::empty(), w, fuel),
            fuel,
        );
    }
}

/// In the order of execution no module comes twice, and every module of it
/// is a module of the graph.
pub proof fn lemma_order_distinct(adj: Seq<Seq<usize>>, entries: Seq<usize>)
    ensures
        is_sound(execution_walk(adj, entries), adj.len()),
{
    lemma_entries_sound(adj, entries, 0, initial_walk(adj.len()), adj.len());
}

/// What holds of a walk that is inside the modules of `path`: those are
/// the modules entered, every module that is done is in the order, and
/// whatever a done module depends on was reached.
pub open spec fn is_complete(w: Walk, adj: Seq<Seq<usize>>, path: Seq<usize>) -> bool {
    &&& is_sound(w, adj.len())
    &&& forall|x: usize|
        x < adj.len() ==> ((#[trigger] w.status[x as int]) == ENTERED <==> path.contains(x))
    &&& forall|x: usize|
        x < adj.len() && (#[trigger] w.status[x as int]) == DONE ==> w.order.contains(x)
    &&& forall|x: usize, k: int|
        x < adj.len() && w.status[x as int] == DONE && 0 <= k < adj[x as int].len() ==> w.status[(
        #[trigger] adj[x as int][k]) as int] != UNSEEN
}

/// What a walk has reached stays reached, so the count of unseen modules does not grow.
pub proof fn lemma_count_extends(before: Seq<u8>, after: Seq<u8>)
    requires
        after.len() == before.len(),
        forall|x: int|
            0 <= x < before.len() && before[x] != UNSEEN ==> #[trigger] after[x] != UNSEEN,
    ensures
        count_unseen(after) <= count_unseen(before),
    decreases before.len(),
{
    if before.len() > 0 {
        assert(after.last() == after[after.len() - 1]);
        assert(before.last() == before[before.len() - 1]);
        assert forall|x: int|
            0 <= x < before.drop_last().len() && before.drop_last()[x]
                != UNSEEN implies #[trigger] after.drop_last()[x] != UNSEEN by {
            assert(after[x] != UNSEEN);
        }
        lemma_count_extends(before.drop_last(), after.drop_last());
    }
}

/// Where a module is unseen, the count of unseen modules is not zero.
pub proof fn lemma_count_positive(status: Seq<u8>, x: int)
    requires
        0 <= x < status.len(),
        status[x] == UNSEEN,
    ensures
        count_unseen(status) > 0,
    decreases status.len(),
{
    if x < status.len() - 1 {
        lemma_count_positive(status.drop_last(), x);
    }
}

/// A visit with fuel enough keeps the walk complete, and reaches the module.
pub proof fn lemma_visit_complete(
    adj: Seq<Seq<usize>>,
    node: usize,
    path: Seq<usize>,
    w: Walk,
    fuel: nat,
)
    requires
        adj_in_range(adj),
        node < adj.len(),
        is_complete(w, adj, path),
        fuel >= count_unseen(w.status),
    ensures
        is_complete(visit_spec(adj, node, path, w, fuel), adj, path),
        visit_spec(adj, node, path, w, fuel).status[node as int] != UNSEEN,
    decreases fuel, 0nat, 0nat,
{
    lemma_visit_sound(adj, node, path, w, fuel);
    let r = visit_spec(adj, node, path, w, fuel);
    if w.status[node as int] == UNSEEN {
        lemma_count_positive(w.status, node as int);
        let entered = Walk { status: w.status.update(node as int, ENTERED), ..w };
        let inner = path.push(node);
        lemma_count_update(w.status, node as int, ENTERED);
        lemma_entered_complete(adj, node, path, w);
        let f = (fuel - 1) as nat;
        lemma_children_complete(adj, node, adj[node as int], 0, inner, entered, f);
        lemma_children_sound(adj, adj[node as int], 0, inner, entered, f);
        let walked = visit_children_spec(adj, adj[node as int], 0, inner, entered, f);
        assert(walked.status[node as int] == ENTERED);
        assert(is_complete(r, adj, path)) by {
            assert forall|x: usize| x < adj.len() implies ((#[trigger] r.status[x as int])
                == ENTERED <==> path.contains(x)) by {
                if x == node {
                    if path.contains(node) {
                        assert(w.status[node as int] == ENTERED);
                    }
                } else {
                    assert(r.status[x as int] == walked.status[x as int]);
                    if path.contains(x) {
                        let i = choose|i: int| 0 <= i < path.len() && path[i] == x;
                        assert(inner[i] == x);
                        assert(inner.contains(x));
                    }
                    if inner.contains(x) {
                        let i = choose|i: int| 0 <= i < inner.len() && inner[i] == x;
                        assert(path[i] == x);
                        assert(path.contains(x));
                    }
                }
            }
            assert forall|x: usize|
                x < adj.len() && (#[trigger] r.status[x as int]) == DONE implies r.order.contains(
                x,
            ) by {
                if x == node {
                    assert(r.order[walked.order.len() as int] == node);
                } else {
                    assert(walked.order.contains(x));
                    let i = choose|i: int| 0 <= i < walked.order.len() && walked.order[i] == x;
                    assert(r.order[i] == x);
                }
            }
            assert forall|x: usize, k: int|
                x < adj.len() && r.status[x as int] == DONE && 0 <= k
                    < adj[x as int].len() implies r.status[(#[trigger] adj[x as int][k]) as int]
                != UNSEEN by {
                let c = adj[x as int][k];
                if x == node {
                    assert(walked.status[c as int] != UNSEEN);
                } else {
                    assert(walked.status[x as int] == DONE);
                    assert(walked.status[c as int] != UNSEEN);
                }
            }
        }
    }
}

/// The visits of the children from place `k` on, with fuel enough, keep the
/// walk complete and reach every one of them.
pub proof fn lemma_children_complete(
    adj: Seq<Seq<usize>>,
    node: usize,
    children: Seq<usize>,
    k: int,
    path: Seq<usize>,
    w: Walk,
    fuel: nat,
)
    requires
        adj_in_range(adj),
        node < adj.len(),
        children == adj[node as int],
        0 <= k <= children.len(),
        is_complete(w, adj, path),
        fuel >= count_unseen(w.status),
    ensures
        is_complete(visit_children_spec(adj, children, k, path, w, fuel), adj, path),
        forall|j: int|
            k <= j < children.len() ==> visit_children_spec(adj, children, k, path, w, fuel).status[(
            #[trigger] children[j]) as int] != UNSEEN,
    decreases fuel, 1nat, children.len() - k,
{
    if k < children.len() {
        let c = children[k];
        assert(adj[node as int][k] < adj.len());
        let next = if c < w.status.len() && w.status[c as int] == ENTERED {
            Walk { cycles: w.cycles.push(cycle_path(path, c)), ..w }
        } else {
            visit_spec(adj, c, path, w, fuel)
        };
        if c < w.status.len() && w.status[c as int] == ENTERED {
            assert(is_complete(next, adj, path));
        } else {
            lemma_visit_complete(adj, c, path, w, fuel);
            lemma_visit_sound(adj, c, path, w, fuel);
        }
        assert(next.status[c as int] != UNSEEN);
        assert(extends(w, next)) by {
            if c < w.status.len() && w.status[c as int] == ENTERED {
                assert(next.order.subrange(0, w.order.len() as int) =~= w.order);
            }
        }
        lemma_count_extends(w.status, next.status);
        lemma_children_complete(adj, node, children, k + 1, path, next, fuel);
        lemma_children_sound(adj, children, k + 1, path, next, fuel);
        let r = visit_children_spec(adj, children, k + 1, path, next, fuel);
        assert(r.status[c as int] != UNSEEN);
    }
}

/// The visits of the entries, with fuel enough, keep the walk complete.
pub proof fn lemma_entries_complete(
    adj: Seq<Seq<usize>>,
    entries: Seq<usize>,
    k: int,
    w: Walk,
    fuel: nat,
)
    requires
        adj_in_range(adj),
        is_complete(w, adj, Seq::empty()),
        fuel >= count_unseen(w.status),
    ensures
        is_complete(visit_entries_spec(adj, entries, k, w, fuel), adj, Seq::empty()),
    decreases entries.len() - k,
{
    if !(k < 0 || k >= entries.len()) {
        let next = visit_spec(adj, entries[k], Seq::empty(), w, fuel);
        lemma_visit_sound(adj, entries[k], Seq::empty(), w, fuel);
        if entries[k] < adj.len() {
            lemma_visit_complete(adj, entries[k], Seq::empty(), w, fuel);
        }
        lemma_count_extends(w.status, next.status);
        lemma_entries_complete(adj, entries, k + 1, next, fuel);
    }
}

/// Every module is unseen, entered or done.
pub open spec fn is_known(w: Walk) -> bool {
    forall|x: int| 0 <= x < w.status.len() ==> #[trigger] w.status[x] <= DONE
}

/// Whether `c` has a place in the order before place `i`.
pub open spec fn comes_before(order: Seq<usize>, c: usize, i: int) -> bool {
    exists|j: int| 0 <= j < i && #[trigger] order[j] == c
}

/// Unless the walk met a cycle, every module of the order comes after the
/// modules that it depends on.
pub open spec fn is_ordered(w: Walk, adj: Seq<Seq<usize>>) -> bool {
    w.cycles.len() == 0 ==> forall|i: int, k: int|
        0 <= i < w.order.len() && w.order[i] < adj.len() && 0 <= k < adj[w.order[i] as int].len()
            ==> comes_before(w.order, #[trigger] adj[w.order[i] as int][k], i)
}

proof fn lemma_visit_ordered(adj: Seq<Seq<usize>>, node: usize, path: Seq<usize>, w: Walk, fuel: nat)
    requires
        adj_in_range(adj),
        node < adj.len(),
        is_complete(w, adj, path),
        is_known(w),
        is_ordered(w, adj),
        fuel >= count_unseen(w.status),
    ensures
        is_known(visit_spec(adj, node, path, w, fuel)),
        is_ordered(visit_spec(adj, node, path, w, fuel), adj),
        visit_spec(adj, node, path, w, fuel).cycles.len() >= w.cycles.len(),
    decreases fuel, 0nat, 0nat,
{
    let r = visit_spec(adj, node, path, w, fuel);
    if w.status[node as int] == UNSEEN {
        lemma_count_positive(w.status, node as int);
        lemma_count_update(w.status, node as int, ENTERED);
        let entered = Walk { status: w.status.update(node as int, ENTERED), ..w };
        let inner = path.push(node);
        let f = (fuel - 1) as nat;
        lemma_visit_complete(adj, node, path, w, fuel);
        lemma_entered_complete(adj, node, path, w);
        lemma_children_ordered(adj, node, adj[node as int], 0, inner, entered, f);
        lemma_children_sound(adj, adj[node as int], 0, inner, entered, f);
        let walked = visit_children_spec(adj, adj[node as int], 0, inner, entered, f);
        if r.cycles.len() == 0 {
            assert forall|i: int, k: int|
                0 <= i < r.order.len() && r.order[i] < adj.len() && 0 <= k
                    < adj[r.order[i] as int].len() implies comes_before(
                r.order,
                #[trigger] adj[r.order[i] as int][k],
                i,
            ) by {
                let c = adj[r.order[i] as int][k];
                if i < walked.order.len() {
                    assert(r.order[i] == walked.order[i]);
                    assert(comes_before(walked.order, adj[walked.order[i] as int][k], i));
                    let j = choose|j: int| 0 <= j < i && #[trigger] walked.order[j] == c;
                    assert(r.order[j] == c);
                } else {
                    assert(r.order[i] == node);
                    assert(walked.order.contains(adj[node as int][k]));
                    let j = choose|j: int| 0 <= j < walked.order.len() && walked.order[j] == c;
                    assert(r.order[j] == c);
                }
            }
        }
    }
}

/// A module that is entered: the walk stays complete, now inside it too.
proof fn lemma_entered_complete(adj: Seq<Seq<usize>>, node: usize, path: Seq<usize>, w: Walk)
    requires
        adj_in_range(adj),
        node < adj.len(),
        is_complete(w, adj, path),
        w.status[node as int] == UNSEEN,
    ensures
        is_complete(
            Walk { status: w.status.update(node as int, ENTERED), ..w },
            adj,
            path.push(node),
        ),
{
    let entered = Walk { status: w.status.update(node as int, ENTERED), ..w };
    let inner = path.push(node);
    assert forall|x: usize| x < adj.len() implies ((#[trigger] entered.status[x as int]) == ENTERED
        <==> inner.contains(x)) by {
        if x == node {
            assert(inner[path.len() as int] == node);
            assert(inner.contains(node));
        } else {
            if path.contains(x) {
                let i = choose|i: int| 0 <= i < path.len() && path[i] == x;
                assert(inner[i] == x);
                assert(inner.contains(x));
            }
            if inner.contains(x) {
                let i = choose|i: int| 0 <= i < inner.len() && inner[i] == x;
                assert(path[i] == x);
                assert(path.contains(x));
            }
        }
    }
    assert forall|x: usize, k: int|
        x < adj.len() && entered.status[x as int] == DONE && 0 <= k
            < adj[x as int].len() implies entered.status[(#[trigger] adj[x as int][k]) as int]
        != UNSEEN by {
        assert(adj[x as int][k] < adj.len());
        assert(w.status[x as int] == DONE);
        assert(w.status[adj[x as int][k] as int] != UNSEEN);
    }
}

proof fn lemma_children_ordered(
    adj: Seq<Seq<usize>>,
    node: usize,
    children: Seq<usize>,
    k: int,
    path: Seq<usize>,
    w: Walk,
    fuel: nat,
)
    requires
        adj_in_range(adj),
        node < adj.len(),
        children == adj[node as int],
        0 <= k <= children.len(),
        is_complete(w, adj, path),
        is_known(w),
        is_ordered(w, adj),
        fuel >= count_unseen(w.status),
    ensures
        is_known(visit_children_spec(adj, children, k, path, w, fuel)),
        is_ordered(visit_children_spec(adj, children, k, path, w, fuel), adj),
        visit_children_spec(adj, children, k, path, w, fuel).cycles.len() >= w.cycles.len(),
        visit_children_spec(adj, children, k, path, w, fuel).cycles.len() == 0 ==> forall|j: int|
            k <= j < children.len() ==> visit_children_spec(
                adj,
                children,
                k,
                path,
                w,
                fuel,
            ).order.contains(#[trigger] children[j]),
    decreases fuel, 1nat, children.len() - k,
{
    if k < children.len() {
        let c = children[k];
        assert(adj[node as int][k] < adj.len());
        let next = if c < w.status.len() && w.status[c as int] == ENTERED {
            Walk { cycles: w.cycles.push(cycle_path(path, c)), ..w }
        } else {
            visit_spec(adj, c, path, w, fuel)
        };
        if c < w.status.len() && w.status[c as int] == ENTERED {
            assert(is_complete(next, adj, path));
        } else {
            lemma_visit_complete(adj, c, path, w, fuel);
            lemma_visit_sound(adj, c, path, w, fuel);
            lemma_visit_ordered(adj, c, path, w, fuel);
            if w.status[c as int] == UNSEEN {
                lemma_count_positive(w.status, c as int);
            }
            assert(next.status[c as int] == DONE);
            assert(next.order.contains(c));
        }
        assert(extends(w, next)) by {
            if c < w.status.len() && w.status[c as int] == ENTERED {
                assert(next.order.subrange(0, w.order.len() as int) =~= w.order);
            }
        }
        lemma_count_extends(w.status, next.status);
        lemma_children_ordered(adj, node, children, k + 1, path, next, fuel);
        lemma_children_sound(adj, children, k + 1, path, next, fuel);
        let r = visit_children_spec(adj, children, k + 1, path, next, fuel);
        if r.cycles.len() == 0 {
            let at = choose|at: int| 0 <= at < next.order.len() && next.order[at] == c;
            assert(r.order.subrange(0, next.order.len() as int)[at] == c);
            assert(r.order[at] == c);
        }
    }
}

proof fn lemma_entries_ordered(
    adj: Seq<Seq<usize>>,
    entries: Seq<usize>,
    k: int,
    w: Walk,
    fuel: nat,
)
    requires
        adj_in_range(adj),
        is_complete(w, adj, Seq::empty()),
        is_known(w),
        is_ordered(w, adj),
        fuel >= count_unseen(w.status),
    ensures
        is_ordered(visit_entries_spec(adj, entries, k, w, fuel), adj),
    decreases entries.len() - k,
{
    if !(k < 0 || k >= entries.len()) {
        let next = visit_spec(adj, entries[k], Seq::empty(), w, fuel);
        lemma_visit_sound(adj, entries[k], Seq::empty(), w, fuel);
        if entries[k] < adj.len() {
            lemma_visit_complete(adj, entries[k], Seq::empty(), w, fuel);
            lemma_visit_ordered(adj, entries[k], Seq::empty(), w, fuel);
        }
        lemma_count_extends(w.status, next.status);
        lemma_entries_ordered(adj, entries, k + 1, next, fuel);
    }
}

/// Dependencies first: where the walk meets no cycle, every module of the
/// order of execution comes after the modules that it depends on.
pub proof fn lemma_order_dependencies_first(adj: Seq<Seq<usize>>, entries: Seq<usize>)
    requires
        adj_in_range(adj),
    ensures
        is_ordered(execution_walk(adj, entries), adj),
{
    let start = initial_walk(adj.len());
    lemma_count_initial(adj.len());
    assert(is_complete(start, adj, Seq::empty()));
    lemma_entries_ordered(adj, entries, 0, start, adj.len());
}

/// The order of execution holds, with a module, every module that it depends on.
pub proof fn lemma_order_closed(adj: Seq<Seq<usize>>, entries: Seq<usize>)
    requires
        adj_in_range(adj),
    ensures
        forall|i: int, k: int|
            0 <= i < execution_walk(adj, entries).order.len() && 0 <= k
                < adj[execution_walk(adj, entries).order[i] as int].len()
                ==> execution_walk(adj, entries).order.contains(
                #[trigger] adj[execution_walk(adj, entries).order[i] as int][k],
            ),
{
    let start = initial_walk(adj.len());
    lemma_count_initial(adj.len());
    assert(is_complete(start, adj, Seq::empty()));
    lemma_entries_complete(adj, entries, 0, start, adj.len());
    let w = execution_walk(adj, entries);
    assert forall|i: int, k: int|
        0 <= i < w.order.len() && 0 <= k < adj[w.order[i] as int].len() implies w.order.contains(
        #[trigger] adj[w.order[i] as int][k],
    ) by {
        let x = w.order[i];
        let c = adj[x as int][k];
        assert(w.status[x as int] == DONE);
        assert(w.status[c as int] != UNSEEN);
        assert(c < adj.len());
        if w.status[c as int] == ENTERED {
            assert(Seq::<usize>::empty().contains(c));
        }
        assert(w.status[c as int] == DONE) by {
            lemma_status_values(adj, entries);
        }
    }
}

/// The status of a module is one of the three.
pub open spec fn has_status_values(w: Walk) -> bool {
    forall|x: int|
        0 <= x < w.status.len() ==> (#[trigger] w.status[x]) == UNSEEN || w.status[x] == ENTERED
            || w.status[x] == DONE
}

proof fn lemma_visit_values(adj: Seq<Seq<usize>>, node: usize, path: Seq<usize>, w: Walk, fuel: nat)
    requires
        has_status_values(w),
    ensures
        has_status_values(visit_spec(adj, node, path, w, fuel)),
        visit_spec(adj, node, path, w, fuel).status.len() == w.status.len(),
    decreases fuel, 0nat, 0nat,
{
    if !(fuel == 0 || node >= adj.len() || node >= w.status.len() || w.status[node as int]
        != UNSEEN) {
        let entered = Walk { status: w.status.update(node as int, ENTERED), ..w };
        assert(has_status_values(entered));
        lemma_children_values(
            adj,
            adj[node as int],
            0,
            path.push(node),
            entered,
            (fuel - 1) as nat,
        );
        let walked = visit_children_spec(
            adj,
            adj[node as int],
            0,
            path.push(node),
            entered,
            (fuel - 1) as nat,
        );
        let r = visit_spec(adj, node, path, w, fuel);
        assert forall|x: int| 0 <= x < r.status.len() implies (#[trigger] r.status[x]) == UNSEEN
            || r.status[x] == ENTERED || r.status[x] == DONE by {
            if x != node as int {
                assert(r.status[x] == walked.status[x]);
            }
        }
    }
}

proof fn lemma_children_values(
    adj: Seq<Seq<usize>>,
    children: Seq<usize>,
    k: int,
    path: Seq<usize>,
    w: Walk,
    fuel: nat,
)
    requires
        has_status_values(w),
    ensures
        has_status_values(visit_children_spec(adj, children, k, path, w, fuel)),
        visit_children_spec(adj, children, k, path, w, fuel).status.len() == w.status.len(),
    decreases fuel, 1nat, children.len() - k,
{
    if !(k < 0 || k >= children.len()) {
        let c = children[k];
        let next = if c < w.status.len() && w.status[c as int] == ENTERED {
            Walk { cycles: w.cycles.push(cycle_path(path, c)), ..w }
        } else {
            visit_spec(adj, c, path, w, fuel)
        };
        if !(c < w.status.len() && w.status[c as int] == ENTERED) {
            lemma_visit_values(adj, c, path, w, fuel);
        }
        lemma_children_values(adj, children, k + 1, path, next, fuel);
    }
}

proof fn lemma_entries_values(adj: Seq<Seq<usize>>, entries: Seq<usize>, k: int, w: Walk, fuel: nat)
    requires
        has_status_values(w),
    ensures
        has_status_values(visit_entries_spec(adj, entries, k, w, fuel)),
    decreases entries.len() - k,
{
    if !(k < 0 || k >= entries.len()) {
        lemma_visit_values(adj, entries[k], Seq::empty(), w, fuel);
        lemma_entries_values(
            adj,
            entries,
            k + 1,
            visit_spec(adj, entries[k], Seq::empty(), w, fuel),
            fuel,
        );
    }
}

proof fn lemma_status_values(adj: Seq<Seq<usize>>, entries: Seq<usize>)
    ensures
        has_status_values(execution_walk(adj, entries)),
{
    lemma_entries_values(adj, entries, 0, initial_walk(adj.len()), adj.len());
}

/// Every child of every module is a module of the graph.
pub open spec fn adj_in_range(adj: Seq<Seq<usize>>) -> bool {
    forall|a: int, i: int|
        0 <= a < adj.len() && 0 <= i < adj[a].len() ==> #[trigger] adj[a][i] < adj.len()
}

/// The lists of children, as sequences.
pub open spec fn adj_view(adj: &Vec<Vec<usize>>) -> Seq<Seq<usize>> {
    Seq::new(adj@.len(), |a: int| adj@[a]@)
}

/// The state of a walk.
pub struct WalkState {
    pub status: Vec<u8>,
    pub order: Vec<usize>,
    pub cycles: Vec<Vec<usize>>,
    /// The modules that the walk is inside of, outermost first.
    pub path: Vec<usize>,
}

impl WalkState {
    pub open spec fn walk(&self) -> Walk {
        Walk {
            status: self.status@,
            order: self.order@,
            cycles: Seq::new(self.cycles@.len(), |i: int| self.cycles@[i]@),
        }
    }
}

/// The cycle that an edge from the end of `path` back to `node` closes.
pub fn get_cycle_path(path: &Vec<usize>, node: usize) -> (cycle: Vec<usize>)
    ensures
        cycle@ == cycle_path(path@, node),
{
    let mut p: usize = 0;
    while p < path.len() && path[p] != node
        invariant
            p <= path@.len(),
            place_in_path(path@, node, p as int) == place_in_path(path@, node, 0),
        decreases path@.len() - p,
    {
        p += 1;
    }
    let mut cycle: Vec<usize> = Vec::new();
    let mut i: usize = p;
    while i < path.len()
        invariant
            p <= i <= path@.len(),
            cycle@ == path@.subrange(p as int, i as int),
        decreases path@.len() - i,
    {
        cycle.push(path[i]);
        assert(cycle@ =~= path@.subrange(p as int, i + 1));
        i += 1;
    }
    cycle.push(node);
    cycle
}

/// Visits `node`: where the walk has not reached it, its children are
/// visited in order and then the module takes its place in the order.
#[verifier::loop_isolation(false)]
pub fn analyse_module(adj: &Vec<Vec<usize>>, node: usize, st: &mut WalkState)
    requires
        node < adj@.len(),
        old(st).status@.len() == adj@.len(),
        adj_in_range(adj_view(adj)),
    ensures
        final(st).status@.len() == old(st).status@.len(),
        final(st).path@ == old(st).path@,
        count_unseen(final(st).status@) <= count_unseen(old(st).status@),
        forall|fuel: nat|
            fuel >= count_unseen(old(st).status@) ==> final(st).walk() == #[trigger] visit_spec(
                adj_view(adj),
                node,
                old(st).path@,
                old(st).walk(),
                fuel,
            ),
    decreases count_unseen(old(st).status@),
{
    if st.status[node] != UNSEEN {
        return ;
    }
    let ghost graph = adj_view(adj);
    let ghost before = st.walk();
    let ghost path0 = st.path@;
    proof {
        lemma_count_update(st.status@, node as int, ENTERED);
    }
    st.status.set(node, ENTERED);
    st.path.push(node);
    let ghost entered = st.walk();
    let ghost path1 = st.path@;
    let ghost budget = count_unseen(entered.status);
    let children = &adj[node];
    assert(graph[node as int] == children@);
    let mut k: usize = 0;
    while k < children.len()
        invariant
            k <= children@.len(),
            st.status@.len() == adj@.len(),
            st.path@ == path1,
            count_unseen(st.status@) <= budget,
            forall|f: nat|
                f >= budget ==> #[trigger] visit_children_spec(
                    graph,
                    children@,
                    k as int,
                    path1,
                    st.walk(),
                    f,
                ) == visit_children_spec(graph, children@, 0, path1, entered, f),
        decreases children@.len() - k,
    {
        let c = children[k];
        assert(graph[node as int][k as int] < graph.len());
        let ghost cur = st.walk();
        if st.status[c] == ENTERED {
            let cycle = get_cycle_path(&st.path, c);
            st.cycles.push(cycle);
            assert(st.walk().cycles =~= cur.cycles.push(cycle_path(path1, c)));
        } else {
            analyse_module(adj, c, st);
        }
        proof {
            let now = st.walk();
            assert forall|f: nat| f >= budget implies #[trigger] visit_children_spec(
                graph,
                children@,
                k + 1,
                path1,
                now,
                f,
            ) == visit_children_spec(graph, children@, 0, path1, entered, f) by {
                assert(visit_children_spec(graph, children@, k as int, path1, cur, f)
                    == visit_children_spec(graph, children@, 0, path1, entered, f));
                if !(c < cur.status.len() && cur.status[c as int] == ENTERED) {
                    assert(now == visit_spec(graph, c, path1, cur, f));
                }
            }
        }
        k += 1;
    }
    let ghost walked = st.walk();
    proof {
        assert forall|f: nat| f >= budget implies walked == #[trigger] visit_children_spec(
            graph,
            children@,
            0,
            path1,
            entered,
            f,
        ) by {
            assert(visit_children_spec(graph, children@, k as int, path1, walked, f)
                == visit_children_spec(graph, children@, 0, path1, entered, f));
        }
    }
    st.path.pop();
    assert(st.path@ =~= path0);
    proof {
        lemma_count_update(st.status@, node as int, DONE);
    }
    st.status.set(node, DONE);
    st.order.push(node);
    proof {
        assert(st.walk().cycles =~= walked.cycles);
        assert forall|fuel: nat| fuel >= count_unseen(before.status) implies st.walk()
            == #[trigger] visit_spec(graph, node, path0, before, fuel) by {
            let f = (fuel - 1) as nat;
            assert(f >= budget);
            assert(walked == visit_children_spec(graph, children@, 0, path1, entered, f));
        }
    }
}

/// The order of execution of the modules that the entries reach, and the
/// cycles among them. An entry that is no module of the graph is passed over.
pub fn analyse_module_execution(adj: &Vec<Vec<usize>>, entries: &Vec<usize>) -> (r: (
    Vec<Vec<usize>>,
    Vec<usize>,
))
    requires
        adj_in_range(adj_view(adj)),
    ensures
        r.1@ == execution_walk(adj_view(adj), entries@).order,
        Seq::new(r.0@.len(), |i: int| r.0@[i]@) == execution_walk(adj_view(adj), entries@).cycles,
{
    let n = adj.len();
    let ghost graph = adj_view(adj);
    let mut status: Vec<u8> = Vec::new();
    let mut i: usize = 0;
    while i < n
        invariant
            i <= n,
            status@ == Seq::new(i as nat, |j: int| UNSEEN),
        decreases n - i,
    {
        status.push(UNSEEN);
        assert(status@ =~= Seq::new((i + 1) as nat, |j: int| UNSEEN));
        i += 1;
    }
    let mut st = WalkState { status, order: Vec::new(), cycles: Vec::new(), path: Vec::new() };
    proof {
        lemma_count_initial(n as nat);
        assert(st.walk().cycles =~= Seq::empty());
        assert(st.walk() == initial_walk(n as nat));
    }
    let ghost start = st.walk();
    let mut k: usize = 0;
    while k < entries.len()
        invariant
            k <= entries@.len(),
            n == adj@.len(),
            graph == adj_view(adj),
            adj_in_range(graph),
            st.status@.len() == n,
            st.path@.len() == 0,
            count_unseen(st.status@) <= n,
            visit_entries_spec(graph, entries@, k as int, st.walk(), n as nat) == visit_entries_spec(
                graph,
                entries@,
                0,
                start,
                n as nat,
            ),
        decreases entries@.len() - k,
    {
        let e = entries[k];
        assert(st.path@ =~= Seq::empty());
        if e < n {
            analyse_module(adj, e, &mut st);
        }
        k += 1;
    }
    (st.cycles, st.order)
}

} // verus!
