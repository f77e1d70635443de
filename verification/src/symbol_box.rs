//! Symbol identity: every binding occurrence owns a `Mark`, and two marks
//! denote the same entity when they share a root in a disjoint-set forest.

use vstd::prelude::*;

verus! {

/// An opaque identity token handed out by a `SymbolBox`.
pub type Mark = u32;

/// The mark of an identifier that resolved to no binding.
pub const EMPTY_MARK: Mark = 0;

/// A disjoint-set forest over the marks `0 .. len`.
pub struct SymbolBox {
    parent: Vec<Mark>,
    rank: Vec<u8>,
    /// An upper bound on the number of parent links between a mark and its root.
    dist: Ghost<Seq<nat>>,
}

impl SymbolBox {
    /// The number of marks handed out so far, the empty mark included.
    pub closed spec fn len(&self) -> nat {
        self.parent@.len()
    }

    /// The forest is well formed: links stay in range and lead to a root.
    pub closed spec fn wf(&self) -> bool {
        &&& self.parent@.len() == self.rank@.len()
        &&& self.parent@.len() == self.dist@.len()
        &&& 1 <= self.parent@.len() <= u32::MAX
        &&& forall|i: int|
            0 <= i < self.parent@.len() ==> (#[trigger] self.parent@[i] as int) < self.parent@.len()
        &&& forall|i: int|
            0 <= i < self.parent@.len() && self.parent@[i] != i ==> self.dist@[self.parent@[i] as int]
                < #[trigger] self.dist@[i]
    }

    /// An upper bound on the number of links between `m` and its root.
    pub closed spec fn height(&self, m: Mark) -> nat {
        if self.wf() && (m as int) < self.parent@.len() {
            self.dist@[m as int]
        } else {
            0
        }
    }

    /// The representative of the class of `m`; a mark never handed out stands alone.
    pub closed spec fn root(&self, m: Mark) -> Mark
        decreases self.height(m),
    {
        if self.wf() && (m as int) < self.parent@.len() && self.parent@[m as int] != m {
            self.root(self.parent@[m as int])
        } else {
            m
        }
    }

    /// `a` and `b` denote the same entity.
    pub open spec fn same(&self, a: Mark, b: Mark) -> bool {
        self.root(a) == self.root(b)
    }

    /// Whether `x` and `y` denote the same entity once `a` and `b` are
    /// united; a mark that was never handed out unites nothing.
    pub open spec fn united(&self, a: Mark, b: Mark, x: Mark, y: Mark) -> bool {
        ||| self.same(x, y)
        ||| {
            &&& (a as int) < self.len()
            &&& (b as int) < self.len()
            &&& ((self.same(x, a) && self.same(y, b)) || (self.same(x, b) && self.same(y, a)))
        }
    }

    /// Whether `x` and `y` denote the same entity once the first `n` of `pairs` are united, in order.
    pub open spec fn united_all(&self, pairs: Seq<(Mark, Mark)>, n: int, x: Mark, y: Mark) -> bool
        decreases n,
    {
        if 0 < n <= pairs.len() {
            let a = pairs[n - 1].0;
            let b = pairs[n - 1].1;
            ||| self.united_all(pairs, n - 1, x, y)
            ||| {
                &&& (a as int) < self.len()
                &&& (b as int) < self.len()
                &&& ((self.united_all(pairs, n - 1, x, a) && self.united_all(pairs, n - 1, y, b))
                    || (self.united_all(pairs, n - 1, x, b) && self.united_all(pairs, n - 1, y, a)))
            }
        } else {
            self.same(x, y)
        }
    }

    /// One more union on a box that stands for the first `n` pairs gives one that stands for `n + 1`.
    pub proof fn lemma_united_step(
        &self,
        mid: &SymbolBox,
        after: &SymbolBox,
        pairs: Seq<(Mark, Mark)>,
        n: int,
    )
        requires
            0 <= n < pairs.len(),
            mid.len() == self.len(),
            forall|x: Mark, y: Mark| #[trigger] mid.same(x, y) == self.united_all(pairs, n, x, y),
            forall|x: Mark, y: Mark|
                #[trigger] after.same(x, y) == mid.united(pairs[n].0, pairs[n].1, x, y),
        ensures
            forall|x: Mark, y: Mark|
                #[trigger] after.same(x, y) == self.united_all(pairs, n + 1, x, y),
    {
        let a = pairs[n].0;
        let b = pairs[n].1;
        assert forall|x: Mark, y: Mark| #[trigger]
            after.same(x, y) == self.united_all(pairs, n + 1, x, y) by {
            assert(mid.same(x, y) == self.united_all(pairs, n, x, y));
            assert(mid.same(x, a) == self.united_all(pairs, n, x, a));
            assert(mid.same(y, b) == self.united_all(pairs, n, y, b));
            assert(mid.same(x, b) == self.united_all(pairs, n, x, b));
            assert(mid.same(y, a) == self.united_all(pairs, n, y, a));
        }
    }

    /// The root that the classes of `a` and `b` share once they are united.
    pub closed spec fn union_root(&self, a: Mark, b: Mark) -> Mark {
        let ra = self.root(a);
        let rb = self.root(b);
        if ra != rb && self.rank@[ra as int] > self.rank@[rb as int] {
            ra
        } else {
            rb
        }
    }

    /// Finding a root twice finds it once; a root is a handed-out mark where its mark is.
    pub proof fn lemma_root(&self, m: Mark)
        requires
            self.wf(),
        ensures
            self.root(self.root(m)) == self.root(m),
            (m as int) < self.len() ==> (self.root(m) as int) < self.len(),
            (m as int) >= self.len() ==> self.root(m) == m,
    {
        self.lemma_root_link(m);
    }

    proof fn lemma_root_link(&self, m: Mark)
        requires
            self.wf(),
        ensures
            self.root(self.root(m)) == self.root(m),
            (m as int) < self.len() ==> (self.root(m) as int) < self.len(),
            (m as int) >= self.len() ==> self.root(m) == m,
            (self.root(m) as int) < self.len() ==> self.parent@[self.root(m) as int] == self.root(m),
        decreases self.height(m),
    {
        if (m as int) < self.parent@.len() && self.parent@[m as int] != m {
            self.lemma_root_link(self.parent@[m as int]);
        }
    }

    /// The united root is one of the two roots.
    pub proof fn lemma_union_root(&self, a: Mark, b: Mark)
        ensures
            self.union_root(a, b) == self.root(a) || self.union_root(a, b) == self.root(b),
            self.same(a, b) ==> self.union_root(a, b) == self.root(a),
    {
    }

    /// A box that holds the empty mark alone.
    pub fn new() -> (sb: SymbolBox)
        ensures
            sb.wf(),
            sb.len() == 1,
            sb.root(EMPTY_MARK) == EMPTY_MARK,
    {
        let mut parent: Vec<Mark> = Vec::new();
        parent.push(0);
        let mut rank: Vec<u8> = Vec::new();
        rank.push(0);
        let dist: Ghost<Seq<nat>> = Ghost(Seq::<nat>::empty().push(0nat));
        SymbolBox { parent, rank, dist }
    }

    /// The number of marks handed out so far.
    pub fn mark_count(&self) -> (n: usize)
        requires
            self.wf(),
        ensures
            n == self.len(),
    {
        self.parent.len()
    }

    /// Hands out a mark that no earlier call returned; it stands alone.
    pub fn new_mark(&mut self) -> (m: Mark)
        requires
            old(self).wf(),
            old(self).len() < u32::MAX,
        ensures
            final(self).wf(),
            m as nat == old(self).len(),
            final(self).len() == old(self).len() + 1,
            forall|x: Mark| #[trigger] final(self).root(x) == old(self).root(x),
    {
        let m: Mark = self.parent.len() as Mark;
        let ghost before = *self;
        self.parent.push(m);
        self.rank.push(0);
        proof {
            self.dist@ = self.dist@.push(0nat);
        }
        proof {
            assert(self.parent@.subrange(0, before.parent@.len() as int) =~= before.parent@);
            assert forall|x: Mark| #[trigger] self.root(x) == before.root(x) by {
                if x != m {
                    Self::lemma_extend(before, *self, x);
                } else {
                    before.lemma_root_link(m);
                }
            }
        }
        m
    }

    proof fn lemma_extend(before: SymbolBox, after: SymbolBox, x: Mark)
        requires
            before.wf(),
            after.wf(),
            after.parent@.len() == before.parent@.len() + 1,
            after.parent@.subrange(0, before.parent@.len() as int) == before.parent@,
            x as int != before.parent@.len(),
        ensures
            after.root(x) == before.root(x),
        decreases
            (if (x as int) < before.parent@.len() {
                before.dist@[x as int]
            } else {
                0
            }),
    {
        if (x as int) < before.parent@.len() {
            assert(after.parent@[x as int] == after.parent@.subrange(
                0,
                before.parent@.len() as int,
            )[x as int]);
            if before.parent@[x as int] != x {
                Self::lemma_extend(before, after, before.parent@[x as int]);
            }
        }
    }

    /// The representative of the class of `m`.
    pub fn find_root(&self, m: Mark) -> (r: Mark)
        requires
            self.wf(),
        ensures
            r == self.root(m),
    {
        if m as usize >= self.parent.len() {
            return m;
        }
        let mut cur: Mark = m;
        while self.parent[cur as usize] != cur
            invariant
                self.wf(),
                (cur as int) < self.parent@.len(),
                self.root(cur) == self.root(m),
            decreases self.dist@[cur as int],
        {
            cur = self.parent[cur as usize];
        }
        cur
    }

    /// The representative of the class of `m`. On the way every mark that
    /// is passed is hung onto the parent of its parent, which shortens the
    /// way for the next search and changes no class.
    pub fn find_root_compress(&mut self, m: Mark) -> (r: Mark)
        requires
            old(self).wf(),
        ensures
            final(self).wf(),
            final(self).len() == old(self).len(),
            r == old(self).root(m),
            forall|x: Mark| #[trigger] final(self).root(x) == old(self).root(x),
    {
        if m as usize >= self.parent.len() {
            return m;
        }
        let mut cur: Mark = m;
        while self.parent[cur as usize] != cur
            invariant
                self.wf(),
                self.parent@.len() == old(self).parent@.len(),
                self.dist@ == old(self).dist@,
                self.rank == old(self).rank,
                (cur as int) < self.parent@.len(),
                self.root(cur) == old(self).root(m),
                forall|x: Mark| #[trigger] self.root(x) == old(self).root(x),
            decreases self.dist@[cur as int],
        {
            let ghost before = *self;
            let p = self.parent[cur as usize];
            let g = self.parent[p as usize];
            self.parent.set(cur as usize, g);
            proof {
                assert(self.wf()) by {
                    assert forall|i: int|
                        0 <= i < self.parent@.len() && self.parent@[i] != i implies self.dist@[self.parent@[i] as int]
                        < #[trigger] self.dist@[i] by {
                        if i == cur as int {
                            assert(before.dist@[p as int] < before.dist@[cur as int]);
                            if g != p {
                                assert(before.dist@[g as int] < before.dist@[p as int]);
                            }
                        } else {
                            assert(self.parent@[i] == before.parent@[i]);
                        }
                    }
                }
                assert forall|x: Mark| #[trigger] self.root(x) == before.root(x) by {
                    Self::lemma_skip(before, *self, cur, x);
                }
                assert(before.root(cur) == before.root(p));
                assert(before.root(p) == before.root(g));
            }
            cur = g;
        }
        cur
    }

    proof fn lemma_skip(before: SymbolBox, after: SymbolBox, at: Mark, x: Mark)
        requires
            before.wf(),
            after.wf(),
            (at as int) < before.parent@.len(),
            after.parent@ == before.parent@.update(
                at as int,
                before.parent@[before.parent@[at as int] as int],
            ),
        ensures
            after.root(x) == before.root(x),
        decreases
            (if (x as int) < before.parent@.len() {
                before.dist@[x as int]
            } else {
                0
            }),
    {
        if (x as int) < before.parent@.len() {
            let p = before.parent@[x as int];
            if x == at {
                let g = before.parent@[p as int];
                if p == x {
                    assert(after.parent@[x as int] == x);
                } else {
                    assert(after.parent@[x as int] == g);
                    assert(before.root(x) == before.root(p));
                    if g == p {
                        assert(before.root(p) == p);
                        Self::lemma_skip(before, after, at, p);
                    } else {
                        assert(before.root(p) == before.root(g));
                        Self::lemma_skip(before, after, at, g);
                        if g == x {
                        }
                    }
                }
            } else if p != x {
                assert(after.parent@[x as int] == p);
                Self::lemma_skip(before, after, at, p);
            } else {
                assert(after.parent@[x as int] == x);
            }
        }
    }

    /// Whether `a` and `b` denote the same entity.
    pub fn equiv(&self, a: Mark, b: Mark) -> (r: bool)
        requires
            self.wf(),
        ensures
            r == self.same(a, b),
    {
        self.find_root(a) == self.find_root(b)
    }

    /// Unites the classes of `a` and `b`; with a mark that was never handed out it does nothing.
    pub fn union(&mut self, a: Mark, b: Mark)
        requires
            old(self).wf(),
        ensures
            final(self).wf(),
            final(self).len() == old(self).len(),
            (a as int) < old(self).len() && (b as int) < old(self).len() ==> forall|x: Mark|
                #[trigger] final(self).root(x) == (if old(self).same(x, a) || old(self).same(x, b) {
                    old(self).union_root(a, b)
                } else {
                    old(self).root(x)
                }),
            !((a as int) < old(self).len() && (b as int) < old(self).len()) ==> forall|x: Mark|
                #[trigger] final(self).root(x) == old(self).root(x),
            forall|x: Mark, y: Mark|
                #[trigger] final(self).same(x, y) == old(self).united(a, b, x, y),
    {
        if a as usize >= self.parent.len() || b as usize >= self.parent.len() {
            return ;
        }
        let ghost start = *self;
        let ra = self.find_root(a);
        let rb = self.find_root(b);
        proof {
            self.lemma_root_link(a);
            self.lemma_root_link(b);
        }
        if ra == rb {
            return ;
        }
        let ghost before = *self;
        let (child, top) = if self.rank[ra as usize] > self.rank[rb as usize] {
            (rb, ra)
        } else {
            (ra, rb)
        };
        let bump = self.rank[ra as usize] == self.rank[rb as usize] && self.rank[top as usize] < 255;
        self.parent.set(child as usize, top);
        if bump {
            let r = self.rank[top as usize];
            self.rank.set(top as usize, r + 1);
        }
        proof {
            let shift = before.dist@[top as int] + 1;
            self.dist@ = Seq::new(
                before.dist@.len(),
                |i: int|
                    if before.root(i as Mark) == child {
                        before.dist@[i] + shift
                    } else {
                        before.dist@[i]
                    },
            );
            assert forall|i: int|
                0 <= i < self.parent@.len() && self.parent@[i] != i implies self.dist@[self.parent@[i] as int]
                < #[trigger] self.dist@[i] by {
                if i == child as int {
                    before.lemma_root_link(top);
                } else {
                    let p = before.parent@[i];
                    assert(self.parent@[i] == p);
                    assert(before.root(i as Mark) == before.root(p));
                }
            }
            assert(self.wf());
            assert forall|x: Mark|
                #[trigger] self.root(x) == (if before.same(x, a) || before.same(x, b) {
                    before.union_root(a, b)
                } else {
                    before.root(x)
                }) by {
                Self::lemma_link(before, *self, child, top, x);
            }
            start.lemma_union_root(a, b);
            assert forall|x: Mark, y: Mark| #[trigger]
                self.same(x, y) == start.united(a, b, x, y) by {
                assert(self.root(x) == (if start.same(x, a) || start.same(x, b) {
                    start.union_root(a, b)
                } else {
                    start.root(x)
                }));
                assert(self.root(y) == (if start.same(y, a) || start.same(y, b) {
                    start.union_root(a, b)
                } else {
                    start.root(y)
                }));
            }
        }
    }

    proof fn lemma_link(before: SymbolBox, after: SymbolBox, child: Mark, top: Mark, x: Mark)
        requires
            before.wf(),
            after.wf(),
            (child as int) < before.parent@.len(),
            (top as int) < before.parent@.len(),
            before.parent@[child as int] == child,
            before.parent@[top as int] == top,
            child != top,
            after.parent@ == before.parent@.update(child as int, top),
        ensures
            after.root(x) == (if before.root(x) == child {
                top
            } else {
                before.root(x)
            }),
        decreases
            (if (x as int) < before.parent@.len() {
                before.dist@[x as int]
            } else {
                0
            }),
    {
        if (x as int) < before.parent@.len() {
            if x == child {
                assert(after.parent@[x as int] == top);
                assert(after.parent@[top as int] == top);
                assert(after.root(top) == top);
                assert(after.root(x) == after.root(top));
            } else if before.parent@[x as int] != x {
                assert(after.parent@[x as int] == before.parent@[x as int]);
                Self::lemma_link(before, after, child, top, before.parent@[x as int]);
            } else {
                assert(after.parent@[x as int] == x);
            }
        }
    }
}

} // verus!
