//! A disjoint-set forest over values that know their index. A value takes
//! part once it was united with another.

use vstd::prelude::*;
use dashmap::DashMap;
use crate::shared::{link_get, link_insert, links_new, links_of};

verus! {

/// A value that stands for an index and can be made from it again.
pub trait UnifyValue: Sized {
    /// The index of the value.
    spec fn index_of(&self) -> u32;

    /// The value of an index.
    spec fn value_of(index: u32) -> Self;

    fn index(&self) -> (r: u32)
        ensures
            r == self.index_of(),
    ;

    fn from_index(index: u32) -> (r: Self)
        ensures
            r == Self::value_of(index),
    ;
}

impl UnifyValue for u32 {
    open spec fn index_of(&self) -> u32 {
        *self
    }

    open spec fn value_of(index: u32) -> u32 {
        index
    }

    fn index(&self) -> (r: u32) {
        *self
    }

    fn from_index(index: u32) -> (r: u32) {
        index
    }
}

pub struct UnionFind {
    /// For each value that was united onto another: the value that it was united onto.
    pub union_map: DashMap<u32, u32>,
    /// The values that take part, each under its index.
    pub key_to_value: DashMap<u32, u32>,
    /// For each value a bound on the links between it and what stands for it.
    height: Ghost<Map<u32, nat>>,
}

/// The height noted for a value; none noted counts as none.
pub open spec fn height_of(height: Map<u32, nat>, x: u32) -> nat {
    if height.contains_key(x) {
        height[x]
    } else {
        0
    }
}

/// Every link leads to a value of lesser height: no walk along the links goes on for ever.
pub open spec fn ranked(links: Map<u32, u32>, height: Map<u32, nat>) -> bool {
    forall|k: u32| #[trigger] links.contains_key(k) ==> height_of(height, links[k]) < height_of(height, k)
}

/// The value at the end of the links that leave `x`.
pub open spec fn root_in(links: Map<u32, u32>, height: Map<u32, nat>, x: u32) -> u32
    decreases height_of(height, x),
    when ranked(links, height)
{
    if links.contains_key(x) {
        root_in(links, height, links[x])
    } else {
        x
    }
}

/// What stands for a class stands for itself.
pub proof fn lemma_root_stands(links: Map<u32, u32>, height: Map<u32, nat>, x: u32)
    requires
        ranked(links, height),
    ensures
        !links.contains_key(root_in(links, height, x)),
        root_in(links, height, root_in(links, height, x)) == root_in(links, height, x),
    decreases height_of(height, x),
{
    if links.contains_key(x) {
        lemma_root_stands(links, height, links[x]);
    }
}

/// One more link, from what stands for one class to what stands for
/// another: the first class is now stood for by the second.
proof fn lemma_hang(
    links: Map<u32, u32>,
    height: Map<u32, nat>,
    taller: Map<u32, nat>,
    child: u32,
    top: u32,
    x: u32,
)
    requires
        ranked(links, height),
        ranked(links.insert(child, top), taller),
        !links.contains_key(child),
        !links.contains_key(top),
        child != top,
    ensures
        root_in(links.insert(child, top), taller, x) == (if root_in(links, height, x) == child {
            top
        } else {
            root_in(links, height, x)
        }),
    decreases height_of(height, x),
{
    let after = links.insert(child, top);
    if links.contains_key(x) {
        lemma_hang(links, height, taller, child, top, links[x]);
        assert(after.contains_key(x) && after[x] == links[x]);
        assert(root_in(after, taller, x) == root_in(after, taller, links[x]));
        assert(root_in(links, height, x) == root_in(links, height, links[x]));
    } else if x == child {
        assert(after.contains_key(child) && after[child] == top);
        assert(!after.contains_key(top));
        assert(root_in(after, taller, top) == top);
        assert(root_in(after, taller, child) == root_in(after, taller, top));
        assert(root_in(links, height, x) == x);
    } else {
        assert(!after.contains_key(x));
        assert(root_in(after, taller, x) == x);
        assert(root_in(links, height, x) == x);
    }
}

/// The heights after what stands for one class was hung under `top`: the
/// values of that class rise above `top`.
pub open spec fn raised(links: Map<u32, u32>, height: Map<u32, nat>, child: u32, top: u32) -> Map<
    u32,
    nat,
> {
    Map::new(
        |k: u32| true,
        |k: u32|
            if root_in(links, height, k) == child {
                height_of(height, k) + height_of(height, top) + 1
            } else {
                height_of(height, k)
            },
    )
}

proof fn lemma_raised(links: Map<u32, u32>, height: Map<u32, nat>, child: u32, top: u32)
    requires
        ranked(links, height),
        !links.contains_key(child),
        !links.contains_key(top),
        child != top,
    ensures
        ranked(links.insert(child, top), raised(links, height, child, top)),
{
    let after = links.insert(child, top);
    let taller = raised(links, height, child, top);
    assert forall|k: u32| #[trigger] after.contains_key(k) implies height_of(taller, after[k])
        < height_of(taller, k) by {
        if k == child {
            assert(root_in(links, height, top) == top);
            assert(root_in(links, height, child) == child);
        } else {
            assert(links.contains_key(k));
            assert(root_in(links, height, k) == root_in(links, height, links[k]));
        }
    }
}

impl UnionFind {
    /// The links between the values.
    pub closed spec fn links(&self) -> Map<u32, u32> {
        links_of(self.union_map)
    }

    /// The links end: every link leads to a value of lesser height.
    pub closed spec fn ends(&self) -> bool {
        ranked(self.links(), self.height@)
    }

    /// The index that stands for the class of a value.
    pub closed spec fn root_of(&self, index: u32) -> u32 {
        root_in(self.links(), self.height@, index)
    }

    /// Whether two values are in one class.
    pub open spec fn same(&self, x: u32, y: u32) -> bool {
        self.root_of(x) == self.root_of(y)
    }

    /// Whether a value of the index takes part.
    pub closed spec fn is_registered(&self, index: u32) -> bool {
        links_of(self.key_to_value).contains_key(index)
    }

    /// The links end; a value that was never united stands for itself, and
    /// alone; the value that stands for a class takes part, and stands for
    /// itself.
    pub open spec fn wf(&self) -> bool {
        &&& self.ends()
        &&& forall|x: u32| !self.is_registered(x) ==> #[trigger] self.root_of(x) == x
        &&& forall|x: u32, y: u32| !self.is_registered(x) && #[trigger] self.same(x, y) ==> x == y
        &&& forall|x: u32| self.is_registered(x) ==> self.is_registered(#[trigger] self.root_of(x))
        &&& forall|x: u32| self.root_of(#[trigger] self.root_of(x)) == self.root_of(x)
    }

    pub fn new() -> (u: UnionFind)
        ensures
            u.wf(),
            forall|i: u32| !u.is_registered(i),
    {
        let u = UnionFind {
            union_map: links_new(),
            key_to_value: links_new(),
            height: Ghost(Map::empty()),
        };
        proof {
            assert(ranked(u.links(), u.height@));
            assert forall|x: u32| #[trigger] u.root_of(x) == x by {
                assert(!u.links().contains_key(x));
            }
        }
        u
    }

    /// Walks along the links from `start` to what stands for its class.
    fn find_root(&self, start: u32) -> (r: u32)
        requires
            self.ends(),
        ensures
            r == self.root_of(start),
    {
        let mut cur = start;
        loop
            invariant
                self.ends(),
                self.root_of(cur) == self.root_of(start),
            decreases height_of(self.height@, cur),
        {
            match link_get(&self.union_map, cur) {
                Some(next) => {
                    cur = next;
                },
                None => {
                    return cur;
                },
            }
        }
    }

    /// Unites the sets of two values; both take part from now on, and what
    /// stood for the set of the second stands for both.
    pub fn union<T: UnifyValue>(&mut self, a: T, b: T)
        requires
            old(self).wf(),
        ensures
            final(self).wf(),
            forall|i: u32|
                final(self).is_registered(i) == (old(self).is_registered(i) || i == a.index_of()
                    || i == b.index_of()),
            forall|x: u32|
                #[trigger] final(self).root_of(x) == (if old(self).same(x, a.index_of()) || old(
                    self,
                ).same(x, b.index_of()) {
                    old(self).root_of(b.index_of())
                } else {
                    old(self).root_of(x)
                }),
            forall|x: u32, y: u32|
                #[trigger] final(self).same(x, y) == (old(self).same(x, y) || (old(self).same(
                    x,
                    a.index_of(),
                ) && old(self).same(y, b.index_of())) || (old(self).same(x, b.index_of()) && old(
                    self,
                ).same(y, a.index_of()))),
    {
        let ia = a.index();
        let ib = b.index();
        link_insert(&mut self.key_to_value, ia, ia);
        link_insert(&mut self.key_to_value, ib, ib);
        let ra = self.find_root(ia);
        let rb = self.find_root(ib);
        let ghost links = self.links();
        let ghost height = self.height@;
        proof {
            lemma_root_stands(links, height, ia);
            lemma_root_stands(links, height, ib);
            assert forall|x: u32| #[trigger] self.root_of(x) == old(self).root_of(x) by {}
        }
        if ra != rb {
            link_insert(&mut self.union_map, ra, rb);
            proof {
                self.height@ = raised(links, height, ra, rb);
                lemma_raised(links, height, ra, rb);
                assert forall|x: u32| #[trigger] self.root_of(x) == (if old(self).root_of(x)
                    == ra {
                    rb
                } else {
                    old(self).root_of(x)
                }) by {
                    lemma_hang(links, height, self.height@, ra, rb, x);
                }
            }
        }
        proof {
            assert forall|x: u32| #[trigger] self.root_of(x) == (if old(self).same(x, ia) || old(
                self,
            ).same(x, ib) {
                old(self).root_of(ib)
            } else {
                old(self).root_of(x)
            }) by {
                if ra != rb {
                    assert(self.root_of(x) == (if old(self).root_of(x) == ra {
                        rb
                    } else {
                        old(self).root_of(x)
                    }));
                }
            }
            assert forall|x: u32| !self.is_registered(x) implies #[trigger] self.root_of(x)
                == x by {
                assert(!old(self).is_registered(x));
                assert(old(self).root_of(x) == x);
                if old(self).same(x, ia) {
                    assert(x == ia);
                }
                if old(self).same(x, ib) {
                    assert(x == ib);
                }
            }
            assert forall|x: u32, y: u32|
                !self.is_registered(x) && #[trigger] self.same(x, y) implies x == y by {
                assert(!old(self).is_registered(x));
                assert(old(self).root_of(x) == x);
                if old(self).same(x, ia) {
                    assert(x == ia);
                }
                if old(self).same(x, ib) {
                    assert(x == ib);
                }
                assert(self.root_of(x) == x);
                if old(self).same(y, ia) || old(self).same(y, ib) {
                    assert(self.root_of(y) == old(self).root_of(ib));
                    assert(old(self).same(x, ib));
                } else {
                    assert(old(self).same(x, y));
                }
            }
            assert forall|x: u32| self.is_registered(x) implies self.is_registered(
                #[trigger] self.root_of(x),
            ) by {
                if old(self).is_registered(ib) {
                    assert(old(self).is_registered(old(self).root_of(ib)));
                } else {
                    assert(old(self).root_of(ib) == ib);
                }
                if old(self).same(x, ia) || old(self).same(x, ib) {
                } else if old(self).is_registered(x) {
                    assert(old(self).is_registered(old(self).root_of(x)));
                } else {
                    assert(old(self).root_of(x) == x);
                }
            }
            assert forall|x: u32| self.root_of(#[trigger] self.root_of(x)) == self.root_of(x) by {
                lemma_root_stands(self.links(), self.height@, x);
            }
        }
    }

    /// The index that stands for the set of a value; `None` for a value that does not take part.
    pub fn find_index<T: UnifyValue>(&self, element: T) -> (r: Option<u32>)
        requires
            self.wf(),
        ensures
            r == (if self.is_registered(element.index_of()) {
                Some(self.root_of(element.index_of()))
            } else {
                None
            }),
            r matches Some(root) ==> self.is_registered(root) && self.root_of(root) == root,
    {
        let i = element.index();
        match link_get(&self.key_to_value, i) {
            Some(_) => Some(self.find_root(i)),
            None => None,
        }
    }

    /// The value that stands for the set of a value.
    pub fn find<T: UnifyValue>(&self, element: T) -> (r: Option<T>)
        requires
            self.wf(),
        ensures
            r == (if self.is_registered(element.index_of()) {
                Some(T::value_of(self.root_of(element.index_of())))
            } else {
                None
            }),
    {
        match self.find_index(element) {
            Some(index) => Some(T::from_index(index)),
            None => None,
        }
    }

    /// Whether two values take part and are in one set.
    pub fn equiv<T: UnifyValue>(&self, a: T, b: T) -> (r: bool)
        requires
            self.wf(),
        ensures
            r == (self.is_registered(a.index_of()) && self.is_registered(b.index_of())
                && self.same(a.index_of(), b.index_of())),
    {
        let a_result = self.find_index(a);
        let b_result = self.find_index(b);
        match (a_result, b_result) {
            (Some(x), Some(y)) => x == y,
            _ => false,
        }
    }
}

} // verus!
