//! The collections that the parts of a build share between threads: the
//! queue of ids that wait, sets of ids, and maps. Their methods change them
//! through a shared reference; here every change goes through the one owner
//! that holds the collection, so that what a collection holds is what was
//! put into it.

use vstd::prelude::*;
use crossbeam::queue::SegQueue;
use dashmap::{DashMap, DashSet};
use crate::types::{ResolvedId, ResolvedIdView};

verus! {

#[verifier::external_type_specification]
#[verifier::external_body]
#[verifier::reject_recursive_types(T)]
pub struct ExSegQueue<T>(SegQueue<T>);

#[verifier::external_type_specification]
#[verifier::external_body]
#[verifier::reject_recursive_types(K)]
#[verifier::reject_recursive_types(S)]
pub struct ExDashSet<K, S>(DashSet<K, S>);

#[verifier::external_type_specification]
#[verifier::external_body]
#[verifier::reject_recursive_types(K)]
#[verifier::reject_recursive_types(V)]
#[verifier::reject_recursive_types(S)]
pub struct ExDashMap<K, V, S>(DashMap<K, V, S>);

/// The ids that wait in the queue, the one that leaves next first.
pub uninterp spec fn waiting_of(q: SegQueue<ResolvedId>) -> Seq<ResolvedId>;

/// The ids that the set holds.
pub uninterp spec fn id_set_of(s: DashSet<String>) -> Set<Seq<char>>;

/// The keys of the map, each with what the map holds for it.
pub uninterp spec fn links_of(m: DashMap<u32, u32>) -> Map<u32, u32>;

/// The specifiers that the map holds, each with what it resolved to.
pub uninterp spec fn resolved_of(m: DashMap<String, ResolvedId>) -> Map<Seq<char>, ResolvedIdView>;

/// What a map holds for a key, if it holds the key.
pub open spec fn map_get<V>(m: Map<Seq<char>, V>, key: Seq<char>) -> Option<V> {
    if m.contains_key(key) {
        Some(m[key])
    } else {
        None
    }
}

/// `SegQueue::new`: a queue in which nothing waits.
#[verifier::external_body]
pub(crate) fn queue_new() -> (q: SegQueue<ResolvedId>)
    ensures
        waiting_of(q) == Seq::<ResolvedId>::empty(),
{
    SegQueue::new()
}

/// `SegQueue::push`, called by the one owner of the queue: the id waits
/// behind those that waited before.
#[verifier::external_body]
pub(crate) fn queue_push(q: &mut SegQueue<ResolvedId>, id: ResolvedId)
    ensures
        waiting_of(*final(q)) == waiting_of(*old(q)).push(id),
{
    q.push(id)
}

/// `SegQueue::pop`, called by the one owner of the queue: the id that
/// waited longest leaves the queue; from an empty queue nothing comes.
#[verifier::external_body]
pub(crate) fn queue_pop(q: &mut SegQueue<ResolvedId>) -> (head: Option<ResolvedId>)
    ensures
        waiting_of(*old(q)).len() == 0 ==> head is None && waiting_of(*final(q)) == waiting_of(
            *old(q),
        ),
        waiting_of(*old(q)).len() > 0 ==> head == Some(waiting_of(*old(q))[0]) && waiting_of(
            *final(q),
        ) == waiting_of(*old(q)).subrange(1, waiting_of(*old(q)).len() as int),
{
    q.pop()
}

/// `DashSet::new`: a set that holds nothing.
#[verifier::external_body]
pub(crate) fn id_set_new() -> (s: DashSet<String>)
    ensures
        id_set_of(s) == Set::<Seq<char>>::empty(),
{
    DashSet::new()
}

/// `DashSet::insert`, called by the one owner of the set: the id is in the
/// set afterwards, and the result says whether it was not before.
#[verifier::external_body]
pub(crate) fn id_set_insert(s: &mut DashSet<String>, id: String) -> (fresh: bool)
    ensures
        fresh == !id_set_of(*old(s)).contains(id@),
        id_set_of(*final(s)) == id_set_of(*old(s)).insert(id@),
{
    s.insert(id)
}

/// `DashMap::new`: a map that holds nothing.
#[verifier::external_body]
pub(crate) fn links_new() -> (m: DashMap<u32, u32>)
    ensures
        links_of(m).dom() == Set::<u32>::empty(),
{
    DashMap::new()
}

/// `DashMap::get`, with the value copied out: what the map holds for the key.
#[verifier::external_body]
pub(crate) fn link_get(m: &DashMap<u32, u32>, key: u32) -> (r: Option<u32>)
    ensures
        r == (if links_of(*m).contains_key(key) {
            Some(links_of(*m)[key])
        } else {
            None
        }),
{
    m.get(&key).map(|entry| *entry.value())
}

/// `DashMap::insert`, called by the one owner of the map: the map holds
/// the value for the key afterwards, and is otherwise as it was.
#[verifier::external_body]
pub(crate) fn link_insert(m: &mut DashMap<u32, u32>, key: u32, value: u32)
    ensures
        links_of(*final(m)) == links_of(*old(m)).insert(key, value),
{
    m.insert(key, value);
}

/// `DashMap::new`: a map that holds no specifier.
#[verifier::external_body]
pub(crate) fn resolved_new() -> (m: DashMap<String, ResolvedId>)
    ensures
        resolved_of(m).dom() == Set::<Seq<char>>::empty(),
{
    DashMap::new()
}

/// `DashMap::get`, with a copy made of what was found: what the map
/// holds for the specifier.
#[verifier::external_body]
pub(crate) fn resolved_get(m: &DashMap<String, ResolvedId>, source: &String) -> (r: Option<
    ResolvedId,
>)
    ensures
        r.deep_view() == map_get(resolved_of(*m), source@),
{
    m.get(source).map(|entry| entry.value().duplicate())
}

/// `DashMap::insert`, called by the one owner of the map: the map holds
/// the id for the specifier afterwards, and is otherwise as it was.
#[verifier::external_body]
pub(crate) fn resolved_insert(m: &mut DashMap<String, ResolvedId>, source: String, id: ResolvedId)
    ensures
        resolved_of(*final(m)) == resolved_of(*old(m)).insert(source@, id.deep_view()),
{
    m.insert(source, id);
}

} // verus!
