//! The engine's maps: what the library takes from `dashmap`, `rustc_hash`
//! and `ahash`. A map is changed through `&mut` only, so that its contents
//! before and after a call can be told apart.

use vstd::prelude::*;
use std::sync::Arc;
use crate::node::{IndexedNode, NodeView};
use crate::tree::IndexedTree;

verus! {

/// Declares `dashmap::DashMap`. What a map holds is told by `trees_of`,
/// `buckets_of` and `hashes_of`.
#[verifier::external_type_specification]
#[verifier::external_body]
#[verifier::reject_recursive_types(K)]
#[verifier::reject_recursive_types(V)]
#[verifier::reject_recursive_types(S)]
pub struct ExDashMap<K, V, S>(dashmap::DashMap<K, V, S>);

/// Declares `dashmap::DashSet`. What a set holds is told by `members_of`.
#[verifier::external_type_specification]
#[verifier::external_body]
#[verifier::reject_recursive_types(K)]
#[verifier::reject_recursive_types(S)]
pub struct ExDashSet<K, S>(dashmap::DashSet<K, S>);

/// Declares `rustc_hash::FxBuildHasher`, the hasher of the index and of its
/// inverse.
#[verifier::external_type_specification]
#[verifier::external_body]
pub struct ExFxBuildHasher(rustc_hash::FxBuildHasher);

/// Declares `ahash::RandomState`, the hasher of the map of trees.
#[verifier::external_type_specification]
#[verifier::external_body]
pub struct ExRandomState(ahash::RandomState);

/// The key of a node in the engine's maps: the path of its file and its
/// place in the tree.
pub type NodeKey = (String, usize);

/// The identity of a node among all nodes of all files.
pub type NodeId = (Seq<char>, usize);

/// The nodes of one fingerprint, as the index hands them out.
pub struct Bucket {
    pub fingerprint: u64,
    pub nodes: Vec<Arc<IndexedNode>>,
}

/// The mathematical content of each of `nodes`.
pub open spec fn node_views(nodes: Seq<Arc<IndexedNode>>) -> Seq<NodeView> {
    Seq::new(nodes.len(), |i: int| nodes[i]@)
}

/// The trees that the map holds, by path.
pub uninterp spec fn trees_of(
    m: dashmap::DashMap<String, Arc<IndexedTree>, ahash::RandomState>,
) -> Map<Seq<char>, Seq<NodeView>>;

/// The nodes that the map holds, by fingerprint.
pub uninterp spec fn buckets_of(
    m: dashmap::DashMap<u64, Vec<Arc<IndexedNode>>, rustc_hash::FxBuildHasher>,
) -> Map<u64, Seq<NodeView>>;

/// The fingerprints that the map holds, by node.
pub uninterp spec fn hashes_of(m: dashmap::DashMap<NodeKey, u64, rustc_hash::FxBuildHasher>) -> Map<
    NodeId,
    u64,
>;

/// The nodes that the set holds.
pub uninterp spec fn members_of(s: dashmap::DashSet<NodeKey, rustc_hash::FxBuildHasher>) -> Set<
    NodeId,
>;

/// Trusted: `ahash::RandomState::default` makes a hasher state.
#[verifier::external_body]
pub(crate) fn random_state() -> (state: ahash::RandomState) {
    ahash::RandomState::default()
}

/// Trusted: `DashMap::with_hasher` makes an empty map.
#[verifier::external_body]
pub(crate) fn trees_new(state: ahash::RandomState) -> (m: dashmap::DashMap<
    String,
    Arc<IndexedTree>,
    ahash::RandomState,
>)
    ensures
        trees_of(m) =~= Map::empty(),
{
    dashmap::DashMap::with_hasher(state)
}

/// Trusted: `DashMap::insert` puts the value under the key, in place of what
/// was there.
#[verifier::external_body]
pub(crate) fn trees_insert(
    m: &mut dashmap::DashMap<String, Arc<IndexedTree>, ahash::RandomState>,
    path: String,
    tree: Arc<IndexedTree>,
)
    ensures
        trees_of(*final(m)) == trees_of(*old(m)).insert(path@, tree@),
{
    m.insert(path, tree);
}

/// Trusted: `DashMap::remove` takes the entry of the key out and returns it,
/// if there is one, and leaves the other entries as they are.
#[verifier::external_body]
pub(crate) fn trees_remove(
    m: &mut dashmap::DashMap<String, Arc<IndexedTree>, ahash::RandomState>,
    path: &str,
) -> (taken: Option<Arc<IndexedTree>>)
    ensures
        trees_of(*final(m)) == trees_of(*old(m)).remove(path@),
        taken is Some <==> trees_of(*old(m)).dom().contains(path@),
        taken matches Some(tree) ==> tree@ == trees_of(*old(m))[path@],
{
    m.remove(path).map(|entry| entry.1)
}

/// Trusted: `DashMap::get` finds the value of the key, if there is one; the
/// wrapper hands out another pointer to it.
#[verifier::external_body]
pub(crate) fn trees_get(
    m: &dashmap::DashMap<String, Arc<IndexedTree>, ahash::RandomState>,
    path: &str,
) -> (found: Option<Arc<IndexedTree>>)
    ensures
        found is Some <==> trees_of(*m).dom().contains(path@),
        found matches Some(tree) ==> tree@ == trees_of(*m)[path@],
{
    m.get(path).map(|entry| Arc::clone(entry.value()))
}

/// Trusted: `DashMap::iter` visits every entry; the wrapper hands out the
/// keys, in the order of the visit, of which nothing is known.
#[verifier::external_body]
pub(crate) fn trees_paths(
    m: &dashmap::DashMap<String, Arc<IndexedTree>, ahash::RandomState>,
) -> (paths: Vec<String>)
    ensures
        forall|i: int| 0 <= i < paths@.len() ==> trees_of(*m).dom().contains(#[trigger] paths@[i]@),
        forall|path: Seq<char>| #[trigger]
            trees_of(*m).dom().contains(path) ==> exists|i: int|
                0 <= i < paths@.len() && #[trigger] paths@[i]@ == path,
{
    m.iter().map(|entry| entry.key().clone()).collect()
}

/// Trusted: `DashMap::with_hasher` makes an empty map.
#[verifier::external_body]
pub(crate) fn buckets_new() -> (m: dashmap::DashMap<
    u64,
    Vec<Arc<IndexedNode>>,
    rustc_hash::FxBuildHasher,
>)
    ensures
        buckets_of(m) =~= Map::empty(),
{
    dashmap::DashMap::with_hasher(rustc_hash::FxBuildHasher)
}

/// Trusted: `DashMap::insert` puts the value under the key, in place of what
/// was there.
#[verifier::external_body]
pub(crate) fn buckets_insert(
    m: &mut dashmap::DashMap<u64, Vec<Arc<IndexedNode>>, rustc_hash::FxBuildHasher>,
    fingerprint: u64,
    nodes: Vec<Arc<IndexedNode>>,
)
    ensures
        buckets_of(*final(m)) == buckets_of(*old(m)).insert(fingerprint, node_views(nodes@)),
{
    m.insert(fingerprint, nodes);
}

/// Trusted: `DashMap::remove` takes the entry of the key out and returns it,
/// if there is one, and leaves the other entries as they are.
#[verifier::external_body]
pub(crate) fn buckets_remove(
    m: &mut dashmap::DashMap<u64, Vec<Arc<IndexedNode>>, rustc_hash::FxBuildHasher>,
    fingerprint: u64,
) -> (taken: Option<Vec<Arc<IndexedNode>>>)
    ensures
        buckets_of(*final(m)) == buckets_of(*old(m)).remove(fingerprint),
        taken is Some <==> buckets_of(*old(m)).dom().contains(fingerprint),
        taken matches Some(nodes) ==> node_views(nodes@) == buckets_of(*old(m))[fingerprint],
{
    m.remove(&fingerprint).map(|entry| entry.1)
}

/// Trusted: `DashMap::iter` visits every entry once; the wrapper hands out
/// each key with a copy of its value, in the order of the visit, of which
/// nothing is known.
#[verifier::external_body]
pub(crate) fn buckets_entries(
    m: &dashmap::DashMap<u64, Vec<Arc<IndexedNode>>, rustc_hash::FxBuildHasher>,
) -> (entries: Vec<Bucket>)
    ensures
        forall|i: int|
            0 <= i < entries@.len() ==> buckets_of(*m).dom().contains(
                (#[trigger] entries@[i]).fingerprint,
            ) && node_views(entries@[i].nodes@) == buckets_of(*m)[entries@[i].fingerprint],
        forall|i: int, j: int|
            0 <= i < j < entries@.len() ==> (#[trigger] entries@[i]).fingerprint
                != (#[trigger] entries@[j]).fingerprint,
        forall|fingerprint: u64| #[trigger]
            buckets_of(*m).dom().contains(fingerprint) ==> exists|i: int|
                0 <= i < entries@.len() && (#[trigger] entries@[i]).fingerprint == fingerprint,
{
    m.iter().map(|entry| Bucket { fingerprint: *entry.key(), nodes: entry.value().clone() }).collect()
}

/// Trusted: `DashMap::with_hasher` makes an empty map.
#[verifier::external_body]
pub(crate) fn hashes_new() -> (m: dashmap::DashMap<NodeKey, u64, rustc_hash::FxBuildHasher>)
    ensures
        hashes_of(m) =~= Map::empty(),
{
    dashmap::DashMap::with_hasher(rustc_hash::FxBuildHasher)
}

/// Trusted: `DashMap::insert` puts the value under the key, in place of what
/// was there.
#[verifier::external_body]
pub(crate) fn hashes_insert(
    m: &mut dashmap::DashMap<NodeKey, u64, rustc_hash::FxBuildHasher>,
    path: &str,
    id: usize,
    fingerprint: u64,
)
    ensures
        hashes_of(*final(m)) == hashes_of(*old(m)).insert((path@, id), fingerprint),
{
    m.insert((path.to_string(), id), fingerprint);
}

/// Trusted: `DashMap::remove` takes the entry of the key out and returns it,
/// if there is one, and leaves the other entries as they are.
#[verifier::external_body]
pub(crate) fn hashes_remove(
    m: &mut dashmap::DashMap<NodeKey, u64, rustc_hash::FxBuildHasher>,
    path: &str,
    id: usize,
) -> (taken: Option<u64>)
    ensures
        hashes_of(*final(m)) == hashes_of(*old(m)).remove((path@, id)),
        taken is Some <==> hashes_of(*old(m)).dom().contains((path@, id)),
        taken matches Some(fingerprint) ==> fingerprint == hashes_of(*old(m))[(path@, id)],
{
    m.remove(&(path.to_string(), id)).map(|entry| entry.1)
}

/// Trusted: `DashMap::get` finds the value of the key, if there is one; the
/// wrapper hands out a copy of it.
#[verifier::external_body]
pub(crate) fn hashes_get(
    m: &dashmap::DashMap<NodeKey, u64, rustc_hash::FxBuildHasher>,
    path: &str,
    id: usize,
) -> (found: Option<u64>)
    ensures
        found is Some <==> hashes_of(*m).dom().contains((path@, id)),
        found matches Some(fingerprint) ==> fingerprint == hashes_of(*m)[(path@, id)],
{
    m.get(&(path.to_string(), id)).map(|entry| *entry.value())
}

/// Trusted: `DashSet::with_hasher` makes an empty set.
#[verifier::external_body]
pub(crate) fn members_new() -> (s: dashmap::DashSet<NodeKey, rustc_hash::FxBuildHasher>)
    ensures
        members_of(s) =~= Set::empty(),
{
    dashmap::DashSet::with_hasher(rustc_hash::FxBuildHasher)
}

/// Trusted: `DashSet::insert` adds the key to the set.
#[verifier::external_body]
pub(crate) fn members_insert(
    s: &mut dashmap::DashSet<NodeKey, rustc_hash::FxBuildHasher>,
    path: &str,
    id: usize,
)
    ensures
        members_of(*final(s)) == members_of(*old(s)).insert((path@, id)),
{
    s.insert((path.to_string(), id));
}

/// Trusted: `DashSet::contains` tells whether the key is in the set.
#[verifier::external_body]
pub(crate) fn members_contains(
    s: &dashmap::DashSet<NodeKey, rustc_hash::FxBuildHasher>,
    path: &str,
    id: usize,
) -> (found: bool)
    ensures
        found == members_of(*s).contains((path@, id)),
{
    s.contains(&(path.to_string(), id))
}

} // verus!
