//! The engine: the trees of the files it was given, the index from
//! fingerprints to the registered subtrees, and its inverse.

pub mod detect;
pub mod insert;
pub mod laws;
pub mod remove;
pub mod store;

use vstd::prelude::*;
use std::sync::Arc;
use crate::engine::store::{
    buckets_entries, buckets_insert, buckets_new, buckets_of, buckets_remove, hashes_get, hashes_insert,
    hashes_new, hashes_of, hashes_remove, node_views, random_state, trees_get, trees_insert,
    trees_new, trees_of, trees_paths, trees_remove, Bucket, NodeId, NodeKey,
};
use crate::languages::{LanguageView, SupportedLanguage};
use crate::merkle::{fingerprint, registered};
use crate::node::{IndexedNode, NodeView};
use crate::text::str_eq;
use crate::tree::{tree_ok, IndexedTree};

verus! {

/// Every tree is laid out in post-order and stands under its own path.
pub open spec fn trees_ok(trees: Map<Seq<char>, Seq<NodeView>>) -> bool {
    forall|path: Seq<char>| #[trigger]
        trees.dom().contains(path) ==> tree_ok(trees[path]) && trees[path].last().path == path
}

/// The `j`-th node under the fingerprint `h` has `h` as its recorded
/// fingerprint.
pub open spec fn entry_ok(
    index: Map<u64, Seq<NodeView>>,
    hashes: Map<NodeId, u64>,
    h: u64,
    j: int,
) -> bool {
    hashes.dom().contains(index[h][j].key()) && hashes[index[h][j].key()] == h
}

/// The node `key` stands in the index under its recorded fingerprint.
pub open spec fn listed(index: Map<u64, Seq<NodeView>>, hashes: Map<NodeId, u64>, key: NodeId) -> bool {
    index.dom().contains(hashes[key]) && exists|j: int|
        0 <= j < index[hashes[key]].len() && (#[trigger] index[hashes[key]][j]).key() == key
}

/// The index and the recorded fingerprints are inverse to each other: no
/// fingerprint has an empty list, every listed node has the fingerprint of
/// its list recorded, no node is listed twice, and every node with a recorded
/// fingerprint is listed under it.
pub open spec fn index_ok(index: Map<u64, Seq<NodeView>>, hashes: Map<NodeId, u64>) -> bool {
    &&& forall|h: u64| #[trigger] index.dom().contains(h) ==> index[h].len() > 0
    &&& forall|h: u64, j: int|
        index.dom().contains(h) && 0 <= j < index[h].len() ==> #[trigger] entry_ok(
            index,
            hashes,
            h,
            j,
        )
    &&& forall|h: u64, i: int, j: int|
        index.dom().contains(h) && 0 <= i < j < index[h].len() ==> (#[trigger] index[h][i]).key()
            != (#[trigger] index[h][j]).key()
    &&& forall|key: NodeId| #[trigger] hashes.dom().contains(key) ==> listed(index, hashes, key)
}

/// Every listed node is the node of that path and place in `trees`.
pub open spec fn resolved(
    trees: Map<Seq<char>, Seq<NodeView>>,
    index: Map<u64, Seq<NodeView>>,
) -> bool {
    forall|h: u64, j: int|
        index.dom().contains(h) && 0 <= j < index[h].len() ==> is_node_of(
            trees,
            #[trigger] index[h][j],
        )
}

/// `node` is the node of its path and place in `trees`.
pub open spec fn is_node_of(trees: Map<Seq<char>, Seq<NodeView>>, node: NodeView) -> bool {
    trees.dom().contains(node.path) && node.id < trees[node.path].len() && trees[node.path][node.id as int]
        == node
}

/// Every listed node of `index` was listed in `before`, under the same
/// fingerprint.
pub open spec fn drawn_from(
    index: Map<u64, Seq<NodeView>>,
    before: Map<u64, Seq<NodeView>>,
) -> bool {
    forall|h: u64, j: int|
        index.dom().contains(h) && 0 <= j < index[h].len() ==> before.dom().contains(h)
            && before[h].contains(#[trigger] index[h][j])
}

/// The node `key` is one that the hasher registers in `trees`, where the
/// file `path` counts with its places from `lo` up to `hi` only.
pub open spec fn wanted(
    lang: LanguageView,
    trees: Map<Seq<char>, Seq<NodeView>>,
    key: NodeId,
    path: Seq<char>,
    lo: int,
    hi: int,
) -> bool {
    &&& trees.dom().contains(key.0)
    &&& registered(lang, trees[key.0], key.1 as int)
    &&& key.0 == path ==> lo <= key.1 < hi
}

/// The recorded fingerprints are those of the nodes that the hasher
/// registers in `trees`, where the file `path` counts with its places from
/// `lo` up to `hi` only.
pub open spec fn hashes_cover(
    lang: LanguageView,
    trees: Map<Seq<char>, Seq<NodeView>>,
    hashes: Map<NodeId, u64>,
    path: Seq<char>,
    lo: int,
    hi: int,
) -> bool {
    forall|key: NodeId|
        (#[trigger] hashes.dom().contains(key) <==> wanted(lang, trees, key, path, lo, hi)) && (
        hashes.dom().contains(key) ==> hashes[key] == fingerprint(
            lang,
            trees[key.0],
            key.1 as int,
        ))
}

/// The recorded fingerprints are those of the nodes that the hasher
/// registers in `trees`.
pub open spec fn hashes_match(
    lang: LanguageView,
    trees: Map<Seq<char>, Seq<NodeView>>,
    hashes: Map<NodeId, u64>,
) -> bool {
    forall|key: NodeId|
        (#[trigger] hashes.dom().contains(key) <==> trees.dom().contains(key.0) && registered(
            lang,
            trees[key.0],
            key.1 as int,
        )) && (hashes.dom().contains(key) ==> hashes[key] == fingerprint(
            lang,
            trees[key.0],
            key.1 as int,
        ))
}

/// The list of the fingerprint `h`; empty where it has none.
pub open spec fn bucket_of(index: Map<u64, Seq<NodeView>>, h: u64) -> Seq<NodeView> {
    if index.dom().contains(h) {
        index[h]
    } else {
        Seq::empty()
    }
}

/// The index after `node` is listed under `h`.
pub open spec fn with_entry(index: Map<u64, Seq<NodeView>>, h: u64, node: NodeView) -> Map<
    u64,
    Seq<NodeView>,
> {
    index.insert(h, bucket_of(index, h).push(node))
}

/// The index after the `j`-th node under `h` is taken out: without the
/// fingerprint, where the node was the only one.
pub open spec fn without_entry(index: Map<u64, Seq<NodeView>>, h: u64, j: int) -> Map<
    u64,
    Seq<NodeView>,
> {
    if index[h].len() == 1 {
        index.remove(h)
    } else {
        index.insert(h, index[h].remove(j))
    }
}

/// Listing a node without a recorded fingerprint, and recording the
/// fingerprint, keeps the index and the records inverse to each other.
pub proof fn lemma_with_entry(
    index: Map<u64, Seq<NodeView>>,
    hashes: Map<NodeId, u64>,
    h: u64,
    node: NodeView,
)
    requires
        index_ok(index, hashes),
        !hashes.dom().contains(node.key()),
    ensures
        index_ok(with_entry(index, h, node), hashes.insert(node.key(), h)),
{
    let index2 = with_entry(index, h, node);
    let hashes2 = hashes.insert(node.key(), h);
    let old_bucket = bucket_of(index, h);
    assert forall|g: u64, j: int|
        index2.dom().contains(g) && 0 <= j < index2[g].len() implies #[trigger] entry_ok(
        index2,
        hashes2,
        g,
        j,
    ) by {
        if g == h && j == old_bucket.len() {
        } else {
            assert(entry_ok(index, hashes, g, j));
        }
    }
    assert forall|g: u64, i: int, j: int|
        index2.dom().contains(g) && 0 <= i < j < index2[g].len() implies (#[trigger] index2[g][i]).key()
        != (#[trigger] index2[g][j]).key() by {
        if g == h && j == old_bucket.len() {
            assert(entry_ok(index, hashes, g, i));
        } else {
            assert(index[g][i].key() != index[g][j].key());
        }
    }
    assert forall|key: NodeId| #[trigger] hashes2.dom().contains(key) implies listed(
        index2,
        hashes2,
        key,
    ) by {
        if key == node.key() {
            assert(hashes2[key] == h);
            assert(index2[hashes2[key]][old_bucket.len() as int].key() == key);
        } else {
            assert(listed(index, hashes, key));
            let g = hashes[key];
            let j = choose|j: int| 0 <= j < index[g].len() && (#[trigger] index[g][j]).key() == key;
            assert(hashes2[key] == g);
            assert(index2[hashes2[key]][j].key() == key);
        }
    }
}

/// Taking a listed node out, and dropping its record, keeps the index and
/// the records inverse to each other.
pub proof fn lemma_without_entry(
    index: Map<u64, Seq<NodeView>>,
    hashes: Map<NodeId, u64>,
    h: u64,
    j: int,
)
    requires
        index_ok(index, hashes),
        index.dom().contains(h),
        0 <= j < index[h].len(),
    ensures
        index_ok(without_entry(index, h, j), hashes.remove(index[h][j].key())),
        drawn_from(without_entry(index, h, j), index),
{
    let key = index[h][j].key();
    let index2 = without_entry(index, h, j);
    let hashes2 = hashes.remove(key);
    let bucket = index[h];
    assert(entry_ok(index, hashes, h, j));
    assert forall|g: u64, i: int| index2.dom().contains(g) && 0 <= i < index2[g].len() implies {
        &&& #[trigger] entry_ok(index2, hashes2, g, i)
        &&& index.dom().contains(g)
        &&& index[g].contains(index2[g][i])
    } by {
        if g == h {
            let from = if i < j {
                i
            } else {
                i + 1
            };
            assert(index2[g][i] == bucket[from]);
            assert(entry_ok(index, hashes, g, from));
            if i < j {
                assert(bucket[i].key() != bucket[j].key());
            } else {
                assert(bucket[j].key() != bucket[i + 1].key());
            }
        } else {
            assert(entry_ok(index, hashes, g, i));
            assert(index2[g][i] == index[g][i]);
        }
    }
    assert forall|g: u64, a: int, b: int|
        index2.dom().contains(g) && 0 <= a < b < index2[g].len() implies (#[trigger] index2[g][a]).key()
        != (#[trigger] index2[g][b]).key() by {
        if g == h {
            let from_a = if a < j {
                a
            } else {
                a + 1
            };
            let from_b = if b < j {
                b
            } else {
                b + 1
            };
            assert(bucket[from_a].key() != bucket[from_b].key());
        } else {
            assert(index[g][a].key() != index[g][b].key());
        }
    }
    assert forall|k: NodeId| #[trigger] hashes2.dom().contains(k) implies listed(
        index2,
        hashes2,
        k,
    ) by {
        assert(listed(index, hashes, k));
        let g = hashes[k];
        let i = choose|i: int| 0 <= i < index[g].len() && (#[trigger] index[g][i]).key() == k;
        assert(hashes2[k] == g);
        if g == h {
            assert(i != j);
            let to = if i < j {
                i
            } else {
                i - 1
            };
            assert(index2[g][to] == bucket[i]);
            assert(index2[hashes2[k]][to].key() == k);
        } else {
            assert(index2[hashes2[k]][i].key() == k);
        }
    }
}

/// The duplicate-detection engine of one language.
pub struct Engine {
    language: SupportedLanguage,
    tree_map: dashmap::DashMap<String, Arc<IndexedTree>, ahash::RandomState>,
    hash_map: dashmap::DashMap<u64, Vec<Arc<IndexedNode>>, rustc_hash::FxBuildHasher>,
    node_hash_map: dashmap::DashMap<NodeKey, u64, rustc_hash::FxBuildHasher>,
}

impl Engine {
    /// The language profile.
    pub closed spec fn language(&self) -> LanguageView {
        self.language@
    }

    /// The indexed trees, by the path of their file.
    pub closed spec fn trees(&self) -> Map<Seq<char>, Seq<NodeView>> {
        trees_of(self.tree_map)
    }

    /// The index: the registered nodes, by their fingerprint.
    pub closed spec fn hash_index(&self) -> Map<u64, Seq<NodeView>> {
        buckets_of(self.hash_map)
    }

    /// The inverse of the index: the fingerprint of each registered node.
    pub closed spec fn node_hash(&self) -> Map<NodeId, u64> {
        hashes_of(self.node_hash_map)
    }

    /// The index and its inverse agree, and every listed node is a node of
    /// one of the trees.
    pub open spec fn linked(&self) -> bool {
        &&& trees_ok(self.trees())
        &&& index_ok(self.hash_index(), self.node_hash())
        &&& resolved(self.trees(), self.hash_index())
    }

    /// The state is consistent: the trees are well formed, and the index and
    /// its inverse hold exactly the nodes that the hasher registers in them,
    /// each under its fingerprint.
    pub open spec fn wf(&self) -> bool {
        &&& self.linked()
        &&& hashes_match(self.language(), self.trees(), self.node_hash())
    }

    /// An engine for `language` that holds no file.
    pub fn new(language: SupportedLanguage) -> (engine: Self)
        ensures
            engine.wf(),
            engine.language() == language@,
            engine.trees() =~= Map::empty(),
            engine.hash_index() =~= Map::empty(),
            engine.node_hash() =~= Map::empty(),
    {
        Self {
            language,
            tree_map: trees_new(random_state()),
            hash_map: buckets_new(),
            node_hash_map: hashes_new(),
        }
    }

    /// The language profile.
    pub fn profile(&self) -> (language: &SupportedLanguage)
        ensures
            language@ == self.language(),
    {
        &self.language
    }

    /// The identifier of the engine's language.
    pub fn language_id(&self) -> (id: &'static str)
        ensures
            id@ == self.language().id(),
    {
        self.language.language_id()
    }

    /// The tree of the file at `path`, if the engine holds one.
    pub fn tree(&self, path: &str) -> (tree: Option<Arc<IndexedTree>>)
        ensures
            tree is Some <==> self.trees().dom().contains(path@),
            tree matches Some(t) ==> t@ == self.trees()[path@],
    {
        trees_get(&self.tree_map, path)
    }

    /// The fingerprint that is recorded for the node at place `id` of the
    /// file at `path`, if the node is registered.
    pub fn node_fingerprint(&self, path: &str, id: usize) -> (fingerprint: Option<u64>)
        ensures
            fingerprint is Some <==> self.node_hash().dom().contains((path@, id)),
            fingerprint matches Some(h) ==> h == self.node_hash()[(path@, id)],
    {
        hashes_get(&self.node_hash_map, path, id)
    }

    /// The paths of the files that the engine holds, in no particular order.
    pub fn paths(&self) -> (paths: Vec<String>)
        ensures
            forall|i: int|
                0 <= i < paths@.len() ==> self.trees().dom().contains(#[trigger] paths@[i]@),
            forall|path: Seq<char>| #[trigger]
                self.trees().dom().contains(path) ==> exists|i: int|
                    0 <= i < paths@.len() && #[trigger] paths@[i]@ == path,
    {
        trees_paths(&self.tree_map)
    }

    /// The index as a list: each fingerprint once, with its nodes, in no
    /// particular order.
    pub fn buckets(&self) -> (entries: Vec<Bucket>)
        ensures
            forall|i: int|
                0 <= i < entries@.len() ==> self.hash_index().dom().contains(
                    (#[trigger] entries@[i]).fingerprint,
                ) && node_views(entries@[i].nodes@) == self.hash_index()[entries@[i].fingerprint],
            forall|i: int, j: int|
                0 <= i < j < entries@.len() ==> (#[trigger] entries@[i]).fingerprint
                    != (#[trigger] entries@[j]).fingerprint,
            forall|fingerprint: u64| #[trigger]
                self.hash_index().dom().contains(fingerprint) ==> exists|i: int|
                    0 <= i < entries@.len() && (#[trigger] entries@[i]).fingerprint
                        == fingerprint,
    {
        buckets_entries(&self.hash_map)
    }

    /// Puts `tree` under `path`, in place of the tree that was there.
    pub(crate) fn put_tree(&mut self, path: String, tree: Arc<IndexedTree>)
        ensures
            final(self).trees() == old(self).trees().insert(path@, tree@),
            final(self).language() == old(self).language(),
            final(self).hash_index() == old(self).hash_index(),
            final(self).node_hash() == old(self).node_hash(),
    {
        trees_insert(&mut self.tree_map, path, tree);
    }

    /// Takes the tree under `path` out, if there is one.
    pub(crate) fn drop_tree(&mut self, path: &str)
        ensures
            final(self).trees() == old(self).trees().remove(path@),
            final(self).language() == old(self).language(),
            final(self).hash_index() == old(self).hash_index(),
            final(self).node_hash() == old(self).node_hash(),
    {
        let _ = trees_remove(&mut self.tree_map, path);
    }

    /// Lists `node` under `fingerprint` and records the fingerprint for it.
    pub(crate) fn register(&mut self, node: Arc<IndexedNode>, fingerprint: u64)
        requires
            index_ok(old(self).hash_index(), old(self).node_hash()),
            !old(self).node_hash().dom().contains(node@.key()),
        ensures
            final(self).trees() == old(self).trees(),
            final(self).language() == old(self).language(),
            final(self).hash_index() == with_entry(old(self).hash_index(), fingerprint, node@),
            final(self).node_hash() == old(self).node_hash().insert(node@.key(), fingerprint),
            index_ok(final(self).hash_index(), final(self).node_hash()),
    {
        let ghost index = self.hash_index();
        let mut bucket = match buckets_remove(&mut self.hash_map, fingerprint) {
            Some(bucket) => bucket,
            None => Vec::new(),
        };
        assert(node_views(bucket@) =~= bucket_of(index, fingerprint));
        let ghost views = node_views(bucket@);
        hashes_insert(&mut self.node_hash_map, node.path(), node.id(), fingerprint);
        bucket.push(node);
        assert(node_views(bucket@) =~= views.push(node@));
        buckets_insert(&mut self.hash_map, fingerprint, bucket);
        proof {
            assert(self.hash_index() =~= with_entry(index, fingerprint, node@));
            lemma_with_entry(index, old(self).node_hash(), fingerprint, node@);
        }
    }

    /// Drops the record of the node at place `id` of the file `path`, and
    /// takes the node out of the index; a fingerprint whose last node leaves
    /// leaves with it.
    pub(crate) fn unregister(&mut self, path: &str, id: usize)
        requires
            index_ok(old(self).hash_index(), old(self).node_hash()),
        ensures
            final(self).trees() == old(self).trees(),
            final(self).language() == old(self).language(),
            final(self).node_hash() == old(self).node_hash().remove((path@, id)),
            index_ok(final(self).hash_index(), final(self).node_hash()),
            drawn_from(final(self).hash_index(), old(self).hash_index()),
    {
        let ghost index = self.hash_index();
        let ghost hashes = self.node_hash();
        let ghost key = (path@, id);
        match hashes_remove(&mut self.node_hash_map, path, id) {
            None => {
                assert(self.node_hash() =~= hashes);
                assert forall|h: u64, j: int|
                    index.dom().contains(h) && 0 <= j < index[h].len() implies index[h].contains(
                    #[trigger] index[h][j],
                ) by {}
            },
            Some(fingerprint) => {
                assert(listed(index, hashes, key));
                match buckets_remove(&mut self.hash_map, fingerprint) {
                    None => {},
                    Some(bucket) => {
                        let mut bucket = bucket;
                        let ghost views = node_views(bucket@);
                        let mut at: usize = 0;
                        while at < bucket.len() && !(bucket[at].id() == id && str_eq(
                            bucket[at].path(),
                            path,
                        ))
                            invariant
                                at <= bucket@.len(),
                                key == (path@, id),
                                views == node_views(bucket@),
                                forall|j: int| 0 <= j < at ==> (#[trigger] views[j]).key() != key,
                            decreases bucket@.len() - at,
                        {
                            assert(views[at as int] == bucket@[at as int]@);
                            at = at + 1;
                        }
                        assert(at < bucket@.len());
                        assert(views[at as int].key() == key);
                        let _ = bucket.remove(at);
                        assert(node_views(bucket@) =~= views.remove(at as int));
                        if bucket.len() > 0 {
                            buckets_insert(&mut self.hash_map, fingerprint, bucket);
                        }
                        proof {
                            assert(self.hash_index() =~= without_entry(
                                index,
                                fingerprint,
                                at as int,
                            ));
                            lemma_without_entry(index, hashes, fingerprint, at as int);
                        }
                    },
                }
            },
        }
    }
}

} // verus!
