//! Insertion of files into the engine.

use vstd::prelude::*;
use std::sync::Arc;
use crate::engine::{hashes_cover, is_node_of, wanted, Engine};
use crate::languages::LanguageView;
use crate::merkle::{fingerprint, registered, registrations};
use crate::syntax::tree_of_text;
use crate::node::NodeView;
use crate::tree::IndexedTree;

verus! {

impl Engine {
    /// Registers the clone candidates of `tree`, which stands in the engine
    /// already and has nothing registered yet: each is listed under its
    /// fingerprint, and the fingerprint is recorded for it.
    pub(crate) fn merkle_hash(&mut self, indexed_tree: &Arc<IndexedTree>)
        requires
            old(self).linked(),
            indexed_tree.wf(),
            old(self).trees().dom().contains(indexed_tree@.last().path),
            old(self).trees()[indexed_tree@.last().path] == indexed_tree@,
            hashes_cover(
                old(self).language(),
                old(self).trees(),
                old(self).node_hash(),
                indexed_tree@.last().path,
                0,
                0,
            ),
        ensures
            final(self).wf(),
            final(self).trees() == old(self).trees(),
            final(self).language() == old(self).language(),
    {
        let ghost path = indexed_tree@.last().path;
        let ghost nodes = indexed_tree@;
        let found = registrations(&self.language, indexed_tree);
        let total = indexed_tree.len();
        let mut place: usize = 0;
        while place < total
            invariant
                place <= total,
                total == nodes.len(),
                nodes == indexed_tree@,
                path == nodes.last().path,
                indexed_tree.wf(),
                self.linked(),
                self.trees() == old(self).trees(),
                self.language() == old(self).language(),
                self.trees().dom().contains(path),
                self.trees()[path] == nodes,
                found@.len() == total,
                forall|i: int|
                    0 <= i < total ==> found@[i] == crate::merkle::registration(
                        self.language(),
                        nodes,
                        i,
                    ),
                hashes_cover(
                    self.language(),
                    self.trees(),
                    self.node_hash(),
                    path,
                    0,
                    place as int,
                ),
            decreases total - place,
        {
            let ghost hashes = self.node_hash();
            let ghost index = self.hash_index();
            let ghost trees = self.trees();
            let ghost lang = self.language();
            match found[place] {
                Some(hash) => {
                    let node = indexed_tree.node(place);
                    proof {
                        assert(crate::tree::node_ok(nodes, place as int));
                        assert(node@.key() == (path, place));
                        assert(!wanted(lang, trees, node@.key(), path, 0, place as int));
                    }
                    self.register(node, hash);
                    proof {
                        let index2 = self.hash_index();
                        assert forall|h: u64, j: int|
                            index2.dom().contains(h) && 0 <= j < index2[h].len() implies is_node_of(
                            trees,
                            #[trigger] index2[h][j],
                        ) by {
                            if h == hash && j == index2[h].len() - 1 {
                            } else {
                                assert(is_node_of(trees, index[h][j]));
                            }
                        }
                    }
                },
                None => {},
            }
            proof {
                let hashes2 = self.node_hash();
                assert forall|key: (Seq<char>, usize)|
                    (#[trigger] hashes2.dom().contains(key) <==> wanted(
                        lang,
                        trees,
                        key,
                        path,
                        0,
                        place + 1,
                    )) && (hashes2.dom().contains(key) ==> hashes2[key] == fingerprint(
                        lang,
                        trees[key.0],
                        key.1 as int,
                    )) by {
                    assert(hashes.dom().contains(key) <==> wanted(
                        lang,
                        trees,
                        key,
                        path,
                        0,
                        place as int,
                    ));
                }
            }
            place = place + 1;
        }
        proof {
            let hashes = self.node_hash();
            let trees = self.trees();
            let lang = self.language();
            assert forall|key: (Seq<char>, usize)|
                (#[trigger] hashes.dom().contains(key) <==> trees.dom().contains(key.0)
                    && registered(lang, trees[key.0], key.1 as int)) && (hashes.dom().contains(key)
                    ==> hashes[key] == fingerprint(lang, trees[key.0], key.1 as int)) by {
                assert(hashes.dom().contains(key) <==> wanted(
                    lang,
                    trees,
                    key,
                    path,
                    0,
                    total as int,
                ));
            }
        }
    }

    /// Puts an indexed tree into the engine, under the path that the tree
    /// carries and in place of the tree that was there.
    pub fn insert_tree(&mut self, tree: IndexedTree)
        requires
            old(self).wf(),
            tree.wf(),
        ensures
            final(self).wf(),
            final(self).language() == old(self).language(),
            final(self).trees() == old(self).trees().insert(tree@.last().path, tree@),
    {
        self.insert_shared(Arc::new(tree));
    }

    /// Puts each tree of `batch` into the engine, one after the other.
    pub fn insert_trees(&mut self, batch: &Vec<Arc<IndexedTree>>)
        requires
            old(self).wf(),
            forall|i: int| 0 <= i < batch@.len() ==> (#[trigger] batch@[i]).wf(),
        ensures
            final(self).wf(),
            final(self).language() == old(self).language(),
            final(self).trees() == with_trees(old(self).trees(), tree_views(batch@)),
    {
        let mut at: usize = 0;
        assert(tree_views(batch@).take(0) =~= Seq::empty());
        while at < batch.len()
            invariant
                at <= batch@.len(),
                self.wf(),
                self.language() == old(self).language(),
                forall|i: int| 0 <= i < batch@.len() ==> (#[trigger] batch@[i]).wf(),
                self.trees() == with_trees(old(self).trees(), tree_views(batch@).take(at as int)),
            decreases batch@.len() - at,
        {
            self.insert_shared(crate::node::share(&batch[at]));
            proof {
                let views = tree_views(batch@);
                assert(views.take(at + 1).drop_last() =~= views.take(at as int));
                assert(views.take(at + 1).last() == batch@[at as int]@);
            }
            at = at + 1;
        }
        assert(tree_views(batch@).take(batch@.len() as int) =~= tree_views(batch@));
    }

    /// Puts a shared indexed tree into the engine, under the path that the
    /// tree carries and in place of the tree that was there: what the engine
    /// held of the old tree leaves the index, then the clone candidates of
    /// the new tree are registered.
    pub fn insert_shared(&mut self, tree: Arc<IndexedTree>)
        requires
            old(self).wf(),
            tree.wf(),
        ensures
            final(self).wf(),
            final(self).language() == old(self).language(),
            final(self).trees() == old(self).trees().insert(tree@.last().path, tree@),
    {
        let root = tree.root_node();
        let path = root.shared_path();
        let ghost before = self.trees();
        self.remove(path.as_str());
        let ghost rest = self.trees();
        let ghost index = self.hash_index();
        let ghost hashes = self.node_hash();
        let ghost lang = self.language();
        let shared = tree;
        self.put_tree(path.as_str().to_owned(), crate::node::share(&shared));
        proof {
            let trees = self.trees();
            assert(trees =~= before.insert(path@, tree@));
            assert forall|h: u64, j: int|
                index.dom().contains(h) && 0 <= j < index[h].len() implies is_node_of(
                trees,
                #[trigger] index[h][j],
            ) by {
                assert(is_node_of(rest, index[h][j]));
            }
            assert forall|key: (Seq<char>, usize)|
                (#[trigger] hashes.dom().contains(key) <==> wanted(lang, trees, key, path@, 0, 0))
                    && (hashes.dom().contains(key) ==> hashes[key] == fingerprint(
                    lang,
                    trees[key.0],
                    key.1 as int,
                )) by {
                assert(hashes.dom().contains(key) <==> rest.dom().contains(key.0) && registered(
                    lang,
                    rest[key.0],
                    key.1 as int,
                ));
            }
        }
        self.merkle_hash(&shared);
    }

    /// Parses and indexes `source` and puts the tree into the engine under
    /// `path`, in place of the tree that was there. The tree is the one that
    /// the parser and the highlight query of the language make of the text.
    /// Where the profile cannot parse, the file at `path` is removed instead,
    /// and the result says so.
    pub fn insert(&mut self, path: Arc<String>, source: Arc<String>) -> (done: Option<()>)
        requires
            old(self).wf(),
        ensures
            final(self).wf(),
            final(self).language() == old(self).language(),
            done is Some <==> old(self).language().can_parse,
            done is None ==> final(self).trees() == old(self).trees().remove(path@),
            done is Some ==> final(self).trees().dom().contains(path@),
            done is Some ==> final(self).trees() == old(self).trees().insert(
                path@,
                final(self).trees()[path@],
            ),
            done is Some ==> final(self).trees()[path@].last().source == source@,
            done is Some && old(self).language().own_query ==> final(self).trees()[path@]
                == tree_of_text(old(self).language().dialect, path@, source@),
    {
        let parsed = self.profile().parse(crate::node::share(&path), source);
        self.insert_parsed(path, parsed)
    }

    /// Puts into the engine what the parser made of the file at `path`: its
    /// tree, in place of the tree that was there; or nothing, in which case
    /// the file is removed and the result says so.
    pub fn insert_parsed(&mut self, path: Arc<String>, parsed: Option<IndexedTree>) -> (done: Option<()>)
        requires
            old(self).wf(),
            parsed matches Some(tree) ==> tree.wf() && tree@.last().path == path@,
        ensures
            final(self).wf(),
            final(self).language() == old(self).language(),
            done is Some <==> parsed is Some,
            final(self).trees() == match parsed {
                Some(tree) => old(self).trees().insert(path@, tree@),
                None => old(self).trees().remove(path@),
            },
    {
        match parsed {
            Some(tree) => {
                self.insert_tree(tree);
                Some(())
            },
            None => {
                self.remove(path.as_str());
                None
            },
        }
    }

    /// Inserts each file of `sources`, a list of paths with their texts, one
    /// after the other, each as `insert` does. Of a path that is named more
    /// than once the last text counts.
    pub fn insert_many(&mut self, sources: Vec<(Arc<String>, Arc<String>)>)
        requires
            old(self).wf(),
        ensures
            final(self).wf(),
            final(self).language() == old(self).language(),
            batch_put(old(self).language(), old(self).trees(), final(self).trees(), sources@),
    {
        let ghost lang = self.language();
        let ghost start = self.trees();
        let mut at: usize = 0;
        while at < sources.len()
            invariant
                at <= sources@.len(),
                self.wf(),
                self.language() == lang,
                forall|path: Seq<char>|
                    !named_in(sources@, path) ==> (self.trees().dom().contains(path)
                        <==> #[trigger] start.dom().contains(path)),
                forall|path: Seq<char>|
                    !named_in(sources@, path) && #[trigger] start.dom().contains(path)
                        ==> self.trees()[path] == start[path],
                forall|i: int|
                    last_named(sources@, at as int, i) ==> (self.trees().dom().contains(
                        (#[trigger] sources@[i]).0@,
                    ) <==> lang.can_parse),
                forall|i: int|
                    last_named(sources@, at as int, i) && self.trees().dom().contains(
                        (#[trigger] sources@[i]).0@,
                    ) ==> self.trees()[sources@[i].0@].last().source == sources@[i].1@,
                lang.own_query ==> forall|i: int|
                    last_named(sources@, at as int, i) && self.trees().dom().contains(
                        (#[trigger] sources@[i]).0@,
                    ) ==> self.trees()[sources@[i].0@] == tree_of_text(
                        lang.dialect,
                        sources@[i].0@,
                        sources@[i].1@,
                    ),
            decreases sources@.len() - at,
        {
            let path = crate::node::share(&sources[at].0);
            let source = crate::node::share(&sources[at].1);
            assert(named_in(sources@, path@)) by {
                assert(sources@[at as int].0@ == path@);
            }
            let ghost before = self.trees();
            let _ = self.insert(path, source);
            proof {
                let next: int = at + 1;
                assert forall|i: int| last_named(sources@, next, i) implies (
                self.trees().dom().contains((#[trigger] sources@[i]).0@) <==> lang.can_parse) && (self.trees().dom().contains(sources@[i].0@)
                    ==> self.trees()[sources@[i].0@].last().source == sources@[i].1@) && (
                lang.own_query && self.trees().dom().contains(sources@[i].0@)
                    ==> self.trees()[sources@[i].0@] == tree_of_text(
                    lang.dialect,
                    sources@[i].0@,
                    sources@[i].1@,
                )) by {
                    if i < at {
                        assert(sources@[at as int].0@ != sources@[i].0@);
                        assert(last_named(sources@, at as int, i));
                        assert(before.dom().contains(sources@[i].0@) <==> lang.can_parse);
                    }
                }
            }
            at = at + 1;
        }
    }
}

/// `after` is what an engine of the profile `lang` holds after each file of
/// `sources` was inserted into `before`: a file that is not named is as it
/// was; a named file is there exactly where the profile can parse, and its
/// tree is of the last text under its path.
pub open spec fn batch_put(
    lang: LanguageView,
    before: Map<Seq<char>, Seq<NodeView>>,
    after: Map<Seq<char>, Seq<NodeView>>,
    sources: Seq<(Arc<String>, Arc<String>)>,
) -> bool {
    &&& forall|path: Seq<char>|
        !named_in(sources, path) ==> (after.dom().contains(path) <==> #[trigger] before.dom().contains(
            path,
        ))
    &&& forall|path: Seq<char>|
        !named_in(sources, path) && #[trigger] before.dom().contains(path) ==> after[path]
            == before[path]
    &&& forall|i: int|
        last_named(sources, sources.len() as int, i) ==> (after.dom().contains(
            (#[trigger] sources[i]).0@,
        ) <==> lang.can_parse)
    &&& forall|i: int|
        last_named(sources, sources.len() as int, i) && after.dom().contains(
            (#[trigger] sources[i]).0@,
        ) ==> after[sources[i].0@].last().source == sources[i].1@
    &&& lang.own_query ==> forall|i: int|
        last_named(sources, sources.len() as int, i) && after.dom().contains(
            (#[trigger] sources[i]).0@,
        ) ==> after[sources[i].0@] == tree_of_text(lang.dialect, sources[i].0@, sources[i].1@)
}

/// The source at `i` is, among the first `upto` of `sources`, the last of
/// its path.
pub open spec fn last_named(sources: Seq<(Arc<String>, Arc<String>)>, upto: int, i: int) -> bool {
    &&& 0 <= i < upto <= sources.len()
    &&& forall|j: int| i < j < upto ==> (#[trigger] sources[j]).0@ != sources[i].0@
}

/// The mathematical content of each tree.
pub open spec fn tree_views(batch: Seq<Arc<IndexedTree>>) -> Seq<Seq<NodeView>> {
    Seq::new(batch.len(), |i: int| batch[i]@)
}

/// The trees of an engine after each tree of `batch` was put in, one after
/// the other, each under the path that it carries.
pub open spec fn with_trees(trees: Map<Seq<char>, Seq<NodeView>>, batch: Seq<Seq<NodeView>>) -> Map<
    Seq<char>,
    Seq<NodeView>,
>
    decreases batch.len(),
{
    if batch.len() == 0 {
        trees
    } else {
        with_trees(trees, batch.drop_last()).insert(batch.last().last().path, batch.last())
    }
}

/// One of `sources` has the path `path`.
pub open spec fn named_in(sources: Seq<(Arc<String>, Arc<String>)>, path: Seq<char>) -> bool {
    exists|i: int| 0 <= i < sources.len() && (#[trigger] sources[i]).0@ == path
}

} // verus!
