//! Removal of files from the engine.

use vstd::prelude::*;
use crate::engine::{entry_ok, hashes_cover, is_node_of, wanted, Engine};

verus! {

/// The paths of `paths`, as a set.
pub open spec fn path_set(paths: Seq<String>) -> Set<Seq<char>> {
    Set::new(|path: Seq<char>| exists|i: int| 0 <= i < paths.len() && (#[trigger] paths[i])@ == path)
}

impl Engine {
    /// Takes out of the index and its inverse whatever the file at `path`,
    /// a tree of `total` nodes, has there. Nothing of another file is
    /// touched.
    pub(crate) fn remove_merkle_hashes(&mut self, path: &str, total: usize)
        requires
            old(self).wf(),
            old(self).trees().dom().contains(path@),
            total == old(self).trees()[path@].len(),
        ensures
            final(self).linked(),
            final(self).trees() == old(self).trees(),
            final(self).language() == old(self).language(),
            hashes_cover(
                final(self).language(),
                final(self).trees(),
                final(self).node_hash(),
                path@,
                total as int,
                total as int,
            ),
    {
        let mut place: usize = 0;
        while place < total
            invariant
                place <= total,
                self.linked(),
                self.trees() == old(self).trees(),
                self.language() == old(self).language(),
                self.trees().dom().contains(path@),
                total == self.trees()[path@].len(),
                hashes_cover(
                    self.language(),
                    self.trees(),
                    self.node_hash(),
                    path@,
                    place as int,
                    total as int,
                ),
            decreases total - place,
        {
            let ghost index = self.hash_index();
            let ghost hashes = self.node_hash();
            self.unregister(path, place);
            proof {
                let trees = self.trees();
                assert forall|h: u64, j: int|
                    self.hash_index().dom().contains(h) && 0 <= j
                        < self.hash_index()[h].len() implies is_node_of(
                    trees,
                    #[trigger] self.hash_index()[h][j],
                ) by {
                    let node = self.hash_index()[h][j];
                    assert(index[h].contains(node));
                    let i = choose|i: int| 0 <= i < index[h].len() && index[h][i] == node;
                    assert(is_node_of(trees, index[h][i]));
                }
                assert forall|key: (Seq<char>, usize)|
                    (#[trigger] self.node_hash().dom().contains(key) <==> wanted(
                        self.language(),
                        trees,
                        key,
                        path@,
                        place + 1,
                        total as int,
                    )) && (self.node_hash().dom().contains(key) ==> self.node_hash()[key]
                        == crate::merkle::fingerprint(
                        self.language(),
                        trees[key.0],
                        key.1 as int,
                    )) by {
                    assert(hashes.dom().contains(key) <==> wanted(
                        self.language(),
                        trees,
                        key,
                        path@,
                        place as int,
                        total as int,
                    ));
                }
            }
            place = place + 1;
        }
    }

    /// Removes the file at `path`: its tree, and all that the index and its
    /// inverse hold of it. Nothing happens where the engine holds no such
    /// file.
    pub fn remove(&mut self, path: &str)
        requires
            old(self).wf(),
        ensures
            final(self).wf(),
            final(self).language() == old(self).language(),
            final(self).trees() == old(self).trees().remove(path@),
            forall|key: (Seq<char>, usize)| #[trigger]
                final(self).node_hash().dom().contains(key) ==> key.0 != path@,
            forall|h: u64, j: int|
                final(self).hash_index().dom().contains(h) && 0 <= j
                    < final(self).hash_index()[h].len()
                    ==> (#[trigger] final(self).hash_index()[h][j]).path != path@,
    {
        self.remove_file(path);
        proof {
            crate::engine::laws::law_absent_file_has_no_entries(*self, path@);
        }
    }

    /// Removes the tree at `path` and what the index holds of it.
    fn remove_file(&mut self, path: &str)
        requires
            old(self).wf(),
        ensures
            final(self).wf(),
            final(self).language() == old(self).language(),
            final(self).trees() == old(self).trees().remove(path@),
    {
        match self.tree(path) {
            Some(tree) => {
                self.remove_merkle_hashes(path, tree.len());
                let ghost trees = self.trees();
                let ghost total = tree@.len() as int;
                self.drop_tree(path);
                proof {
                    let index = self.hash_index();
                    let hashes = self.node_hash();
                    let lang = self.language();
                    let rest = self.trees();
                    assert forall|h: u64, j: int|
                        index.dom().contains(h) && 0 <= j < index[h].len() implies is_node_of(
                        rest,
                        #[trigger] index[h][j],
                    ) by {
                        assert(entry_ok(index, hashes, h, j));
                        assert(is_node_of(trees, index[h][j]));
                        let key = index[h][j].key();
                        assert(hashes.dom().contains(key));
                        assert(wanted(lang, trees, key, path@, total, total));
                    }
                    assert forall|key: (Seq<char>, usize)|
                        (#[trigger] hashes.dom().contains(key) <==> rest.dom().contains(key.0)
                            && crate::merkle::registered(lang, rest[key.0], key.1 as int)) && (
                        hashes.dom().contains(key) ==> hashes[key] == crate::merkle::fingerprint(
                            lang,
                            rest[key.0],
                            key.1 as int,
                        )) by {
                        assert(hashes.dom().contains(key) <==> wanted(
                            lang,
                            trees,
                            key,
                            path@,
                            total,
                            total,
                        ));
                    }
                }
            },
            None => {
                assert(self.trees().remove(path@) =~= self.trees());
            },
        }
    }

    /// Removes each of the files at `paths`.
    pub fn remove_many(&mut self, paths: &Vec<String>)
        requires
            old(self).wf(),
        ensures
            final(self).wf(),
            final(self).language() == old(self).language(),
            final(self).trees() == old(self).trees().remove_keys(path_set(paths@)),
    {
        let mut at: usize = 0;
        assert(self.trees() =~= old(self).trees().remove_keys(path_set(paths@.take(0))));
        while at < paths.len()
            invariant
                at <= paths@.len(),
                self.wf(),
                self.language() == old(self).language(),
                self.trees() == old(self).trees().remove_keys(path_set(paths@.take(at as int))),
            decreases paths@.len() - at,
        {
            self.remove(paths[at].as_str());
            proof {
                let before = path_set(paths@.take(at as int));
                let after = path_set(paths@.take(at + 1));
                assert forall|path: Seq<char>| after.contains(path) <==> before.contains(path)
                    || path == paths@[at as int]@ by {
                    if before.contains(path) {
                        let i = choose|i: int|
                            0 <= i < paths@.take(at as int).len() && (#[trigger] paths@.take(
                                at as int,
                            )[i])@ == path;
                        assert(paths@.take(at + 1)[i]@ == path);
                    }
                    if path == paths@[at as int]@ {
                        assert(paths@.take(at + 1)[at as int]@ == path);
                    }
                    if after.contains(path) {
                        let i = choose|i: int|
                            0 <= i < paths@.take(at + 1).len() && (#[trigger] paths@.take(
                                at + 1,
                            )[i])@ == path;
                        if i < at {
                            assert(paths@.take(at as int)[i]@ == path);
                        }
                    }
                }
                assert(self.trees() =~= old(self).trees().remove_keys(after));
            }
            at = at + 1;
        }
        assert(paths@.take(paths@.len() as int) =~= paths@);
    }

    /// Removes every file.
    pub fn remove_all(&mut self)
        requires
            old(self).wf(),
        ensures
            final(self).wf(),
            final(self).language() == old(self).language(),
            final(self).trees() == Map::<Seq<char>, Seq<crate::node::NodeView>>::empty(),
    {
        let paths = self.paths();
        self.remove_many(&paths);
        proof {
            assert forall|path: Seq<char>| !self.trees().dom().contains(path) by {
                if old(self).trees().dom().contains(path) {
                    let i = choose|i: int| 0 <= i < paths@.len() && #[trigger] paths@[i]@ == path;
                    assert(path_set(paths@).contains(path));
                }
            }
            assert(self.trees() =~= Map::empty());
        }
    }
}

} // verus!
