//! The duplicate query: the groups of registered subtrees that share a
//! fingerprint, without the subtrees that lie below a member of such a
//! group.

use vstd::prelude::*;
use std::sync::Arc;
use crate::engine::store::{
    members_contains, members_insert, members_new, members_of, node_views, Bucket, NodeId, NodeKey,
};
use crate::engine::{entry_ok, Engine};
use crate::node::{share, IndexedNode, NodeView};

verus! {

/// The node `key` lies below `member`, in the same file.
pub open spec fn lies_below(member: NodeView, key: NodeId) -> bool {
    member.path == key.0 && member.first <= key.1 < member.id
}

/// The `j`-th node under the fingerprint `h` shares `h` with another node,
/// and the node `key` lies below it.
pub open spec fn covers(index: Map<u64, Seq<NodeView>>, h: u64, j: int, key: NodeId) -> bool {
    index.dom().contains(h) && index[h].len() >= 2 && 0 <= j < index[h].len() && lies_below(
        index[h][j],
        key,
    )
}

/// The node `key` lies below a member of a group of two or more nodes that
/// share a fingerprint.
pub open spec fn covered(index: Map<u64, Seq<NodeView>>, key: NodeId) -> bool {
    exists|h: u64, j: int| covers(index, h, j, key)
}

/// The nodes that lie below a member of a group of two or more.
pub open spec fn covered_set(index: Map<u64, Seq<NodeView>>) -> Set<NodeId> {
    Set::new(|key: NodeId| covered(index, key))
}

/// The test that a node is none of `set`.
pub open spec fn outside(set: Set<NodeId>) -> spec_fn(NodeView) -> bool {
    |node: NodeView| !set.contains(node.key())
}

/// The nodes under the fingerprint `h` that lie below no member of a group
/// of two or more, in the order of the index.
pub open spec fn survivors(index: Map<u64, Seq<NodeView>>, h: u64) -> Seq<NodeView> {
    index[h].filter(outside(covered_set(index)))
}

/// The fingerprint `h` gives a clone group: two or more nodes share it, and
/// two or more of them lie below no member of such a group.
pub open spec fn reported(index: Map<u64, Seq<NodeView>>, h: u64) -> bool {
    index.dom().contains(h) && index[h].len() >= 2 && survivors(index, h).len() >= 2
}

/// The mathematical content of each node of each group.
pub open spec fn group_views(groups: Seq<Vec<Arc<IndexedNode>>>) -> Seq<Seq<NodeView>> {
    Seq::new(groups.len(), |i: int| node_views(groups[i]@))
}

/// The nodes of each bucket, as their mathematical content.
pub open spec fn bucket_views(entries: Seq<Bucket>) -> Seq<Seq<NodeView>> {
    Seq::new(entries.len(), |i: int| node_views(entries[i].nodes@))
}

/// The node `key` lies below a member of one of the first `upto` of `groups`
/// that has two or more members.
pub open spec fn covered_within(groups: Seq<Seq<NodeView>>, upto: int, key: NodeId) -> bool {
    exists|i: int, j: int| covers_within(groups, upto, i, j, key)
}

/// The group `i` is one of the first `upto`, has two or more members, and the
/// node `key` lies below its `j`-th.
pub open spec fn covers_within(
    groups: Seq<Seq<NodeView>>,
    upto: int,
    i: int,
    j: int,
    key: NodeId,
) -> bool {
    0 <= i < upto && i < groups.len() && groups[i].len() >= 2 && 0 <= j < groups[i].len()
        && lies_below(groups[i][j], key)
}

/// `entries` lists the index: each fingerprint once, with its nodes.
pub open spec fn lists(entries: Seq<Bucket>, index: Map<u64, Seq<NodeView>>) -> bool {
    &&& forall|i: int|
        0 <= i < entries.len() ==> index.dom().contains((#[trigger] entries[i]).fingerprint)
            && node_views(entries[i].nodes@) == index[entries[i].fingerprint]
    &&& forall|i: int, j: int|
        0 <= i < j < entries.len() ==> (#[trigger] entries[i]).fingerprint
            != (#[trigger] entries[j]).fingerprint
    &&& forall|fingerprint: u64| #[trigger]
        index.dom().contains(fingerprint) ==> exists|i: int|
            0 <= i < entries.len() && (#[trigger] entries[i]).fingerprint == fingerprint
}

/// Adds to `set` every node that lies below `node`.
pub(crate) fn add_below(
    set: &mut dashmap::DashSet<NodeKey, rustc_hash::FxBuildHasher>,
    node: &IndexedNode,
)
    ensures
        members_of(*final(set)) == members_of(*old(set)).union(
            Set::new(|key: NodeId| lies_below(node@, key)),
        ),
{
    let first = node.first();
    let id = node.id();
    let mut place: usize = first;
    assert(members_of(*set) =~= members_of(*old(set)).union(
        Set::new(|key: NodeId| lies_below(node@, key) && key.1 < place),
    ));
    while place < id
        invariant
            first == node@.first,
            id == node@.id,
            first <= place,
            members_of(*set) == members_of(*old(set)).union(
                Set::new(|key: NodeId| lies_below(node@, key) && key.1 < place),
            ),
        decreases id - place,
    {
        members_insert(set, node.path(), place);
        assert(members_of(*set) =~= members_of(*old(set)).union(
            Set::new(|key: NodeId| lies_below(node@, key) && key.1 < place + 1),
        ));
        place = place + 1;
    }
    assert(members_of(*set) =~= members_of(*old(set)).union(
        Set::new(|key: NodeId| lies_below(node@, key)),
    ));
}

impl Engine {
    /// The nodes under the fingerprint `h` that lie below no member of a
    /// group of two or more.
    pub open spec fn survivors(&self, h: u64) -> Seq<NodeView> {
        survivors(self.hash_index(), h)
    }

    /// The fingerprint `h` gives a clone group.
    pub open spec fn reported(&self, h: u64) -> bool {
        reported(self.hash_index(), h)
    }

    /// The fingerprint that is recorded for the first node of `group`.
    pub open spec fn fingerprint_of(&self, group: Seq<NodeView>) -> u64 {
        self.node_hash()[group[0].key()]
    }

    /// `groups` is an answer to the duplicate query with the cap `limit`:
    /// each group is the clone group of a fingerprint of its own, the groups
    /// are no more than the cap, and where they are fewer than the cap, every
    /// clone group is among them.
    pub open spec fn is_report(&self, groups: Seq<Seq<NodeView>>, limit: Option<usize>) -> bool {
        &&& forall|i: int|
            0 <= i < groups.len() ==> (#[trigger] groups[i]).len() >= 2 && self.reported(
                self.fingerprint_of(groups[i]),
            ) && groups[i] == self.survivors(self.fingerprint_of(groups[i]))
        &&& forall|i: int, j: int|
            0 <= i < j < groups.len() ==> self.fingerprint_of(#[trigger] groups[i])
                != self.fingerprint_of(#[trigger] groups[j])
        &&& limit matches Some(cap) ==> groups.len() <= cap
        &&& (limit matches Some(cap) ==> groups.len() < cap) ==> forall|h: u64| #[trigger]
            self.reported(h) ==> exists|i: int|
                0 <= i < groups.len() && self.fingerprint_of(#[trigger] groups[i]) == h
    }

    /// Collects the nodes that lie below a member of a group of two or more
    /// nodes.
    pub(crate) fn collect_child_nodes(&self, entries: &Vec<Bucket>) -> (child_nodes:
        dashmap::DashSet<NodeKey, rustc_hash::FxBuildHasher>)
        requires
            lists(entries@, self.hash_index()),
        ensures
            members_of(child_nodes) == covered_set(self.hash_index()),
    {
        let ghost groups = bucket_views(entries@);
        let ghost index = self.hash_index();
        let mut child_nodes = members_new();
        let mut at: usize = 0;
        assert(members_of(child_nodes) =~= Set::new(
            |key: NodeId| covered_within(groups, 0, key),
        ));
        while at < entries.len()
            invariant
                at <= entries@.len(),
                groups == bucket_views(entries@),
                members_of(child_nodes) == Set::new(
                    |key: NodeId| covered_within(groups, at as int, key),
                ),
            decreases entries@.len() - at,
        {
            let nodes = &entries[at].nodes;
            let ghost before = members_of(child_nodes);
            let ghost group = groups[at as int];
            assert(group == node_views(nodes@));
            if nodes.len() > 1 {
                let mut member: usize = 0;
                while member < nodes.len()
                    invariant
                        member <= nodes@.len(),
                        group == node_views(nodes@),
                        members_of(child_nodes) == before.union(
                            Set::new(
                                |key: NodeId|
                                    exists|j: int|
                                        0 <= j < member && lies_below(#[trigger] group[j], key),
                            ),
                        ),
                    decreases nodes@.len() - member,
                {
                    let ghost so_far = members_of(child_nodes);
                    add_below(&mut child_nodes, &nodes[member]);
                    proof {
                        assert(group[member as int] == nodes@[member as int]@);
                        assert(members_of(child_nodes) =~= before.union(
                            Set::new(
                                |key: NodeId|
                                    exists|j: int|
                                        0 <= j < member + 1 && lies_below(
                                            #[trigger] group[j],
                                            key,
                                        ),
                            ),
                        )) by {
                            assert forall|key: NodeId|
                                lies_below(group[member as int], key) implies exists|j: int|
                                0 <= j < member + 1 && lies_below(#[trigger] group[j], key) by {
                                assert(lies_below(group[member as int], key));
                            }
                        }
                    }
                    member = member + 1;
                }
            }
            proof {
                let next: int = at + 1;
                assert(members_of(child_nodes) =~= Set::new(
                    |key: NodeId| covered_within(groups, next, key),
                )) by {
                    assert forall|key: NodeId|
                        members_of(child_nodes).contains(key) <==> covered_within(groups, next, key) by {
                        if members_of(child_nodes).contains(key) {
                            if before.contains(key) {
                                let (i, j) = choose|i: int, j: int|
                                    covers_within(groups, at as int, i, j, key);
                                assert(covers_within(groups, next, i, j, key));
                            } else {
                                let j = choose|j: int|
                                    0 <= j < nodes@.len() && lies_below(#[trigger] group[j], key);
                                assert(covers_within(groups, next, at as int, j, key));
                            }
                        }
                        if covered_within(groups, next, key) {
                            let (i, j) = choose|i: int, j: int|
                                covers_within(groups, next, i, j, key);
                            if i < at {
                                assert(covers_within(groups, at as int, i, j, key));
                            } else {
                                assert(lies_below(group[j], key));
                            }
                        }
                    }
                }
            }
            at = at + 1;
        }
        proof {
            assert(members_of(child_nodes) =~= covered_set(index)) by {
                assert forall|key: NodeId|
                    covered_within(groups, entries@.len() as int, key) <==> covered(
                        index,
                        key,
                    ) by {
                    if covered_within(groups, entries@.len() as int, key) {
                        let (i, j) = choose|i: int, j: int|
                            covers_within(groups, entries@.len() as int, i, j, key);
                        let h = entries@[i].fingerprint;
                        assert(groups[i] == index[h]);
                        assert(covers(index, h, j, key));
                    }
                    if covered(index, key) {
                        let (h, j) = choose|h: u64, j: int| covers(index, h, j, key);
                        let i = choose|i: int|
                            0 <= i < entries@.len() && (#[trigger] entries@[i]).fingerprint == h;
                        assert(groups[i] == index[h]);
                        assert(covers_within(groups, entries@.len() as int, i, j, key));
                    }
                }
            }
        }
        child_nodes
    }

    /// Keeps of `nodes` those that are none of `child_nodes`, in their
    /// order; nothing where fewer than two are left.
    pub(crate) fn extract_non_child_nodes(
        &self,
        nodes: &Vec<Arc<IndexedNode>>,
        child_nodes: &dashmap::DashSet<NodeKey, rustc_hash::FxBuildHasher>,
    ) -> (group: Option<Vec<Arc<IndexedNode>>>)
        ensures
            group is Some <==> node_views(nodes@).filter(outside(members_of(*child_nodes))).len()
                >= 2,
            group matches Some(kept) ==> node_views(kept@) == node_views(nodes@).filter(
                outside(members_of(*child_nodes)),
            ),
    {
        let ghost views = node_views(nodes@);
        let ghost test = outside(members_of(*child_nodes));
        let mut kept: Vec<Arc<IndexedNode>> = Vec::new();
        let mut at: usize = 0;
        proof {
            reveal(Seq::filter);
            assert(views.take(0).filter(test) =~= Seq::empty());
            assert(node_views(kept@) =~= Seq::empty());
        }
        while at < nodes.len()
            invariant
                at <= nodes@.len(),
                views == node_views(nodes@),
                test == outside(members_of(*child_nodes)),
                node_views(kept@) == views.take(at as int).filter(test),
            decreases nodes@.len() - at,
        {
            let node = &nodes[at];
            let ghost so_far = node_views(kept@);
            proof {
                reveal(Seq::filter);
                assert(views.take(at + 1).drop_last() =~= views.take(at as int));
                assert(views.take(at + 1).last() == node@);
            }
            if !members_contains(child_nodes, node.path(), node.id()) {
                kept.push(share(node));
                assert(node_views(kept@) =~= so_far.push(node@));
            }
            at = at + 1;
        }
        assert(views.take(nodes@.len() as int) =~= views);
        if kept.len() > 1 {
            Some(kept)
        } else {
            None
        }
    }

    /// Detects the duplicated subtrees: the groups of two or more registered
    /// subtrees that share a fingerprint, each without the members that lie
    /// below a member of such a group, and only where two or more members are
    /// left. With a cap, no more than that many groups are returned, and any
    /// of the groups may be the ones. The order of the groups is that of the
    /// index, which is not specified.
    pub fn detect_duplicates(&self, limitation: Option<usize>) -> (groups: Vec<
        Vec<Arc<IndexedNode>>,
    >)
        requires
            self.wf(),
        ensures
            self.is_report(group_views(groups@), limitation),
    {
        let entries = self.buckets();
        let child_nodes = self.collect_child_nodes(&entries);
        let limit = match limitation {
            Some(cap) => cap,
            None => usize::MAX,
        };
        let ghost index = self.hash_index();
        let ghost hashes = self.node_hash();
        let mut groups: Vec<Vec<Arc<IndexedNode>>> = Vec::new();
        let ghost mut origin: Seq<int> = Seq::empty();
        let mut at: usize = 0;
        while at < entries.len() && groups.len() < limit
            invariant
                at <= entries@.len(),
                index == self.hash_index(),
                hashes == self.node_hash(),
                self.linked(),
                lists(entries@, index),
                members_of(child_nodes) == covered_set(index),
                groups@.len() == origin.len(),
                groups@.len() <= at,
                groups@.len() <= limit,
                forall|t: int| 0 <= t < origin.len() ==> 0 <= #[trigger] origin[t] < at,
                forall|s: int, t: int| 0 <= s < t < origin.len() ==> origin[s] < origin[t],
                forall|t: int|
                    0 <= t < origin.len() ==> reported(
                        index,
                        entries@[#[trigger] origin[t]].fingerprint,
                    ) && node_views(groups@[t]@) == survivors(
                        index,
                        entries@[origin[t]].fingerprint,
                    ),
                forall|i: int|
                    0 <= i < at && reported(index, (#[trigger] entries@[i]).fingerprint)
                        ==> exists|t: int| 0 <= t < origin.len() && #[trigger] origin[t] == i,
            decreases entries@.len() - at,
        {
            let nodes = &entries[at].nodes;
            let ghost h = entries@[at as int].fingerprint;
            let ghost old_origin = origin;
            assert(node_views(nodes@) == index[h]);
            if nodes.len() >= 2 {
                match self.extract_non_child_nodes(nodes, &child_nodes) {
                    Some(group) => {
                        let ghost earlier = groups@;
                        let ghost kept = node_views(group@);
                        let ghost pushed = group;
                        groups.push(group);
                        proof {
                            origin = origin.push(at as int);
                            assert(node_views(nodes@).len() == nodes@.len());
                            assert(kept == survivors(index, h));
                            assert(reported(index, h));
                            assert forall|t: int| 0 <= t < origin.len() implies reported(
                                index,
                                entries@[#[trigger] origin[t]].fingerprint,
                            ) && node_views(groups@[t]@) == survivors(
                                index,
                                entries@[origin[t]].fingerprint,
                            ) by {
                                if t < earlier.len() {
                                    assert(groups@[t] == earlier[t]);
                                    assert(origin[t] == old_origin[t]);
                                    assert(node_views(earlier[t]@) == survivors(
                                        index,
                                        entries@[old_origin[t]].fingerprint,
                                    ));
                                } else {
                                    assert(groups@[t] == pushed);
                                    assert(origin[t] == at);
                                }
                            }
                        }
                    },
                    None => {},
                }
            }
            proof {
                assert forall|i: int|
                    0 <= i < at + 1 && reported(
                        index,
                        (#[trigger] entries@[i]).fingerprint,
                    ) implies exists|t: int| 0 <= t < origin.len() && #[trigger] origin[t]
                    == i by {
                    if i < at {
                        let t = choose|t: int|
                            0 <= t < old_origin.len() && #[trigger] old_origin[t] == i;
                        assert(origin[t] == i);
                    } else {
                        assert(origin[origin.len() - 1] == at);
                    }
                }
            }
            at = at + 1;
        }
        proof {
            let views = group_views(groups@);
            assert forall|t: int| 0 <= t < views.len() implies self.fingerprint_of(
                #[trigger] views[t],
            ) == entries@[origin[t]].fingerprint && views[t] == survivors(
                index,
                entries@[origin[t]].fingerprint,
            ) by {
                let h = entries@[origin[t]].fingerprint;
                assert(views[t] == node_views(groups@[t]@));
                let kept = survivors(index, h);
                assert(kept.contains(kept[0]));
                index[h].lemma_filter_contains_rev(outside(covered_set(index)), kept[0]);
                let j = choose|j: int| 0 <= j < index[h].len() && index[h][j] == kept[0];
                assert(entry_ok(index, hashes, h, j));
            }
            assert forall|s: int, t: int| 0 <= s < t < views.len() implies self.fingerprint_of(
                #[trigger] views[s],
            ) != self.fingerprint_of(#[trigger] views[t]) by {
                assert(origin[s] < origin[t]);
            }
            if limitation matches Some(cap) ==> views.len() < cap {
                assert(at == entries@.len());
                assert forall|h: u64| #[trigger] self.reported(h) implies exists|t: int|
                    0 <= t < views.len() && self.fingerprint_of(#[trigger] views[t]) == h by {
                    let i = choose|i: int|
                        0 <= i < entries@.len() && (#[trigger] entries@[i]).fingerprint == h;
                    let t = choose|t: int| 0 <= t < origin.len() && #[trigger] origin[t] == i;
                    assert(self.fingerprint_of(views[t]) == h);
                }
            }
        }
        groups
    }
}

} // verus!
