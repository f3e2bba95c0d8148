//! What holds of every consistent engine, and of every answer to the
//! duplicate query.

use vstd::prelude::*;
use crate::engine::detect::{covered, covered_set, covers, lies_below, outside, survivors};
use crate::engine::store::NodeId;
use std::sync::Arc;
use crate::engine::insert::{batch_put, last_named, named_in, with_trees};
use crate::languages::LanguageView;
use crate::syntax::{law_same_text_same_content, tree_of_text};
use crate::engine::{entry_ok, is_node_of, listed, Engine};
use crate::merkle::{
    fingerprint, hidden, law_same_content_same_fingerprints, law_same_shape_same_fingerprint,
    registered, same_but_for_path, same_shape,
};
use crate::node::NodeView;

verus! {

/// Every node that the index lists under a fingerprint has that fingerprint
/// recorded in the inverse of the index.
pub proof fn law_listed_nodes_are_recorded(engine: Engine, h: u64, j: int)
    requires
        engine.wf(),
        engine.hash_index().dom().contains(h),
        0 <= j < engine.hash_index()[h].len(),
    ensures
        engine.node_hash().dom().contains(engine.hash_index()[h][j].key()),
        engine.node_hash()[engine.hash_index()[h][j].key()] == h,
{
    assert(entry_ok(engine.hash_index(), engine.node_hash(), h, j));
}

/// No fingerprint of the index has an empty list of nodes.
pub proof fn law_no_empty_group(engine: Engine, h: u64)
    requires
        engine.wf(),
        engine.hash_index().dom().contains(h),
    ensures
        engine.hash_index()[h].len() > 0,
{
}

/// Every node with a recorded fingerprint stands in the index under that
/// fingerprint, and under no other.
pub proof fn law_recorded_nodes_are_listed_once(engine: Engine, key: NodeId, h: u64, j: int)
    requires
        engine.wf(),
        engine.node_hash().dom().contains(key),
    ensures
        listed(engine.hash_index(), engine.node_hash(), key),
        engine.hash_index().dom().contains(h) && 0 <= j < engine.hash_index()[h].len()
            && engine.hash_index()[h][j].key() == key ==> h == engine.node_hash()[key],
{
    if engine.hash_index().dom().contains(h) && 0 <= j < engine.hash_index()[h].len() {
        assert(entry_ok(engine.hash_index(), engine.node_hash(), h, j));
    }
}

/// Every listed node is a node of one of the engine's trees, is registered
/// by the hasher there, and stands under the fingerprint of its subtree. So
/// no subtree below the threshold of the cognitive complexity is ever
/// listed, however often it repeats.
pub proof fn law_listed_nodes_are_candidates(engine: Engine, h: u64, j: int)
    requires
        engine.wf(),
        engine.hash_index().dom().contains(h),
        0 <= j < engine.hash_index()[h].len(),
    ensures
        ({
            let node = engine.hash_index()[h][j];
            let trees = engine.trees();
            &&& is_node_of(trees, node)
            &&& registered(engine.language(), trees[node.path], node.id as int)
            &&& engine.language().cognitive_complexity(trees[node.path], node.id as int)
                >= engine.language().threshold
            &&& h == fingerprint(engine.language(), trees[node.path], node.id as int)
        }),
{
    let node = engine.hash_index()[h][j];
    assert(entry_ok(engine.hash_index(), engine.node_hash(), h, j));
    assert(is_node_of(engine.trees(), node));
    assert(engine.node_hash().dom().contains(node.key()));
}

/// Nothing of a file that the engine does not hold stands in the index or
/// in its inverse.
pub proof fn law_absent_file_has_no_entries(engine: Engine, path: Seq<char>)
    requires
        engine.wf(),
        !engine.trees().dom().contains(path),
    ensures
        forall|key: NodeId| #[trigger] engine.node_hash().dom().contains(key) ==> key.0 != path,
        forall|h: u64, j: int|
            engine.hash_index().dom().contains(h) && 0 <= j < engine.hash_index()[h].len() ==> (
            #[trigger] engine.hash_index()[h][j]).path != path,
{
    assert forall|h: u64, j: int|
        engine.hash_index().dom().contains(h) && 0 <= j < engine.hash_index()[h].len() implies (
    #[trigger] engine.hash_index()[h][j]).path != path by {
        assert(is_node_of(engine.trees(), engine.hash_index()[h][j]));
    }
}

/// Every member of a returned group is listed under the group's fingerprint
/// and lies below no member of a group of two or more nodes.
pub proof fn law_members_survive(
    engine: Engine,
    groups: Seq<Seq<NodeView>>,
    limit: Option<usize>,
    i: int,
    j: int,
) -> (place: int)
    requires
        engine.wf(),
        engine.is_report(groups, limit),
        0 <= i < groups.len(),
        0 <= j < groups[i].len(),
    ensures
        engine.hash_index().dom().contains(engine.fingerprint_of(groups[i])),
        engine.hash_index()[engine.fingerprint_of(groups[i])].len() >= 2,
        0 <= place < engine.hash_index()[engine.fingerprint_of(groups[i])].len(),
        engine.hash_index()[engine.fingerprint_of(groups[i])][place] == groups[i][j],
        !covered(engine.hash_index(), groups[i][j].key()),
{
    let index = engine.hash_index();
    let h = engine.fingerprint_of(groups[i]);
    let test = outside(covered_set(index));
    assert(groups[i] == survivors(index, h));
    index[h].lemma_filter_pred(test, j);
    assert(groups[i].contains(groups[i][j]));
    index[h].lemma_filter_contains_rev(test, groups[i][j]);
    choose|place: int| 0 <= place < index[h].len() && index[h][place] == groups[i][j]
}

/// Maximality: no member of a returned group lies below a member of a
/// returned group.
pub proof fn law_groups_are_maximal(
    engine: Engine,
    groups: Seq<Seq<NodeView>>,
    limit: Option<usize>,
    i: int,
    j: int,
    above_i: int,
    above_j: int,
)
    requires
        engine.wf(),
        engine.is_report(groups, limit),
        0 <= i < groups.len(),
        0 <= j < groups[i].len(),
        0 <= above_i < groups.len(),
        0 <= above_j < groups[above_i].len(),
    ensures
        !lies_below(groups[above_i][above_j], groups[i][j].key()),
{
    let index = engine.hash_index();
    let _ = law_members_survive(engine, groups, limit, i, j);
    let place = law_members_survive(engine, groups, limit, above_i, above_j);
    let h = engine.fingerprint_of(groups[above_i]);
    if lies_below(groups[above_i][above_j], groups[i][j].key()) {
        assert(covers(index, h, place, groups[i][j].key()));
    }
}

/// Every member of a returned group is a registered subtree of one of the
/// engine's trees, all members of a group have the same fingerprint, and
/// the cognitive complexity of each meets the threshold.
pub proof fn law_members_are_candidates(
    engine: Engine,
    groups: Seq<Seq<NodeView>>,
    limit: Option<usize>,
    i: int,
    j: int,
)
    requires
        engine.wf(),
        engine.is_report(groups, limit),
        0 <= i < groups.len(),
        0 <= j < groups[i].len(),
    ensures
        ({
            let node = groups[i][j];
            let trees = engine.trees();
            &&& is_node_of(trees, node)
            &&& registered(engine.language(), trees[node.path], node.id as int)
            &&& engine.language().cognitive_complexity(trees[node.path], node.id as int)
                >= engine.language().threshold
            &&& fingerprint(engine.language(), trees[node.path], node.id as int)
                == engine.fingerprint_of(groups[i])
        }),
{
    let place = law_members_survive(engine, groups, limit, i, j);
    law_listed_nodes_are_candidates(engine, engine.fingerprint_of(groups[i]), place);
}

/// The duplicate query is a function of the engine's state: two answers
/// without a cap hold the same groups.
pub proof fn law_answers_agree(
    engine: Engine,
    first: Seq<Seq<NodeView>>,
    second: Seq<Seq<NodeView>>,
    i: int,
) -> (j: int)
    requires
        engine.wf(),
        engine.is_report(first, None),
        engine.is_report(second, None),
        0 <= i < first.len(),
    ensures
        0 <= j < second.len(),
        second[j] == first[i],
{
    let h = engine.fingerprint_of(first[i]);
    assert(engine.reported(h));
    choose|j: int| 0 <= j < second.len() && engine.fingerprint_of(#[trigger] second[j]) == h
}

/// A filtered sequence without duplicates has no duplicates.
pub proof fn lemma_filter_keeps_distinct<A>(s: Seq<A>, test: spec_fn(A) -> bool)
    requires
        s.no_duplicates(),
    ensures
        s.filter(test).no_duplicates(),
    decreases s.len(),
{
    reveal(Seq::filter);
    if s.len() > 0 {
        let rest = s.drop_last();
        lemma_filter_keeps_distinct(rest, test);
        if test(s.last()) {
            let kept = rest.filter(test);
            if kept.contains(s.last()) {
                rest.lemma_filter_contains_rev(test, s.last());
                let i = choose|i: int| 0 <= i < rest.len() && rest[i] == s.last();
                assert(s[i] == s[s.len() - 1]);
            }
            assert forall|i: int, j: int|
                0 <= i < kept.push(s.last()).len() && 0 <= j < kept.push(s.last()).len() && i
                    != j implies kept.push(s.last())[i] != kept.push(s.last())[j] by {
                if i < kept.len() {
                    assert(kept.contains(kept[i]));
                }
                if j < kept.len() {
                    assert(kept.contains(kept[j]));
                }
            }
        }
    }
}

/// A value is kept by a filter exactly if it is in the sequence and passes
/// the test.
pub proof fn lemma_filter_membership<A>(s: Seq<A>, test: spec_fn(A) -> bool, value: A)
    ensures
        s.filter(test).contains(value) <==> s.contains(value) && test(value),
{
    if s.filter(test).contains(value) {
        s.lemma_filter_contains_rev(test, value);
        let i = choose|i: int| 0 <= i < s.filter(test).len() && s.filter(test)[i] == value;
        s.lemma_filter_pred(test, i);
    }
    if s.contains(value) && test(value) {
        let i = choose|i: int| 0 <= i < s.len() && s[i] == value;
        s.lemma_filter_contains(test, i);
    }
}

/// Two sequences without duplicates that hold the same values have the same
/// length.
pub proof fn lemma_same_values_same_length<A>(s: Seq<A>, t: Seq<A>)
    requires
        s.no_duplicates(),
        t.no_duplicates(),
        forall|value: A| s.contains(value) <==> t.contains(value),
    ensures
        s.len() == t.len(),
{
    s.unique_seq_to_set();
    t.unique_seq_to_set();
    assert(s.to_set() =~= t.to_set());
}

/// No list of the index holds a node twice.
pub proof fn law_groups_hold_no_node_twice(engine: Engine, h: u64)
    requires
        engine.wf(),
        engine.hash_index().dom().contains(h),
    ensures
        engine.hash_index()[h].no_duplicates(),
        engine.survivors(h).no_duplicates(),
{
    let bucket = engine.hash_index()[h];
    assert forall|i: int, j: int|
        0 <= i < bucket.len() && 0 <= j < bucket.len() && i != j implies bucket[i]
        != bucket[j] by {
        if i < j {
            assert(bucket[i].key() != bucket[j].key());
        } else {
            assert(bucket[j].key() != bucket[i].key());
        }
    }
    lemma_filter_keeps_distinct(bucket, outside(covered_set(engine.hash_index())));
}

/// The index and its inverse are determined by the trees and the language:
/// two consistent engines of one language that hold the same trees record
/// the same fingerprints and list the same nodes under each fingerprint.
pub proof fn law_trees_determine_index(first: Engine, second: Engine)
    requires
        first.wf(),
        second.wf(),
        first.language() == second.language(),
        first.trees() == second.trees(),
    ensures
        first.node_hash() == second.node_hash(),
        forall|h: u64| #[trigger]
            first.hash_index().dom().contains(h) <==> second.hash_index().dom().contains(h),
        forall|h: u64, node: NodeView|
            first.hash_index().dom().contains(h) ==> (#[trigger] first.hash_index()[h].contains(
                node,
            ) <==> second.hash_index()[h].contains(node)),
        forall|h: u64| #[trigger]
            first.hash_index().dom().contains(h) ==> first.hash_index()[h].len()
                == second.hash_index()[h].len(),
{
    assert forall|key: NodeId|
        (first.node_hash().dom().contains(key) <==> second.node_hash().dom().contains(key)) && (
        first.node_hash().dom().contains(key) ==> first.node_hash()[key]
            == second.node_hash()[key]) by {
        let wanted = first.trees().dom().contains(key.0) && registered(
            first.language(),
            first.trees()[key.0],
            key.1 as int,
        );
        assert(first.node_hash().dom().contains(key) <==> wanted);
        assert(second.node_hash().dom().contains(key) <==> wanted);
    }
    assert(first.node_hash() =~= second.node_hash());
    lemma_listed_in_both(first, second);
    lemma_listed_in_both(second, first);
    assert forall|h: u64| #[trigger] first.hash_index().dom().contains(h) implies first.hash_index()[h].len()
        == second.hash_index()[h].len() by {
        law_groups_hold_no_node_twice(first, h);
        law_groups_hold_no_node_twice(second, h);
        lemma_same_values_same_length(first.hash_index()[h], second.hash_index()[h]);
    }
}

/// What one of two engines with the same trees lists, the other lists too.
proof fn lemma_listed_in_both(first: Engine, second: Engine)
    requires
        first.wf(),
        second.wf(),
        first.node_hash() == second.node_hash(),
        first.trees() == second.trees(),
    ensures
        forall|h: u64| #[trigger]
            first.hash_index().dom().contains(h) ==> second.hash_index().dom().contains(h),
        forall|h: u64, node: NodeView|
            first.hash_index().dom().contains(h) && #[trigger] first.hash_index()[h].contains(node)
                ==> second.hash_index()[h].contains(node),
{
    let index = first.hash_index();
    let other = second.hash_index();
    let hashes = first.node_hash();
    assert forall|h: u64, j: int| index.dom().contains(h) && 0 <= j < index[h].len() implies other.dom().contains(
        h,
    ) && other[h].contains(#[trigger] index[h][j]) by {
        let node = index[h][j];
        assert(entry_ok(index, hashes, h, j));
        assert(listed(other, hashes, node.key()));
        let at = choose|at: int|
            0 <= at < other[h].len() && (#[trigger] other[h][at]).key() == node.key();
        assert(is_node_of(first.trees(), node));
        assert(is_node_of(second.trees(), other[h][at]));
    }
    assert forall|h: u64| #[trigger] index.dom().contains(h) implies other.dom().contains(h) by {
        assert(other[h].contains(index[h][0]));
    }
    assert forall|h: u64, node: NodeView|
        index.dom().contains(h) && #[trigger] index[h].contains(node) implies other[h].contains(
        node,
    ) by {
        let j = choose|j: int| 0 <= j < index[h].len() && index[h][j] == node;
        assert(other[h].contains(index[h][j]));
    }
}

/// The answer to the duplicate query is determined by the trees and the
/// language: two consistent engines of one language that hold the same
/// trees have clone groups under the same fingerprints, with the same
/// members. It does not matter how, or in what order, the trees came in.
pub proof fn law_trees_determine_groups(first: Engine, second: Engine, h: u64)
    requires
        first.wf(),
        second.wf(),
        first.language() == second.language(),
        first.trees() == second.trees(),
    ensures
        first.reported(h) <==> second.reported(h),
        first.reported(h) ==> first.survivors(h).len() == second.survivors(h).len(),
        forall|node: NodeView|
            first.reported(h) ==> (#[trigger] first.survivors(h).contains(node)
                <==> second.survivors(h).contains(node)),
{
    law_trees_determine_index(first, second);
    law_trees_determine_index(second, first);
    lemma_covered_in_both(first, second);
    lemma_covered_in_both(second, first);
    let index = first.hash_index();
    let other = second.hash_index();
    let test = outside(covered_set(index));
    let other_test = outside(covered_set(other));
    if index.dom().contains(h) {
        assert forall|node: NodeView| #[trigger]
            first.survivors(h).contains(node) <==> second.survivors(h).contains(node) by {
            lemma_filter_membership(index[h], test, node);
            lemma_filter_membership(other[h], other_test, node);
            assert(index[h].contains(node) <==> other[h].contains(node));
        }
        law_groups_hold_no_node_twice(first, h);
        law_groups_hold_no_node_twice(second, h);
        lemma_same_values_same_length(first.survivors(h), second.survivors(h));
    }
}

/// What lies below a member of a group of two or more in one of two engines
/// with the same index contents, does so in the other.
proof fn lemma_covered_in_both(first: Engine, second: Engine)
    requires
        forall|h: u64| #[trigger]
            first.hash_index().dom().contains(h) <==> second.hash_index().dom().contains(h),
        forall|h: u64, node: NodeView|
            first.hash_index().dom().contains(h) ==> (#[trigger] first.hash_index()[h].contains(
                node,
            ) <==> second.hash_index()[h].contains(node)),
        forall|h: u64| #[trigger]
            first.hash_index().dom().contains(h) ==> first.hash_index()[h].len()
                == second.hash_index()[h].len(),
    ensures
        forall|key: NodeId|
            covered(first.hash_index(), key) ==> covered(second.hash_index(), key),
{
    let index = first.hash_index();
    let other = second.hash_index();
    assert forall|key: NodeId| covered(index, key) implies covered(other, key) by {
        let (h, j) = choose|h: u64, j: int| covers(index, h, j, key);
        assert(index[h].contains(index[h][j]));
        let at = choose|at: int| 0 <= at < other[h].len() && other[h][at] == index[h][j];
        assert(covers(other, h, at, key));
    }
}

/// Inserting a file and removing it again leaves nothing of the file, and
/// leaves what the engine records of every other file as it was. Where the
/// engine did not hold the file before, all is as before.
pub proof fn law_insert_then_remove(
    before: Engine,
    after: Engine,
    path: Seq<char>,
    tree: Seq<NodeView>,
)
    requires
        before.wf(),
        after.wf(),
        after.language() == before.language(),
        after.trees() == before.trees().insert(path, tree).remove(path),
    ensures
        after.trees() == before.trees().remove(path),
        forall|key: NodeId| key.0 == path ==> !(#[trigger] after.node_hash().dom().contains(key)),
        forall|key: NodeId|
            key.0 != path ==> (#[trigger] after.node_hash().dom().contains(key)
                <==> before.node_hash().dom().contains(key)),
        forall|key: NodeId|
            key.0 != path && #[trigger] after.node_hash().dom().contains(key)
                ==> after.node_hash()[key] == before.node_hash()[key],
        !before.trees().dom().contains(path) ==> after.trees() == before.trees()
            && after.node_hash() == before.node_hash(),
{
    assert(after.trees() =~= before.trees().remove(path));
    assert forall|key: NodeId|
        key.0 != path implies (#[trigger] after.node_hash().dom().contains(key)
        <==> before.node_hash().dom().contains(key)) && (after.node_hash().dom().contains(key)
        ==> after.node_hash()[key] == before.node_hash()[key]) by {
        assert(before.node_hash().dom().contains(key) <==> before.trees().dom().contains(key.0)
            && registered(before.language(), before.trees()[key.0], key.1 as int));
    }
    if !before.trees().dom().contains(path) {
        assert(after.trees() =~= before.trees());
        law_trees_determine_index(after, before);
    }
}

/// The paths of the trees of `batch` differ from each other.
pub open spec fn distinct_paths(batch: Seq<Seq<NodeView>>) -> bool {
    forall|i: int, j: int|
        0 <= i < j < batch.len() ==> (#[trigger] batch[i]).last().path
            != (#[trigger] batch[j]).last().path
}

/// After a batch of trees with different paths was put in, the engine holds
/// each tree of the batch under its path, and every other file as before.
pub proof fn law_batch_result(trees: Map<Seq<char>, Seq<NodeView>>, batch: Seq<Seq<NodeView>>)
    requires
        distinct_paths(batch),
    ensures
        forall|i: int|
            0 <= i < batch.len() ==> with_trees(trees, batch).dom().contains(
                (#[trigger] batch[i]).last().path,
            ) && with_trees(trees, batch)[batch[i].last().path] == batch[i],
        forall|path: Seq<char>| #[trigger]
            with_trees(trees, batch).dom().contains(path) ==> trees.dom().contains(path) || exists|
                i: int,
            |
                0 <= i < batch.len() && (#[trigger] batch[i]).last().path == path,
        forall|path: Seq<char>|
            #[trigger] trees.dom().contains(path) ==> with_trees(trees, batch).dom().contains(path)
                && ((forall|i: int|
                0 <= i < batch.len() ==> (#[trigger] batch[i]).last().path != path) ==> with_trees(
                trees,
                batch,
            )[path] == trees[path]),
    decreases batch.len(),
{
    if batch.len() > 0 {
        let rest = batch.drop_last();
        let last = batch.last();
        assert forall|i: int, j: int| 0 <= i < j < rest.len() implies (#[trigger] rest[i]).last().path
            != (#[trigger] rest[j]).last().path by {
            assert(rest[i] == batch[i] && rest[j] == batch[j]);
        }
        law_batch_result(trees, rest);
        let built = with_trees(trees, rest);
        let all = with_trees(trees, batch);
        assert(all == built.insert(last.last().path, last));
        assert forall|i: int| 0 <= i < batch.len() implies all.dom().contains(
            (#[trigger] batch[i]).last().path,
        ) && all[batch[i].last().path] == batch[i] by {
            if i < rest.len() {
                assert(rest[i] == batch[i]);
                assert(batch[i].last().path != batch[batch.len() - 1].last().path);
            }
        }
        assert forall|path: Seq<char>| #[trigger] all.dom().contains(path) implies trees.dom().contains(
            path,
        ) || exists|i: int| 0 <= i < batch.len() && (#[trigger] batch[i]).last().path == path by {
            if path == last.last().path {
                assert(batch[batch.len() - 1].last().path == path);
            } else if !trees.dom().contains(path) {
                let i = choose|i: int| 0 <= i < rest.len() && (#[trigger] rest[i]).last().path == path;
                assert(batch[i].last().path == path);
            }
        }
        assert forall|path: Seq<char>| #[trigger] trees.dom().contains(path) implies all.dom().contains(
            path,
        ) && ((forall|i: int| 0 <= i < batch.len() ==> (#[trigger] batch[i]).last().path != path)
            ==> all[path] == trees[path]) by {
            if forall|i: int| 0 <= i < batch.len() ==> (#[trigger] batch[i]).last().path != path {
                assert(batch[batch.len() - 1].last().path != path);
                assert forall|i: int| 0 <= i < rest.len() implies (#[trigger] rest[i]).last().path
                    != path by {
                    assert(rest[i] == batch[i]);
                }
            }
        }
    }
}

/// The order of a batch does not matter: two batches of trees with different
/// paths that hold the same trees leave the same trees in the engine. By
/// `law_trees_determine_groups` they then give the same clone groups.
pub proof fn law_batch_in_any_order(
    trees: Map<Seq<char>, Seq<NodeView>>,
    batch: Seq<Seq<NodeView>>,
    shuffled: Seq<Seq<NodeView>>,
)
    requires
        distinct_paths(batch),
        distinct_paths(shuffled),
        forall|i: int| 0 <= i < batch.len() ==> shuffled.contains(#[trigger] batch[i]),
        forall|i: int| 0 <= i < shuffled.len() ==> batch.contains(#[trigger] shuffled[i]),
    ensures
        with_trees(trees, batch) == with_trees(trees, shuffled),
{
    law_batch_result(trees, batch);
    law_batch_result(trees, shuffled);
    let first = with_trees(trees, batch);
    let second = with_trees(trees, shuffled);
    lemma_batch_agrees(trees, batch, shuffled);
    lemma_batch_agrees(trees, shuffled, batch);
    assert(first =~= second);
}

/// What one of two batches with the same trees leaves in the engine, the
/// other leaves too.
proof fn lemma_batch_agrees(
    trees: Map<Seq<char>, Seq<NodeView>>,
    batch: Seq<Seq<NodeView>>,
    shuffled: Seq<Seq<NodeView>>,
)
    requires
        distinct_paths(batch),
        distinct_paths(shuffled),
        forall|i: int| 0 <= i < batch.len() ==> shuffled.contains(#[trigger] batch[i]),
        forall|i: int| 0 <= i < shuffled.len() ==> batch.contains(#[trigger] shuffled[i]),
    ensures
        forall|path: Seq<char>| #[trigger]
            with_trees(trees, batch).dom().contains(path) ==> with_trees(
                trees,
                shuffled,
            ).dom().contains(path) && with_trees(trees, shuffled)[path] == with_trees(
                trees,
                batch,
            )[path],
{
    law_batch_result(trees, batch);
    law_batch_result(trees, shuffled);
    let first = with_trees(trees, batch);
    let second = with_trees(trees, shuffled);
    assert forall|path: Seq<char>| #[trigger] first.dom().contains(path) implies second.dom().contains(
        path,
    ) && second[path] == first[path] by {
        if exists|i: int| 0 <= i < batch.len() && (#[trigger] batch[i]).last().path == path {
            let i = choose|i: int| 0 <= i < batch.len() && (#[trigger] batch[i]).last().path == path;
            assert(shuffled.contains(batch[i]));
            let j = choose|j: int| 0 <= j < shuffled.len() && shuffled[j] == batch[i];
            assert(second[shuffled[j].last().path] == shuffled[j]);
        } else {
            assert(trees.dom().contains(path));
            assert forall|j: int| 0 <= j < shuffled.len() implies (#[trigger] shuffled[j]).last().path
                != path by {
                assert(batch.contains(shuffled[j]));
                let i = choose|i: int| 0 <= i < batch.len() && batch[i] == shuffled[j];
                assert(batch[i].last().path != path);
            }
        }
    }
}

/// Two files with the same content are clones of each other: a subtree that
/// the hasher registers in one of them is registered in the other at the
/// same place, and the index lists both under one fingerprint, which
/// therefore has two nodes or more.
pub proof fn law_same_content_is_listed_together(
    engine: Engine,
    first: Seq<char>,
    second: Seq<char>,
    place: int,
)
    requires
        engine.wf(),
        first != second,
        engine.trees().dom().contains(first),
        engine.trees().dom().contains(second),
        same_but_for_path(engine.trees()[first], engine.trees()[second]),
        registered(engine.language(), engine.trees()[first], place),
    ensures
        ({
            let h = fingerprint(engine.language(), engine.trees()[first], place);
            &&& engine.hash_index().dom().contains(h)
            &&& engine.hash_index()[h].len() >= 2
            &&& engine.hash_index()[h].contains(engine.trees()[first][place])
            &&& engine.hash_index()[h].contains(engine.trees()[second][place])
        }),
{
    let lang = engine.language();
    let a = engine.trees()[first];
    let b = engine.trees()[second];
    let index = engine.hash_index();
    let hashes = engine.node_hash();
    let h = fingerprint(lang, a, place);
    law_same_content_same_fingerprints(lang, a, b, place);
    assert(crate::tree::node_ok(a, place));
    assert(crate::tree::node_ok(b, place));
    let key_a = (first, a[place].id);
    let key_b = (second, b[place].id);
    assert(a[place].id == place);
    assert(key_a.0 == first && key_a.1 as int == place);
    assert(hashes.dom().contains(key_a) <==> engine.trees().dom().contains(key_a.0) && registered(
        lang,
        engine.trees()[key_a.0],
        key_a.1 as int,
    ));
    assert(hashes.dom().contains(key_a));
    assert(hashes[key_a] == h);
    assert(hashes.dom().contains(key_b) <==> engine.trees().dom().contains(key_b.0) && registered(
        lang,
        engine.trees()[key_b.0],
        key_b.1 as int,
    ));
    assert(hashes.dom().contains(key_b) && hashes[key_b] == h);
    assert(listed(index, hashes, key_a));
    assert(listed(index, hashes, key_b));
    let i = choose|i: int| 0 <= i < index[h].len() && (#[trigger] index[h][i]).key() == key_a;
    let j = choose|j: int| 0 <= j < index[h].len() && (#[trigger] index[h][j]).key() == key_b;
    assert(i != j);
    assert(is_node_of(engine.trees(), index[h][i]));
    assert(is_node_of(engine.trees(), index[h][j]));
    assert(index[h][i] == a[place]);
    assert(index[h][j] == b[place]);
}

/// The same code is listed together: two registered subtrees of the same
/// shape, in one file or in two, stand in the index under one fingerprint,
/// which therefore has two nodes or more. The same code has the same shape
/// (`lemma_same_code_same_shape`), and so has code that differs in nothing
/// but leaves that hash alike, such as renamed variables. A parse error
/// elsewhere in a file changes nothing of this, as long as the hasher comes
/// to the subtree.
pub proof fn law_same_code_is_listed_together(
    engine: Engine,
    first: Seq<char>,
    i: int,
    second: Seq<char>,
    j: int,
)
    requires
        engine.wf(),
        engine.trees().dom().contains(first),
        engine.trees().dom().contains(second),
        first != second || i != j,
        same_shape(engine.language(), engine.trees()[first], i, engine.trees()[second], j),
        registered(engine.language(), engine.trees()[first], i),
        !hidden(engine.language(), engine.trees()[second], j),
    ensures
        ({
            let h = fingerprint(engine.language(), engine.trees()[first], i);
            &&& registered(engine.language(), engine.trees()[second], j)
            &&& h == fingerprint(engine.language(), engine.trees()[second], j)
            &&& engine.hash_index().dom().contains(h)
            &&& engine.hash_index()[h].len() >= 2
            &&& engine.hash_index()[h].contains(engine.trees()[first][i])
            &&& engine.hash_index()[h].contains(engine.trees()[second][j])
        }),
{
    let lang = engine.language();
    let a = engine.trees()[first];
    let b = engine.trees()[second];
    let index = engine.hash_index();
    let hashes = engine.node_hash();
    let h = fingerprint(lang, a, i);
    law_same_shape_same_fingerprint(lang, a, i, b, j);
    assert(crate::tree::node_ok(a, i));
    assert(crate::tree::node_ok(b, j));
    let key_a = (first, a[i].id);
    let key_b = (second, b[j].id);
    assert(key_a.1 as int == i && key_b.1 as int == j);
    assert(hashes.dom().contains(key_a) <==> engine.trees().dom().contains(key_a.0) && registered(
        lang,
        engine.trees()[key_a.0],
        key_a.1 as int,
    ));
    assert(hashes.dom().contains(key_b) <==> engine.trees().dom().contains(key_b.0) && registered(
        lang,
        engine.trees()[key_b.0],
        key_b.1 as int,
    ));
    assert(hashes[key_a] == h && hashes[key_b] == h);
    assert(listed(index, hashes, key_a));
    assert(listed(index, hashes, key_b));
    let at_a = choose|at: int| 0 <= at < index[h].len() && (#[trigger] index[h][at]).key() == key_a;
    let at_b = choose|at: int| 0 <= at < index[h].len() && (#[trigger] index[h][at]).key() == key_b;
    assert(at_a != at_b);
    assert(is_node_of(engine.trees(), index[h][at_a]));
    assert(is_node_of(engine.trees(), index[h][at_b]));
    assert(index[h][at_a] == a[i]);
    assert(index[h][at_b] == b[j]);
}

/// The same code is reported together: of two registered subtrees of the
/// same shape, in one file or in two, those that lie below no member of
/// a group of two or more are members of one group of every answer without
/// a cap. So N equal functions give one group that holds all N, not a group
/// for each pair.
pub proof fn law_same_code_is_reported_together(
    engine: Engine,
    groups: Seq<Seq<NodeView>>,
    first: Seq<char>,
    i: int,
    second: Seq<char>,
    j: int,
) -> (g: int)
    requires
        engine.wf(),
        engine.is_report(groups, None),
        engine.trees().dom().contains(first),
        engine.trees().dom().contains(second),
        first != second || i != j,
        same_shape(engine.language(), engine.trees()[first], i, engine.trees()[second], j),
        registered(engine.language(), engine.trees()[first], i),
        !hidden(engine.language(), engine.trees()[second], j),
        !covered(engine.hash_index(), engine.trees()[first][i].key()),
        !covered(engine.hash_index(), engine.trees()[second][j].key()),
    ensures
        0 <= g < groups.len(),
        groups[g].contains(engine.trees()[first][i]),
        groups[g].contains(engine.trees()[second][j]),
{
    law_same_code_is_listed_together(engine, first, i, second, j);
    let index = engine.hash_index();
    let h = fingerprint(engine.language(), engine.trees()[first], i);
    let a = engine.trees()[first][i];
    let b = engine.trees()[second][j];
    let test = outside(covered_set(index));
    lemma_filter_membership(index[h], test, a);
    lemma_filter_membership(index[h], test, b);
    assert(a != b) by {
        assert(crate::tree::node_ok(engine.trees()[first], i));
        assert(crate::tree::node_ok(engine.trees()[second], j));
        assert(is_node_of(engine.trees(), a)) by {
            let at = choose|at: int| 0 <= at < index[h].len() && index[h][at] == a;
            assert(is_node_of(engine.trees(), index[h][at]));
        }
        assert(is_node_of(engine.trees(), b)) by {
            let at = choose|at: int| 0 <= at < index[h].len() && index[h][at] == b;
            assert(is_node_of(engine.trees(), index[h][at]));
        }
    }
    law_groups_hold_no_node_twice(engine, h);
    let kept = engine.survivors(h);
    let at_a = choose|at: int| 0 <= at < kept.len() && kept[at] == a;
    let at_b = choose|at: int| 0 <= at < kept.len() && kept[at] == b;
    assert(at_a != at_b);
    assert(kept.len() >= 2);
    assert(engine.reported(h));
    let g = choose|g: int| 0 <= g < groups.len() && engine.fingerprint_of(#[trigger] groups[g]) == h;
    assert(groups[g] == kept);
    g
}

/// The paths of the files of `sources` differ from each other.
pub open spec fn distinct_files(sources: Seq<(Arc<String>, Arc<String>)>) -> bool {
    forall|i: int, j: int|
        0 <= i < j < sources.len() ==> (#[trigger] sources[i]).0@ != (#[trigger] sources[j]).0@
}

/// Every file of `sources` is a file of `others`, with the same text.
pub open spec fn files_among(
    sources: Seq<(Arc<String>, Arc<String>)>,
    others: Seq<(Arc<String>, Arc<String>)>,
) -> bool {
    forall|i: int|
        0 <= i < sources.len() ==> exists|j: int|
            0 <= j < others.len() && (#[trigger] others[j]).0@ == (#[trigger] sources[i]).0@
                && others[j].1@ == sources[i].1@
}

/// The order of a batch of texts does not matter: two batches of files with
/// different paths that hold the same files leave the same trees in an engine
/// whose profile has the highlight query of its language, whether they are
/// inserted at once or one by one. By `law_trees_determine_groups` they then
/// give the same clone groups.
pub proof fn law_texts_in_any_order(
    lang: LanguageView,
    before: Map<Seq<char>, Seq<NodeView>>,
    first: Map<Seq<char>, Seq<NodeView>>,
    second: Map<Seq<char>, Seq<NodeView>>,
    sources: Seq<(Arc<String>, Arc<String>)>,
    shuffled: Seq<(Arc<String>, Arc<String>)>,
)
    requires
        lang.own_query,
        distinct_files(sources),
        distinct_files(shuffled),
        files_among(sources, shuffled),
        files_among(shuffled, sources),
        batch_put(lang, before, first, sources),
        batch_put(lang, before, second, shuffled),
    ensures
        first == second,
{
    lemma_texts_agree(lang, before, first, second, sources, shuffled);
    lemma_texts_agree(lang, before, second, first, shuffled, sources);
    assert(first =~= second);
}

/// What one of two batches with the same files leaves in the engine, the
/// other leaves too.
proof fn lemma_texts_agree(
    lang: LanguageView,
    before: Map<Seq<char>, Seq<NodeView>>,
    first: Map<Seq<char>, Seq<NodeView>>,
    second: Map<Seq<char>, Seq<NodeView>>,
    sources: Seq<(Arc<String>, Arc<String>)>,
    shuffled: Seq<(Arc<String>, Arc<String>)>,
)
    requires
        lang.own_query,
        distinct_files(sources),
        distinct_files(shuffled),
        files_among(sources, shuffled),
        files_among(shuffled, sources),
        batch_put(lang, before, first, sources),
        batch_put(lang, before, second, shuffled),
    ensures
        forall|path: Seq<char>| #[trigger]
            first.dom().contains(path) ==> second.dom().contains(path) && second[path]
                == first[path],
{
    assert forall|path: Seq<char>| #[trigger] first.dom().contains(path) implies second.dom().contains(
        path,
    ) && second[path] == first[path] by {
        if named_in(sources, path) {
            let i = choose|i: int| 0 <= i < sources.len() && (#[trigger] sources[i]).0@ == path;
            let j = choose|j: int|
                0 <= j < shuffled.len() && (#[trigger] shuffled[j]).0@ == (#[trigger] sources[i]).0@
                    && shuffled[j].1@ == sources[i].1@;
            assert(last_named(sources, sources.len() as int, i)) by {
                assert forall|k: int| i < k < sources.len() implies (#[trigger] sources[k]).0@
                    != sources[i].0@ by {}
            }
            assert(last_named(shuffled, shuffled.len() as int, j)) by {
                assert forall|k: int| j < k < shuffled.len() implies (#[trigger] shuffled[k]).0@
                    != shuffled[j].0@ by {}
            }
            assert(first.dom().contains(sources[i].0@));
            assert(second.dom().contains(shuffled[j].0@));
        } else {
            if named_in(shuffled, path) {
                let j = choose|j: int|
                    0 <= j < shuffled.len() && (#[trigger] shuffled[j]).0@ == path;
                let i = choose|i: int|
                    0 <= i < sources.len() && (#[trigger] sources[i]).0@ == (
                    #[trigger] shuffled[j]).0@ && sources[i].1@ == shuffled[j].1@;
                assert(named_in(sources, path));
            }
            assert(before.dom().contains(path));
        }
    }
}

/// Two files with the same text are clones of each other: where an engine
/// holds, under two paths, the trees that its language makes of one text,
/// every subtree that the hasher registers in one of them is listed together
/// with the subtree at the same place of the other.
pub proof fn law_same_text_is_listed_together(
    engine: Engine,
    first: Seq<char>,
    second: Seq<char>,
    source: Seq<char>,
    place: int,
)
    requires
        engine.wf(),
        first != second,
        engine.trees().dom().contains(first),
        engine.trees().dom().contains(second),
        engine.trees()[first] == tree_of_text(engine.language().dialect, first, source),
        engine.trees()[second] == tree_of_text(engine.language().dialect, second, source),
        registered(engine.language(), engine.trees()[first], place),
    ensures
        ({
            let h = fingerprint(engine.language(), engine.trees()[first], place);
            &&& engine.hash_index().dom().contains(h)
            &&& engine.hash_index()[h].len() >= 2
            &&& engine.hash_index()[h].contains(engine.trees()[first][place])
            &&& engine.hash_index()[h].contains(engine.trees()[second][place])
        }),
{
    law_same_text_same_content(engine.language().dialect, first, second, source);
    law_same_content_is_listed_together(engine, first, second, place);
}

} // verus!
