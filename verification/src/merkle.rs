//! The Merkle hasher: the fingerprint of every subtree of an indexed tree,
//! and which subtrees are registered as clone candidates.

use vstd::prelude::*;
use crate::hash::{merge_structure_hash, structure_hash};
use crate::languages::{LanguageView, NodeTaste, SupportedLanguage};
use crate::node::NodeView;
use crate::tree::{lemma_nested, node_ok, tiles, IndexedTree};

verus! {

/// The fold of the fingerprints of the first `k` children of the node at
/// place `i`, left to right, starting from 0.
pub open spec fn fold_children(lang: LanguageView, nodes: Seq<NodeView>, i: int, k: int) -> u64
    decreases i, k,
{
    if k <= 0 {
        0
    } else {
        let child = nodes[i].children[k - 1] as int;
        structure_hash(
            fold_children(lang, nodes, i, k - 1),
            if 0 <= child < i {
                fingerprint(lang, nodes, child)
            } else {
                0
            },
        )
    }
}

/// The fingerprint of the subtree at place `i`: 0 for a node that the profile
/// skips, the leaf hash for a node without children, and the fold of the
/// children's fingerprints for every other node.
pub open spec fn fingerprint(lang: LanguageView, nodes: Seq<NodeView>, i: int) -> u64
    decreases i, nodes[i].children.len() + 1,
{
    if lang.skipped(nodes[i]) {
        0
    } else if nodes[i].children.len() == 0 {
        lang.leaf_hash(nodes[i])
    } else {
        fold_children(lang, nodes, i, nodes[i].children.len() as int)
    }
}

/// A node above the place `i` is skipped, so that the hasher never comes to
/// `i`.
pub open spec fn hidden(lang: LanguageView, nodes: Seq<NodeView>, i: int) -> bool {
    exists|a: int| hides(lang, nodes, a, i)
}

/// The node at place `a` lies above `i` and is skipped.
pub open spec fn hides(lang: LanguageView, nodes: Seq<NodeView>, a: int, i: int) -> bool {
    i < a < nodes.len() && nodes[a].first <= i && lang.skipped(nodes[a])
}

/// The subtree at place `i` is registered as a clone candidate: the hasher
/// comes to it, it has children, its kind is interesting, and its cognitive
/// complexity meets the threshold.
pub open spec fn registered(lang: LanguageView, nodes: Seq<NodeView>, i: int) -> bool {
    &&& 0 <= i < nodes.len()
    &&& !hidden(lang, nodes, i)
    &&& !lang.skipped(nodes[i])
    &&& nodes[i].children.len() > 0
    &&& lang.taste(nodes[i].kind) == NodeTaste::Interesting
    &&& lang.cognitive_complexity(nodes, i) >= lang.threshold
}

/// What the hasher registers for the place `i`: the fingerprint of a
/// registered subtree, nothing for any other.
pub open spec fn registration(lang: LanguageView, nodes: Seq<NodeView>, i: int) -> Option<u64> {
    if registered(lang, nodes, i) {
        Some(fingerprint(lang, nodes, i))
    } else {
        None
    }
}

/// The weights of a range are those of its two parts.
pub proof fn lemma_range_weight_splits(
    lang: LanguageView,
    nodes: Seq<NodeView>,
    lo: int,
    mid: int,
    hi: int,
)
    requires
        lo <= mid <= hi,
    ensures
        lang.range_weight(nodes, lo, hi) == lang.range_weight(nodes, lo, mid) + lang.range_weight(
            nodes,
            mid,
            hi,
        ),
    decreases hi - mid,
{
    if mid < hi {
        lemma_range_weight_splits(lang, nodes, lo, mid, hi - 1);
    }
}

/// Computes the fingerprint of every subtree of `tree`, by place. The nodes
/// are taken in post-order, so that the fingerprints of a node's children are
/// there when the node is hashed.
pub fn fingerprints(lang: &SupportedLanguage, tree: &IndexedTree) -> (hashes: Vec<u64>)
    requires
        tree.wf(),
    ensures
        hashes@.len() == tree@.len(),
        forall|i: int| 0 <= i < tree@.len() ==> hashes@[i] == fingerprint(lang@, tree@, i),
{
    let total = tree.len();
    let mut hashes: Vec<u64> = Vec::new();
    let mut place: usize = 0;
    while place < total
        invariant
            tree.wf(),
            total == tree@.len(),
            place <= total,
            hashes@.len() == place,
            forall|i: int| 0 <= i < place ==> hashes@[i] == fingerprint(lang@, tree@, i),
        decreases total - place,
    {
        let node = tree.node(place);
        assert(node_ok(tree@, place as int));
        let hash = if lang.is_skipped(&node) {
            0
        } else if node.children().len() == 0 {
            lang.simple_hash_indexed_node(&node)
        } else {
            let children = node.children();
            let mut combined: u64 = 0;
            let mut k: usize = 0;
            while k < children.len()
                invariant
                    k <= children@.len(),
                    children@ == tree@[place as int].children,
                    tiles(tree@, children@, tree@[place as int].first as int, place as int),
                    hashes@.len() == place,
                    forall|i: int| 0 <= i < place ==> hashes@[i] == fingerprint(lang@, tree@, i),
                    combined == fold_children(lang@, tree@, place as int, k as int),
                decreases children@.len() - k,
            {
                let child = children[k];
                combined = merge_structure_hash(combined, hashes[child]);
                k = k + 1;
            }
            combined
        };
        hashes.push(hash);
        place = place + 1;
    }
    hashes
}

/// Computes the running sums of the weights of the nodes of `tree`: at `k`,
/// the sum over the places before `k`.
pub fn weight_sums(lang: &SupportedLanguage, tree: &IndexedTree) -> (sums: Vec<u128>)
    requires
        tree.wf(),
    ensures
        sums@.len() == tree@.len() + 1,
        forall|k: int| 0 <= k <= tree@.len() ==> sums@[k] == lang@.range_weight(tree@, 0, k),
{
    let total = tree.len();
    let mut sums: Vec<u128> = Vec::new();
    sums.push(0);
    let mut place: usize = 0;
    let mut sum: u128 = 0;
    while place < total
        invariant
            total == tree@.len(),
            place <= total,
            sums@.len() == place + 1,
            sum == lang@.range_weight(tree@, 0, place as int),
            sum <= 255 * place,
            forall|k: int| 0 <= k <= place ==> sums@[k] == lang@.range_weight(tree@, 0, k),
        decreases total - place,
    {
        let weight = lang.node_weight(&tree.node(place));
        sum = sum + (weight as u128);
        sums.push(sum);
        place = place + 1;
    }
    sums
}

/// Computes, by place, whether a node above is skipped. The nodes are taken
/// from the root down; a skipped node marks all that is below it, unless it
/// is marked itself, in which case its subtree is marked already.
pub fn hidden_places(lang: &SupportedLanguage, tree: &IndexedTree) -> (marks: Vec<bool>)
    requires
        tree.wf(),
    ensures
        marks@.len() == tree@.len(),
        forall|i: int| 0 <= i < tree@.len() ==> marks@[i] == hidden(lang@, tree@, i),
{
    let total = tree.len();
    let mut marks: Vec<bool> = Vec::new();
    let mut filled: usize = 0;
    while filled < total
        invariant
            filled <= total,
            marks@.len() == filled,
            forall|i: int| 0 <= i < filled ==> !marks@[i],
        decreases total - filled,
    {
        marks.push(false);
        filled = filled + 1;
    }
    let mut above: usize = total;
    while above > 0
        invariant
            tree.wf(),
            total == tree@.len(),
            above <= total,
            marks@.len() == total,
            forall|i: int|
                0 <= i < total ==> (marks@[i] <==> exists|a: int|
                    above <= a && #[trigger] hides(lang@, tree@, a, i)),
        decreases above,
    {
        let place = above - 1;
        let node = tree.node(place);
        assert(node_ok(tree@, place as int));
        let ghost before = marks@;
        let first = node.first();
        let marking = lang.is_skipped(&node) && !marks[place];
        if marking {
            let mut below: usize = first;
            while below < place
                invariant
                    first <= below <= place < total,
                    marks@.len() == total,
                    before.len() == total,
                    forall|i: int|
                        0 <= i < total ==> (marks@[i] <==> before[i] || first <= i < below),
                decreases place - below,
            {
                marks.set(below, true);
                below = below + 1;
            }
        }
        proof {
            assert forall|i: int| 0 <= i < total implies (marks@[i] <==> exists|a: int|
                place <= a && #[trigger] hides(lang@, tree@, a, i)) by {
                assert(marks@[i] <==> before[i] || (marking && first <= i < place));
                if before[i] {
                    let a = choose|a: int| above <= a && #[trigger] hides(lang@, tree@, a, i);
                    assert(place <= a && hides(lang@, tree@, a, i));
                }
                if marking && first <= i < place {
                    assert(place <= place && hides(lang@, tree@, place as int, i));
                }
                if exists|a: int| place <= a && #[trigger] hides(lang@, tree@, a, i) {
                    let a = choose|a: int| place <= a && #[trigger] hides(lang@, tree@, a, i);
                    if a == place {
                        if !marking {
                            assert(before[place as int]);
                            let x = choose|x: int|
                                above <= x && #[trigger] hides(lang@, tree@, x, place as int);
                            lemma_nested(tree@, x, place as int);
                            assert(above <= x && hides(lang@, tree@, x, i));
                            assert(before[i]);
                        }
                    } else {
                        assert(above <= a && hides(lang@, tree@, a, i));
                        assert(before[i]);
                    }
                }
            }
        }
        above = place;
    }
    proof {
        assert forall|i: int| 0 <= i < tree@.len() implies marks@[i] == hidden(lang@, tree@, i) by {
            if marks@[i] {
                let a = choose|a: int| 0 <= a && #[trigger] hides(lang@, tree@, a, i);
                assert(hides(lang@, tree@, a, i));
            }
            if hidden(lang@, tree@, i) {
                let a = choose|a: int| hides(lang@, tree@, a, i);
                assert(0 <= a && hides(lang@, tree@, a, i));
            }
        }
    }
    marks
}

/// Computes what the hasher registers for each place of `tree`: the
/// fingerprint for a registered subtree, nothing for any other.
pub fn registrations(lang: &SupportedLanguage, tree: &IndexedTree) -> (found: Vec<Option<u64>>)
    requires
        tree.wf(),
    ensures
        found@.len() == tree@.len(),
        forall|i: int| 0 <= i < tree@.len() ==> found@[i] == registration(lang@, tree@, i),
{
    let total = tree.len();
    let hashes = fingerprints(lang, tree);
    let sums = weight_sums(lang, tree);
    let marks = hidden_places(lang, tree);
    let threshold = lang.complexity_threshold();
    let mut found: Vec<Option<u64>> = Vec::new();
    let mut place: usize = 0;
    while place < total
        invariant
            tree.wf(),
            total == tree@.len(),
            place <= total,
            threshold == lang@.threshold,
            hashes@.len() == total,
            sums@.len() == total + 1,
            marks@.len() == total,
            forall|i: int| 0 <= i < total ==> hashes@[i] == fingerprint(lang@, tree@, i),
            forall|k: int| 0 <= k <= total ==> sums@[k] == lang@.range_weight(tree@, 0, k),
            forall|i: int| 0 <= i < total ==> marks@[i] == hidden(lang@, tree@, i),
            found@.len() == place,
            forall|i: int| 0 <= i < place ==> found@[i] == registration(lang@, tree@, i),
        decreases total - place,
    {
        let node = tree.node(place);
        assert(node_ok(tree@, place as int));
        let first = node.first();
        proof {
            lemma_range_weight_splits(lang@, tree@, 0, first as int, place + 1);
        }
        let complexity: u128 = sums[place + 1] - sums[first];
        let candidate = !marks[place] && !lang.is_skipped(&node) && node.children().len() > 0
            && lang.indexed_node_taste(&node) == NodeTaste::Interesting && complexity
            >= threshold as u128;
        if candidate {
            found.push(Some(hashes[place]));
        } else {
            found.push(None);
        }
        place = place + 1;
    }
    found
}

/// The two trees have the same nodes but for the path of their file.
pub open spec fn same_but_for_path(a: Seq<NodeView>, b: Seq<NodeView>) -> bool {
    &&& a.len() == b.len()
    &&& forall|i: int| 0 <= i < a.len() ==> (#[trigger] b[i]) == (NodeView { path: b[i].path, ..a[i] })
}

/// Hashing is a function of the content of a tree: in two files with the
/// same nodes, the subtrees at the same place have the same fingerprint, and
/// the hasher registers the same places. The path plays no part.
pub proof fn law_same_content_same_fingerprints(
    lang: LanguageView,
    a: Seq<NodeView>,
    b: Seq<NodeView>,
    i: int,
)
    requires
        same_but_for_path(a, b),
        0 <= i < a.len(),
    ensures
        fingerprint(lang, a, i) == fingerprint(lang, b, i),
        registered(lang, a, i) == registered(lang, b, i),
        registration(lang, a, i) == registration(lang, b, i),
{
    lemma_same_fingerprint(lang, a, b, i, a[i].children.len() as int + 1);
    lemma_same_weight(lang, a, b, a[i].first as int, i + 1);
    assert(lang.cognitive_complexity(a, i) == lang.cognitive_complexity(b, i));
    assert(hidden(lang, a, i) == hidden(lang, b, i)) by {
        if hidden(lang, a, i) {
            let x = choose|x: int| hides(lang, a, x, i);
            assert(hides(lang, b, x, i));
        }
        if hidden(lang, b, i) {
            let x = choose|x: int| hides(lang, b, x, i);
            assert(hides(lang, a, x, i));
        }
    }
}

/// The weights of a range are the same in two trees with the same nodes.
proof fn lemma_same_weight(lang: LanguageView, a: Seq<NodeView>, b: Seq<NodeView>, lo: int, hi: int)
    requires
        same_but_for_path(a, b),
        0 <= lo,
        hi <= a.len(),
    ensures
        lang.range_weight(a, lo, hi) == lang.range_weight(b, lo, hi),
    decreases hi - lo,
{
    if lo < hi {
        lemma_same_weight(lang, a, b, lo, hi - 1);
        assert(b[hi - 1].kind == a[hi - 1].kind);
    }
}

/// The fingerprint at `i`, and the fold of the first `k - 1` children of
/// `i`, are the same in two trees with the same nodes.
proof fn lemma_same_fingerprint(lang: LanguageView, a: Seq<NodeView>, b: Seq<NodeView>, i: int, k: int)
    requires
        same_but_for_path(a, b),
        0 <= i < a.len(),
        0 <= k <= a[i].children.len() + 1,
    ensures
        k == a[i].children.len() + 1 ==> fingerprint(lang, a, i) == fingerprint(lang, b, i),
        k <= a[i].children.len() ==> fold_children(lang, a, i, k) == fold_children(lang, b, i, k),
    decreases i, k,
{
    assert(b[i] == (NodeView { path: b[i].path, ..a[i] }));
    assert(b[i].text() == a[i].text());
    assert(lang.leaf_hash(a[i]) == lang.leaf_hash(b[i]));
    if k == a[i].children.len() + 1 {
        lemma_same_fingerprint(lang, a, b, i, k - 1);
    } else if k > 0 {
        lemma_same_fingerprint(lang, a, b, i, k - 1);
        let child = a[i].children[k - 1] as int;
        if 0 <= child < i {
            lemma_same_fingerprint(lang, a, b, child, a[child].children.len() as int + 1);
        }
    }
}

/// The node `x` of a subtree that starts at place `fa` and the node `y` of a
/// subtree that starts at place `fb` are alike: they have the same kind,
/// text, capture tag and defect flag, stand at the same place of their
/// subtree, and have their children at the same places of it.
pub open spec fn alike(x: NodeView, y: NodeView, fa: int, fb: int) -> bool {
    &&& x.kind == y.kind
    &&& x.text() == y.text()
    &&& x.query_index == y.query_index
    &&& x.defective == y.defective
    &&& x.id - fa == y.id - fb
    &&& x.first - fa == y.first - fb
    &&& x.children.len() == y.children.len()
    &&& forall|k: int|
        0 <= k < x.children.len() ==> (#[trigger] x.children[k]) - fa == y.children[k] - fb
}

/// The nodes at the place `d` of the subtree at `i` of `a` and of the
/// subtree at `j` of `b` are alike.
pub open spec fn alike_at(a: Seq<NodeView>, i: int, b: Seq<NodeView>, j: int, d: int) -> bool {
    alike(a[a[i].first + d], b[b[j].first + d], a[i].first as int, b[j].first as int)
}

/// The subtree at `i` of `a` and the subtree at `j` of `b` are the same
/// code: they have the same number of nodes, and node for node the same
/// kind, text, capture tag, defect flag and children. The two may stand in
/// one file or in two, and what is around them may differ.
pub open spec fn same_subtree(a: Seq<NodeView>, i: int, b: Seq<NodeView>, j: int) -> bool {
    &&& 0 <= i < a.len()
    &&& 0 <= j < b.len()
    &&& i - a[i].first == j - b[j].first
    &&& forall|d: int| 0 <= d <= i - a[i].first ==> #[trigger] alike_at(a, i, b, j, d)
}

/// The node `x` of a subtree that starts at place `fa` and the node `y` of a
/// subtree that starts at place `fb` have the same shape under the profile
/// `lang`: the same kind and defect flag, the same place in their subtree,
/// their children at the same places of it, and, where they are leaves, the
/// same leaf hash.
pub open spec fn alike_under(lang: LanguageView, x: NodeView, y: NodeView, fa: int, fb: int) -> bool {
    &&& x.kind == y.kind
    &&& x.defective == y.defective
    &&& x.id - fa == y.id - fb
    &&& x.first - fa == y.first - fb
    &&& x.children.len() == y.children.len()
    &&& forall|k: int|
        0 <= k < x.children.len() ==> (#[trigger] x.children[k]) - fa == y.children[k] - fb
    &&& x.children.len() == 0 ==> lang.leaf_hash(x) == lang.leaf_hash(y)
}

/// The nodes at the place `d` of the subtree at `i` of `a` and of the
/// subtree at `j` of `b` have the same shape.
pub open spec fn shaped_at(
    lang: LanguageView,
    a: Seq<NodeView>,
    i: int,
    b: Seq<NodeView>,
    j: int,
    d: int,
) -> bool {
    alike_under(lang, a[a[i].first + d], b[b[j].first + d], a[i].first as int, b[j].first as int)
}

/// The subtree at `i` of `a` and the subtree at `j` of `b` have the same
/// shape under the profile `lang`: the same number of nodes, and node for
/// node the same kind, defect flag and children, and the same hash at every
/// leaf.
pub open spec fn same_shape(lang: LanguageView, a: Seq<NodeView>, i: int, b: Seq<NodeView>, j: int) -> bool {
    &&& 0 <= i < a.len()
    &&& 0 <= j < b.len()
    &&& i - a[i].first == j - b[j].first
    &&& forall|d: int| 0 <= d <= i - a[i].first ==> #[trigger] shaped_at(lang, a, i, b, j, d)
}

/// The same code has the same shape under every profile.
pub proof fn lemma_same_code_same_shape(
    lang: LanguageView,
    a: Seq<NodeView>,
    i: int,
    b: Seq<NodeView>,
    j: int,
)
    requires
        same_subtree(a, i, b, j),
    ensures
        same_shape(lang, a, i, b, j),
{
    assert forall|d: int| 0 <= d <= i - a[i].first implies #[trigger] shaped_at(
        lang,
        a,
        i,
        b,
        j,
        d,
    ) by {
        assert(alike_at(a, i, b, j, d));
    }
}

/// The same code has the same fingerprint and the same cognitive
/// complexity, wherever it stands. So where the hasher comes to both
/// subtrees, it registers both or none.
pub proof fn law_same_code_same_fingerprint(
    lang: LanguageView,
    a: Seq<NodeView>,
    i: int,
    b: Seq<NodeView>,
    j: int,
)
    requires
        crate::tree::tree_ok(a),
        crate::tree::tree_ok(b),
        same_subtree(a, i, b, j),
    ensures
        fingerprint(lang, a, i) == fingerprint(lang, b, j),
        lang.cognitive_complexity(a, i) == lang.cognitive_complexity(b, j),
        !hidden(lang, a, i) && !hidden(lang, b, j) ==> (registered(lang, a, i) <==> registered(
            lang,
            b,
            j,
        )),
{
    lemma_same_code_same_shape(lang, a, i, b, j);
    law_same_shape_same_fingerprint(lang, a, i, b, j);
}

/// Under the profile of Rust, two identifiers that the highlight query tags
/// neither as a parameter nor with a preserved tag hash alike, whatever
/// their names are.
pub proof fn law_rust_identifiers_hash_alike(lang: LanguageView, x: NodeView, y: NodeView)
    requires
        lang.dialect == crate::syntax::Dialect::Rust,
        x.kind == "identifier"@,
        y.kind == "identifier"@,
        crate::languages::rust::rust_leaf_source(lang.capture(x.query_index), x.kind)
            == crate::languages::LeafSource::KindName,
        crate::languages::rust::rust_leaf_source(lang.capture(y.query_index), y.kind)
            == crate::languages::LeafSource::KindName,
    ensures
        lang.leaf_hash(x) == lang.leaf_hash(y),
{
}

/// Code of the same shape has the same fingerprint and the same cognitive
/// complexity, wherever it stands: it does not matter what the leaves say,
/// as long as they hash alike. So renamed variables, which a profile hashes
/// by the name of their tag or of their kind, change no fingerprint.
pub proof fn law_same_shape_same_fingerprint(
    lang: LanguageView,
    a: Seq<NodeView>,
    i: int,
    b: Seq<NodeView>,
    j: int,
)
    requires
        crate::tree::tree_ok(a),
        crate::tree::tree_ok(b),
        same_shape(lang, a, i, b, j),
    ensures
        fingerprint(lang, a, i) == fingerprint(lang, b, j),
        lang.cognitive_complexity(a, i) == lang.cognitive_complexity(b, j),
        !hidden(lang, a, i) && !hidden(lang, b, j) ==> (registered(lang, a, i) <==> registered(
            lang,
            b,
            j,
        )),
{
    let n = i - a[i].first;
    assert(node_ok(a, i));
    assert(node_ok(b, j));
    assert(shaped_at(lang, a, i, b, j, n));
    lemma_subtree_fingerprint(lang, a, i, b, j, n, a[i].children.len() as int + 1);
    lemma_subtree_weight(lang, a, i, b, j, n + 1);
}

/// The weights of the first `count` nodes of two subtrees of the same code
/// are the same.
proof fn lemma_subtree_weight(
    lang: LanguageView,
    a: Seq<NodeView>,
    i: int,
    b: Seq<NodeView>,
    j: int,
    count: int,
)
    requires
        same_shape(lang, a, i, b, j),
        0 <= count <= i - a[i].first + 1,
    ensures
        lang.range_weight(a, a[i].first as int, a[i].first + count) == lang.range_weight(
            b,
            b[j].first as int,
            b[j].first + count,
        ),
    decreases count,
{
    if count > 0 {
        lemma_subtree_weight(lang, a, i, b, j, count - 1);
        assert(shaped_at(lang, a, i, b, j, count - 1));
    }
}

/// The fingerprints at the place `d` of two subtrees of the same code, and
/// the folds of the first `k - 1` children there, are the same.
proof fn lemma_subtree_fingerprint(
    lang: LanguageView,
    a: Seq<NodeView>,
    i: int,
    b: Seq<NodeView>,
    j: int,
    d: int,
    k: int,
)
    requires
        crate::tree::tree_ok(a),
        crate::tree::tree_ok(b),
        same_shape(lang, a, i, b, j),
        0 <= d <= i - a[i].first,
        0 <= k <= a[a[i].first + d].children.len() + 1,
    ensures
        k == a[a[i].first + d].children.len() + 1 ==> fingerprint(lang, a, a[i].first + d)
            == fingerprint(lang, b, b[j].first + d),
        k <= a[a[i].first + d].children.len() ==> fold_children(lang, a, a[i].first + d, k)
            == fold_children(lang, b, b[j].first + d, k),
    decreases d, k,
{
    let fa = a[i].first as int;
    let fb = b[j].first as int;
    let x = fa + d;
    let y = fb + d;
    assert(node_ok(a, i));
    assert(node_ok(a, x));
    assert(node_ok(b, y));
    assert(shaped_at(lang, a, i, b, j, d));
    
    if k == a[x].children.len() + 1 {
        lemma_subtree_fingerprint(lang, a, i, b, j, d, k - 1);
    } else if k > 0 {
        lemma_subtree_fingerprint(lang, a, i, b, j, d, k - 1);
        let ca = a[x].children[k - 1] as int;
        let cb = b[y].children[k - 1] as int;
        assert(ca - fa == cb - fb);
        assert(a[x].first <= ca < x);
        if x < i {
            lemma_nested(a, i, x);
        }
        assert(fa <= ca);
        lemma_subtree_fingerprint(
            lang,
            a,
            i,
            b,
            j,
            ca - fa,
            a[ca].children.len() as int + 1,
        );
    }
}

} // verus!
