//! The indexed tree of one file: its nodes in post-order, so that the
//! subtree below a node is a run of consecutive places that ends at the node.

use vstd::prelude::*;
use std::sync::Arc;
use crate::node::{share, IndexedNode, NodeInfo, NodeView, Point};

verus! {

/// The subtrees of `children` lie side by side in `nodes` and fill the places
/// from `lo` up to `hi`.
pub open spec fn tiles(nodes: Seq<NodeView>, children: Seq<usize>, lo: int, hi: int) -> bool {
    &&& forall|j: int| 0 <= j < children.len() ==> lo <= #[trigger] children[j] < hi
    &&& if children.len() == 0 {
        lo == hi
    } else {
        &&& nodes[children[0] as int].first == lo
        &&& children[children.len() - 1] + 1 == hi
        &&& forall|j: int|
            0 < j < children.len() ==> nodes[#[trigger] children[j] as int].first == children[j
                - 1] + 1
    }
}

/// The node at place `i` of `nodes` knows its place, and its children's
/// subtrees fill the places from its `first` up to its own.
pub open spec fn node_ok(nodes: Seq<NodeView>, i: int) -> bool {
    &&& nodes[i].id == i
    &&& nodes[i].first <= i
    &&& tiles(nodes, nodes[i].children, nodes[i].first as int, i)
}

/// `nodes` is one tree in post-order: the last node is the root and spans
/// all places, every node is laid out as `node_ok` says, and all nodes carry
/// the path and the source of the root.
pub open spec fn tree_ok(nodes: Seq<NodeView>) -> bool {
    &&& nodes.len() > 0
    &&& nodes.last().first == 0
    &&& forall|i: int| 0 <= i < nodes.len() ==> #[trigger] node_ok(nodes, i)
    &&& forall|i: int|
        0 <= i < nodes.len() ==> (#[trigger] nodes[i]).path == nodes.last().path && nodes[i].source
            == nodes.last().source
}

/// The node at place `d` lies below the node at place `a`.
pub open spec fn is_below(nodes: Seq<NodeView>, a: int, d: int) -> bool {
    0 <= a < nodes.len() && nodes[a].first <= d < a
}

/// The indexed tree of one file. It is never changed once it is made.
pub struct IndexedTree {
    nodes: Vec<Arc<IndexedNode>>,
}

impl View for IndexedTree {
    type V = Seq<NodeView>;

    closed spec fn view(&self) -> Seq<NodeView> {
        Seq::new(self.nodes@.len(), |i: int| self.nodes@[i]@)
    }
}

impl IndexedTree {
    /// The tree is laid out as `tree_ok` says.
    pub open spec fn wf(&self) -> bool {
        tree_ok(self@)
    }

    /// Number of nodes.
    pub fn len(&self) -> (n: usize)
        ensures
            n == self@.len(),
    {
        self.nodes.len()
    }

    /// The node at place `index`.
    pub fn node(&self, index: usize) -> (node: Arc<IndexedNode>)
        requires
            index < self@.len(),
        ensures
            node@ == self@[index as int],
    {
        share(&self.nodes[index])
    }

    /// The node at place `index`, if there is one.
    pub fn get(&self, index: usize) -> (node: Option<Arc<IndexedNode>>)
        ensures
            node is Some <==> index < self@.len(),
            node matches Some(n) ==> n@ == self@[index as int],
    {
        if index < self.nodes.len() {
            Some(share(&self.nodes[index]))
        } else {
            None
        }
    }

    /// The root: the last node in post-order.
    pub fn root_node(&self) -> (root: Arc<IndexedNode>)
        requires
            self.wf(),
        ensures
            root@ == self@.last(),
    {
        share(&self.nodes[self.nodes.len() - 1])
    }
}

/// The mathematical content of a node that a [`TreeBuilder`] has entered and
/// not yet left.
pub struct FrameView {
    pub kind: Seq<char>,
    pub start: Point,
    pub end: Point,
    pub start_byte: usize,
    pub end_byte: usize,
    pub defective: bool,
    pub query_index: Option<usize>,
    /// Number of nodes that were finished when the node was entered.
    pub first: usize,
    /// Places of the children that are finished.
    pub children: Seq<usize>,
}

/// The mathematical content of a [`TreeBuilder`].
pub struct BuilderView {
    pub path: Seq<char>,
    pub source: Seq<char>,
    /// The finished nodes, in post-order.
    pub done: Seq<NodeView>,
    /// The nodes that were entered and not yet left, outermost first.
    pub open: Seq<FrameView>,
}

impl BuilderView {
    /// A node may be entered: below an open node, or as the root where
    /// nothing was built yet.
    pub open spec fn can_enter(self) -> bool {
        self.open.len() > 0 || self.done.len() == 0
    }

    /// The builder after the node described by the arguments is entered.
    pub open spec fn entered(
        self,
        kind: Seq<char>,
        start: Point,
        end: Point,
        start_byte: usize,
        end_byte: usize,
        defective: bool,
        query_index: Option<usize>,
    ) -> BuilderView {
        BuilderView {
            open: self.open.push(
                FrameView {
                    kind,
                    start,
                    end,
                    start_byte,
                    end_byte,
                    defective,
                    query_index,
                    first: self.done.len() as usize,
                    children: Seq::empty(),
                },
            ),
            ..self
        }
    }

    /// The node that leaving the innermost open node finishes.
    pub open spec fn finished(self) -> NodeView {
        let frame = self.open.last();
        NodeView {
            id: self.done.len() as usize,
            first: frame.first,
            path: self.path,
            source: self.source,
            query_index: frame.query_index,
            children: frame.children,
            kind: frame.kind,
            start: frame.start,
            end: frame.end,
            start_byte: frame.start_byte,
            end_byte: frame.end_byte,
            defective: frame.defective,
        }
    }

    /// The builder after the innermost open node is left: the node is
    /// finished, and the node around it has it as its next child.
    pub open spec fn left(self) -> BuilderView {
        let rest = self.open.drop_last();
        BuilderView {
            done: self.done.push(self.finished()),
            open: if rest.len() == 0 {
                rest
            } else {
                rest.update(
                    rest.len() - 1,
                    FrameView {
                        children: rest.last().children.push(self.done.len() as usize),
                        ..rest.last()
                    },
                )
            },
            ..self
        }
    }

    /// Place at which the part of the tree below the open node `k` ends so
    /// far.
    pub open spec fn end_of(self, k: int) -> int {
        if k + 1 < self.open.len() {
            self.open[k + 1].first as int
        } else {
            self.done.len() as int
        }
    }

    /// What holds of a builder at every moment: the finished nodes are laid
    /// out in post-order, and the finished children of each open node fill
    /// the places from where it was entered.
    pub open spec fn inv(self) -> bool {
        &&& forall|i: int| 0 <= i < self.done.len() ==> #[trigger] node_ok(self.done, i)
        &&& forall|i: int|
            0 <= i < self.done.len() ==> (#[trigger] self.done[i]).path == self.path
                && self.done[i].source == self.source
        &&& self.open.len() > 0 ==> self.open[0].first == 0
        &&& self.open.len() == 0 && self.done.len() > 0 ==> self.done.last().first == 0
        &&& forall|k: int|
            0 <= k < self.open.len() ==> tiles(
                self.done,
                (#[trigger] self.open[k]).children,
                self.open[k].first as int,
                self.end_of(k),
            )
    }
}

/// The builder after every open node is left, innermost first.
pub open spec fn closed(builder: BuilderView) -> BuilderView
    decreases builder.open.len(),
{
    if builder.open.len() == 0 {
        builder
    } else {
        closed(builder.left())
    }
}

/// A builder that has entered or finished a node has a finished node once
/// all open nodes are left.
pub proof fn lemma_closed_has_root(builder: BuilderView)
    requires
        builder.open.len() + builder.done.len() > 0,
    ensures
        closed(builder).open.len() == 0,
        closed(builder).done.len() > 0,
    decreases builder.open.len(),
{
    if builder.open.len() > 0 {
        lemma_closed_has_root(builder.left());
    }
}

/// The child `j` of `children` starts where the child before it ends, or
/// behind.
pub open spec fn follows(nodes: Seq<NodeView>, children: Seq<usize>, j: int) -> bool {
    nodes[children[j - 1] as int].end_byte <= nodes[children[j] as int].start_byte
}

/// The children of an open node that are finished lie inside the span of
/// the node and follow each other in the source.
pub open spec fn frame_covers(done: Seq<NodeView>, frame: FrameView) -> bool {
    &&& forall|j: int|
        0 <= j < frame.children.len() ==> frame.start_byte <= done[#[trigger] frame.children[j] as int].start_byte
            && done[frame.children[j] as int].end_byte <= frame.end_byte
    &&& forall|j: int| 0 < j < frame.children.len() ==> #[trigger] follows(done, frame.children, j)
}

/// The span from `start` to `end` lies inside the span of the open node
/// `frame` and behind the last finished child of that node.
pub open spec fn fits_in(done: Seq<NodeView>, frame: FrameView, start: usize, end: usize) -> bool {
    &&& frame.start_byte <= start
    &&& end <= frame.end_byte
    &&& frame.children.len() > 0 ==> done[frame.children.last() as int].end_byte <= start
}

impl BuilderView {
    /// A node with the span from `start` to `end` can be entered so that
    /// spans nest: it lies inside the innermost open node and behind the
    /// child before it.
    pub open spec fn fits(self, start: usize, end: usize) -> bool {
        self.open.len() > 0 ==> fits_in(self.done, self.open.last(), start, end)
    }

    /// Spans nest in all that is built so far.
    pub open spec fn spans_inv(self) -> bool {
        &&& spans_nest(self.done)
        &&& forall|k: int|
            0 <= k < self.open.len() ==> frame_covers(self.done, #[trigger] self.open[k])
        &&& forall|k: int| 0 < k < self.open.len() ==> #[trigger] self.frame_fits(k)
    }

    /// The open node `k` lies inside the open node around it and behind the
    /// finished children of that node.
    pub open spec fn frame_fits(self, k: int) -> bool {
        fits_in(self.done, self.open[k - 1], self.open[k].start_byte, self.open[k].end_byte)
    }
}

/// Entering a node keeps the builder's invariant.
pub proof fn lemma_entered_keeps_inv(
    before: BuilderView,
    kind: Seq<char>,
    start: Point,
    end: Point,
    start_byte: usize,
    end_byte: usize,
    defective: bool,
    query_index: Option<usize>,
)
    requires
        before.inv(),
        before.can_enter(),
        before.done.len() <= usize::MAX,
    ensures
        before.entered(kind, start, end, start_byte, end_byte, defective, query_index).inv(),
{
    let after = before.entered(kind, start, end, start_byte, end_byte, defective, query_index);
    assert forall|k: int| 0 <= k < after.open.len() implies tiles(
        after.done,
        (#[trigger] after.open[k]).children,
        after.open[k].first as int,
        after.end_of(k),
    ) by {
        if k < before.open.len() {
            assert(after.open[k] == before.open[k]);
            assert(tiles(
                before.done,
                before.open[k].children,
                before.open[k].first as int,
                before.end_of(k),
            ));
            if k == before.open.len() - 1 {
                assert(after.end_of(k) == before.done.len());
            } else {
                assert(after.end_of(k) == before.end_of(k));
            }
        }
    }
}

/// Entering a node that fits keeps spans nested.
pub proof fn lemma_entered_keeps_spans(
    before: BuilderView,
    kind: Seq<char>,
    start: Point,
    end: Point,
    start_byte: usize,
    end_byte: usize,
    defective: bool,
    query_index: Option<usize>,
)
    requires
        before.spans_inv(),
        before.fits(start_byte, end_byte),
    ensures
        before.entered(kind, start, end, start_byte, end_byte, defective, query_index).spans_inv(),
{
    let after = before.entered(kind, start, end, start_byte, end_byte, defective, query_index);
    let top = before.open.len() as int;
    assert forall|k: int| 0 <= k < after.open.len() implies frame_covers(
        after.done,
        #[trigger] after.open[k],
    ) by {
        if k < top {
            assert(after.open[k] == before.open[k]);
        }
    }
    assert forall|k: int| 0 < k < after.open.len() implies #[trigger] after.frame_fits(k) by {
        assert(after.open[k - 1] == before.open[k - 1]);
        if k < top {
            assert(after.open[k] == before.open[k]);
            assert(before.frame_fits(k));
        }
    }
}

/// The children of `frame` are among the first `bound` finished nodes.
pub open spec fn children_within(frame: FrameView, bound: int) -> bool {
    forall|j: int| 0 <= j < frame.children.len() ==> (#[trigger] frame.children[j]) < bound
}

/// One more finished node changes nothing for an open node whose children
/// were finished before.
proof fn lemma_covers_after_push(done: Seq<NodeView>, node: NodeView, frame: FrameView)
    requires
        frame_covers(done, frame),
        children_within(frame, done.len() as int),
    ensures
        frame_covers(done.push(node), frame),
{
    let more = done.push(node);
    let cs = frame.children;
    assert forall|j: int| 0 <= j < cs.len() implies more[#[trigger] cs[j] as int]
        == done[cs[j] as int] by {}
    assert forall|j: int| 0 < j < cs.len() implies #[trigger] follows(more, cs, j) by {
        assert(cs[j - 1] < done.len());
        assert(cs[j] < done.len());
        assert(follows(done, cs, j));
    }
}

/// A finished node that fits behind the children of an open node is one
/// more child that the open node covers.
proof fn lemma_covers_with_child(done: Seq<NodeView>, node: NodeView, frame: FrameView)
    requires
        frame_covers(done, frame),
        children_within(frame, done.len() as int),
        fits_in(done, frame, node.start_byte, node.end_byte),
        done.len() <= usize::MAX,
    ensures
        frame_covers(
            done.push(node),
            FrameView { children: frame.children.push(done.len() as usize), ..frame },
        ),
{
    let more = done.push(node);
    let cs = frame.children;
    let now = cs.push(done.len() as usize);
    assert forall|j: int| 0 <= j < now.len() implies frame.start_byte
        <= more[#[trigger] now[j] as int].start_byte && more[now[j] as int].end_byte
        <= frame.end_byte by {
        if j < cs.len() {
            assert(now[j] == cs[j]);
            assert(more[cs[j] as int] == done[cs[j] as int]);
        }
    }
    assert forall|j: int| 0 < j < now.len() implies #[trigger] follows(more, now, j) by {
        assert(now[j - 1] == cs[j - 1]);
        assert(cs[j - 1] < done.len());
        assert(more[cs[j - 1] as int] == done[cs[j - 1] as int]);
        if j < cs.len() {
            assert(now[j] == cs[j]);
            assert(cs[j] < done.len());
            assert(more[cs[j] as int] == done[cs[j] as int]);
            assert(follows(done, cs, j));
        } else {
            assert(cs[j - 1] == cs.last());
        }
    }
}

/// One more finished node changes nothing for a span that fits behind the
/// children of an open node.
proof fn lemma_fits_after_push(
    done: Seq<NodeView>,
    node: NodeView,
    frame: FrameView,
    start: usize,
    end: usize,
)
    requires
        fits_in(done, frame, start, end),
        children_within(frame, done.len() as int),
    ensures
        fits_in(done.push(node), frame, start, end),
{
    if frame.children.len() > 0 {
        assert(frame.children[frame.children.len() - 1] < done.len());
    }
}

/// A finished node whose children were finished before and lie inside it
/// keeps spans nested.
proof fn lemma_nest_after_push(done: Seq<NodeView>, node: NodeView, frame: FrameView)
    requires
        spans_nest(done),
        forall|i: int| 0 <= i < done.len() ==> #[trigger] node_ok(done, i),
        frame_covers(done, frame),
        children_within(frame, done.len() as int),
        node.children == frame.children,
        node.start_byte == frame.start_byte,
        node.end_byte == frame.end_byte,
    ensures
        spans_nest(done.push(node)),
{
    let more = done.push(node);
    assert forall|i: int| 0 <= i < more.len() implies #[trigger] spans_nest_at(more, i) by {
        if i < done.len() {
            assert(node_ok(done, i));
            assert(spans_nest_at(done, i));
            let cs = done[i].children;
            assert forall|j: int| 0 <= j < cs.len() implies more[#[trigger] cs[j] as int]
                == done[cs[j] as int] by {}
            assert forall|j: int| 0 < j < cs.len() implies #[trigger] follows(more, cs, j) by {
                assert(cs[j - 1] < i);
                assert(cs[j] < i);
                assert(follows(done, cs, j));
            }
        } else {
            lemma_covers_after_push(done, node, frame);
        }
    }
}

/// The finished children of every open node were finished before the part
/// below the node ends.
proof fn lemma_children_within(builder: BuilderView, k: int)
    requires
        builder.inv(),
        0 <= k < builder.open.len(),
    ensures
        children_within(builder.open[k], builder.done.len() as int),
{
    lemma_end_of_bounded(builder, k);
    let cs = builder.open[k].children;
    assert(tiles(builder.done, cs, builder.open[k].first as int, builder.end_of(k)));
    assert forall|j: int| 0 <= j < cs.len() implies (#[trigger] cs[j]) < builder.done.len() by {
        assert(cs[j] < builder.end_of(k));
    }
}

/// Leaving a node keeps spans nested.
pub proof fn lemma_left_keeps_spans(before: BuilderView)
    requires
        before.inv(),
        before.spans_inv(),
        before.open.len() > 0,
        before.done.len() < usize::MAX,
    ensures
        before.left().spans_inv(),
{
    let after = before.left();
    let top = before.open.len() - 1;
    let frame = before.open[top];
    let node = before.finished();
    assert(after.done == before.done.push(node));
    lemma_children_within(before, top);
    assert(frame_covers(before.done, frame));
    lemma_nest_after_push(before.done, node, frame);
    assert forall|k: int| 0 <= k < after.open.len() implies frame_covers(
        after.done,
        #[trigger] after.open[k],
    ) by {
        lemma_children_within(before, k);
        assert(frame_covers(before.done, before.open[k]));
        if k < top - 1 {
            assert(after.open[k] == before.open[k]);
            lemma_covers_after_push(before.done, node, before.open[k]);
        } else {
            assert(before.frame_fits(top));
            lemma_covers_with_child(before.done, node, before.open[k]);
        }
    }
    assert forall|k: int| 0 < k < after.open.len() implies #[trigger] after.frame_fits(k) by {
        assert(after.open[k - 1] == before.open[k - 1]);
        assert(after.open[k].start_byte == before.open[k].start_byte);
        assert(after.open[k].end_byte == before.open[k].end_byte);
        assert(before.frame_fits(k));
        lemma_children_within(before, k - 1);
        lemma_fits_after_push(
            before.done,
            node,
            before.open[k - 1],
            before.open[k].start_byte,
            before.open[k].end_byte,
        );
    }
}

/// Leaving all open nodes keeps the builder's invariant and keeps spans
/// nested.
pub proof fn lemma_closed_keeps_spans(builder: BuilderView)
    requires
        builder.inv(),
        builder.spans_inv(),
        builder.done.len() + builder.open.len() <= usize::MAX,
    ensures
        closed(builder).inv(),
        closed(builder).spans_inv(),
    decreases builder.open.len(),
{
    if builder.open.len() > 0 {
        lemma_left_keeps_inv(builder);
        lemma_left_keeps_spans(builder);
        lemma_closed_keeps_spans(builder.left());
    }
}

struct Frame {
    info: NodeInfo,
    query_index: Option<usize>,
    first: usize,
    children: Vec<usize>,
}

impl View for Frame {
    type V = FrameView;

    closed spec fn view(&self) -> FrameView {
        FrameView {
            kind: self.info.kind@,
            start: self.info.start,
            end: self.info.end,
            start_byte: self.info.start_byte,
            end_byte: self.info.end_byte,
            defective: self.info.is_extra || self.info.is_missing || self.info.is_error,
            query_index: self.query_index,
            first: self.first,
            children: self.children@,
        }
    }
}

/// Builds an [`IndexedTree`] from a walk over a syntax tree: each node is
/// entered before its children and left after them, so that the nodes are
/// finished in post-order.
pub struct TreeBuilder {
    path: Arc<String>,
    source: Arc<String>,
    nodes: Vec<Arc<IndexedNode>>,
    open: Vec<Frame>,
}

impl View for TreeBuilder {
    type V = BuilderView;

    closed spec fn view(&self) -> BuilderView {
        BuilderView {
            path: self.path@,
            source: self.source@,
            done: Seq::new(self.nodes@.len(), |i: int| self.nodes@[i]@),
            open: Seq::new(self.open@.len(), |k: int| self.open@[k]@),
        }
    }
}

impl TreeBuilder {
    /// A builder for the file at `path` with the text `source`, with nothing
    /// built yet.
    pub fn new(path: Arc<String>, source: Arc<String>) -> (builder: Self)
        ensures
            builder@ == (BuilderView {
                path: path@,
                source: source@,
                done: Seq::empty(),
                open: Seq::empty(),
            }),
            builder@.inv(),
    {
        let builder = Self { path, source, nodes: Vec::new(), open: Vec::new() };
        assert(builder@.done =~= Seq::empty());
        assert(builder@.open =~= Seq::empty());
        builder
    }

    /// Number of nodes that are entered and not yet left.
    pub fn depth(&self) -> (depth: usize)
        ensures
            depth == self@.open.len(),
    {
        self.open.len()
    }

    /// Number of finished nodes.
    pub fn finished_nodes(&self) -> (n: usize)
        ensures
            n == self@.done.len(),
    {
        self.nodes.len()
    }

    /// Enters a node. Refused, with nothing changed, where the root was
    /// already left.
    pub fn enter(&mut self, info: NodeInfo, query_index: Option<usize>) -> (accepted: bool)
        requires
            old(self)@.inv(),
        ensures
            accepted == old(self)@.can_enter(),
            accepted ==> final(self)@ == old(self)@.entered(
                info.kind@,
                info.start,
                info.end,
                info.start_byte,
                info.end_byte,
                info.is_extra || info.is_missing || info.is_error,
                query_index,
            ),
            !accepted ==> final(self)@ == old(self)@,
            final(self)@.inv(),
    {
        if self.open.len() == 0 && self.nodes.len() > 0 {
            return false;
        }
        let ghost before = self@;
        let ghost given = info;
        let frame = Frame { info, query_index, first: self.nodes.len(), children: Vec::new() };
        self.open.push(frame);
        proof {
            let after = self@;
            let expected = before.entered(
                given.kind@,
                given.start,
                given.end,
                given.start_byte,
                given.end_byte,
                given.is_extra || given.is_missing || given.is_error,
                query_index,
            );
            assert(after.done =~= before.done);
            assert(after.open =~= expected.open);
            assert(after == expected);
            assert forall|k: int| 0 <= k < after.open.len() implies tiles(
                after.done,
                (#[trigger] after.open[k]).children,
                after.open[k].first as int,
                after.end_of(k),
            ) by {
                if k < before.open.len() {
                    assert(after.open[k] == before.open[k]);
                    assert(after.end_of(k) == before.end_of(k));
                }
            }
        }
        true
    }

    /// Leaves the innermost open node, which finishes it. Refused, with
    /// nothing changed, where no node is open.
    pub fn leave(&mut self) -> (accepted: bool)
        requires
            old(self)@.inv(),
        ensures
            accepted == (old(self)@.open.len() > 0),
            accepted ==> final(self)@ == old(self)@.left(),
            !accepted ==> final(self)@ == old(self)@,
            final(self)@.inv(),
    {
        let ghost before = self@;
        let frame = match self.open.pop() {
            Some(frame) => frame,
            None => {
                return false;
            },
        };
        let id = self.nodes.len();
        assert(frame@ == before.open.last());
        let node = IndexedNode::new(
            frame.info,
            id,
            frame.first,
            share(&self.path),
            frame.query_index,
            frame.children,
            share(&self.source),
        );
        assert(node@ == before.finished());
        self.nodes.push(Arc::new(node));
        let total = self.nodes.len();
        assert(before.done.len() + 1 == total);
        match self.open.pop() {
            Some(parent) => {
                let mut parent = parent;
                parent.children.push(id);
                self.open.push(parent);
            },
            None => {},
        }
        proof {
            let after = self@;
            let expected = before.left();
            assert(after.done =~= expected.done);
            assert(after.open =~= expected.open);
            assert(after == expected);
            lemma_left_keeps_inv(before);
        }
        true
    }

    /// Leaves every open node, innermost first.
    pub fn close(&mut self)
        requires
            old(self)@.inv(),
        ensures
            final(self)@ == closed(old(self)@),
            final(self)@.inv(),
            final(self)@.open.len() == 0,
            final(self)@.path == old(self)@.path,
            final(self)@.source == old(self)@.source,
    {
        while self.depth() > 0
            invariant
                self@.inv(),
                closed(self@) == closed(old(self)@),
                self@.path == old(self)@.path,
                self@.source == old(self)@.source,
            decreases self@.open.len(),
        {
            self.leave();
        }
    }

    /// The tree, where a root was entered and every entered node was left.
    pub fn finish(self) -> (tree: Option<IndexedTree>)
        requires
            self@.inv(),
        ensures
            tree is Some <==> self@.open.len() == 0 && self@.done.len() > 0,
            tree matches Some(t) ==> t@ == self@.done && t.wf(),
    {
        if self.open.len() == 0 && self.nodes.len() > 0 {
            let tree = IndexedTree { nodes: self.nodes };
            assert(tree@ =~= self@.done);
            Some(tree)
        } else {
            None
        }
    }
}

/// Leaving a node keeps the builder's invariant.
pub proof fn lemma_left_keeps_inv(before: BuilderView)
    requires
        before.inv(),
        before.open.len() > 0,
        before.done.len() < usize::MAX,
    ensures
        before.left().inv(),
{
    let after = before.left();
    let id = before.done.len() as int;
    let top = before.open.len() - 1;
    let frame = before.open[top];
    assert(before.end_of(top) == id);
    assert(tiles(before.done, frame.children, frame.first as int, id));
    assert forall|i: int| 0 <= i < after.done.len() implies #[trigger] node_ok(after.done, i) by {
        if i < id {
            assert(node_ok(before.done, i));
            assert(after.done[i] == before.done[i]);
            let cs = before.done[i].children;
            assert forall|j: int| 0 <= j < cs.len() implies after.done[cs[j] as int]
                == before.done[cs[j] as int] by {}
        } else {
            assert(after.done[i] == before.finished());
            let cs = frame.children;
            assert forall|j: int| 0 <= j < cs.len() implies after.done[cs[j] as int]
                == before.done[cs[j] as int] by {}
            if cs.len() > 0 {
                assert(frame.first <= cs[0]) by {
                    assert(node_ok(before.done, cs[0] as int));
                }
            }
        }
    }
    assert forall|i: int| 0 <= i < after.done.len() implies (#[trigger] after.done[i]).path
        == after.path && after.done[i].source == after.source by {
        if i < id {
            assert(after.done[i] == before.done[i]);
        }
    }
    if top > 0 {
        let parent = before.open[top - 1];
        assert(before.end_of(top - 1) == frame.first);
        assert(tiles(before.done, parent.children, parent.first as int, frame.first as int));
        assert(after.open[top - 1].children == parent.children.push(id as usize));
    }
    assert forall|k: int| 0 <= k < after.open.len() implies tiles(
        after.done,
        (#[trigger] after.open[k]).children,
        after.open[k].first as int,
        after.end_of(k),
    ) by {
        if k < top - 1 {
            assert(after.open[k] == before.open[k]);
            assert(after.end_of(k) == before.end_of(k));
            let cs = before.open[k].children;
            assert(tiles(before.done, cs, before.open[k].first as int, before.end_of(k)));
            assert forall|j: int| 0 <= j < cs.len() implies after.done[cs[j] as int]
                == before.done[cs[j] as int] by {
                assert(cs[j] < before.end_of(k));
                lemma_end_of_bounded(before, k);
            }
        } else {
            let parent = before.open[top - 1];
            let old_cs = parent.children;
            let cs = after.open[k].children;
            assert(cs == old_cs.push(id as usize));
            assert(after.end_of(k) == id + 1);
            assert(frame.first <= id) by {
                if frame.children.len() > 0 {
                    assert(node_ok(before.done, frame.children[0] as int));
                }
            }
            assert forall|j: int| 0 <= j < cs.len() implies parent.first <= #[trigger] cs[j] < id
                + 1 by {
                if j < old_cs.len() {
                    assert(cs[j] == old_cs[j]);
                } else {
                    if old_cs.len() > 0 {
                        assert(node_ok(before.done, old_cs[0] as int));
                    }
                }
            }
            assert forall|j: int| 0 <= j < old_cs.len() implies after.done[old_cs[j] as int]
                == before.done[old_cs[j] as int] by {
                assert(old_cs[j] < frame.first);
            }
            assert(after.done[id].first == frame.first);
            assert forall|j: int| 0 < j < cs.len() implies after.done[#[trigger] cs[j] as int].first
                == cs[j - 1] + 1 by {
                if j < old_cs.len() {
                    assert(cs[j] == old_cs[j]);
                    assert(cs[j - 1] == old_cs[j - 1]);
                } else {
                    assert(cs[j - 1] == old_cs[old_cs.len() - 1]);
                }
            }
            if old_cs.len() > 0 {
                assert(cs[0] == old_cs[0]);
            }
        }
    }
}

/// The part below an open node ends within the finished nodes.
pub proof fn lemma_end_of_bounded(builder: BuilderView, k: int)
    requires
        builder.inv(),
        0 <= k < builder.open.len(),
    ensures
        builder.open[k].first <= builder.end_of(k) <= builder.done.len(),
    decreases builder.open.len() - k,
{
    let frame = builder.open[k];
    assert(tiles(builder.done, frame.children, frame.first as int, builder.end_of(k)));
    if k + 1 < builder.open.len() {
        lemma_end_of_bounded(builder, k + 1);
    }
    if frame.children.len() > 0 {
        let c = frame.children[0];
        assert(frame.first <= c < builder.end_of(k));
    }
}

/// Among children whose subtrees fill the places from `lo` up to `hi`, one
/// has the place `x` in its subtree: the proof finds it, looking down from
/// the child `j`.
pub proof fn lemma_child_around(
    nodes: Seq<NodeView>,
    children: Seq<usize>,
    lo: int,
    hi: int,
    x: int,
    j: int,
) -> (found: int)
    requires
        tiles(nodes, children, lo, hi),
        0 <= j < children.len(),
        lo <= x <= children[j],
    ensures
        0 <= found <= j,
        nodes[children[found] as int].first <= x <= children[found],
    decreases j,
{
    if j == 0 {
        0
    } else if nodes[children[j] as int].first <= x {
        j
    } else {
        lemma_child_around(nodes, children, lo, hi, x, j - 1)
    }
}

/// The subtrees of children that fill the places from `lo` on start at `lo`
/// or behind it.
pub proof fn lemma_child_starts(nodes: Seq<NodeView>, children: Seq<usize>, lo: int, hi: int, j: int)
    requires
        tiles(nodes, children, lo, hi),
        0 <= j < children.len(),
    ensures
        lo <= nodes[children[j] as int].first,
{
    if j > 0 {
        assert(lo <= children[j - 1]);
    }
}

/// Subtrees nest: where the place `d` lies below `a`, all of the subtree of
/// `d` does.
pub proof fn lemma_nested(nodes: Seq<NodeView>, a: int, d: int)
    requires
        tree_ok(nodes),
        is_below(nodes, a, d),
    ensures
        nodes[a].first <= nodes[d].first <= d,
    decreases a,
{
    assert(node_ok(nodes, a));
    assert(node_ok(nodes, d));
    let children = nodes[a].children;
    let lo = nodes[a].first as int;
    assert(children.len() > 0);
    let j = lemma_child_around(nodes, children, lo, a, d, children.len() - 1);
    let c = children[j] as int;
    lemma_child_starts(nodes, children, lo, a, j);
    if d < c {
        lemma_nested(nodes, c, d);
    }
}

/// A child lies below its parent.
pub proof fn lemma_child_is_below(nodes: Seq<NodeView>, a: int, j: int)
    requires
        tree_ok(nodes),
        0 <= a < nodes.len(),
        0 <= j < nodes[a].children.len(),
    ensures
        is_below(nodes, a, nodes[a].children[j] as int),
{
    assert(node_ok(nodes, a));
}

/// What lies below a node is its children and what lies below them: the
/// places of a subtree are those that the child lists lead to.
pub proof fn lemma_below_unfolds(nodes: Seq<NodeView>, a: int, d: int)
    requires
        tree_ok(nodes),
        0 <= a < nodes.len(),
    ensures
        is_below(nodes, a, d) <==> exists|j: int|
            0 <= j < nodes[a].children.len() && (d == #[trigger] nodes[a].children[j] || is_below(
                nodes,
                nodes[a].children[j] as int,
                d,
            )),
{
    assert(node_ok(nodes, a));
    let children = nodes[a].children;
    let lo = nodes[a].first as int;
    if is_below(nodes, a, d) {
        let j = lemma_child_around(nodes, children, lo, a, d, children.len() - 1);
        assert(d == children[j] || is_below(nodes, children[j] as int, d));
    }
    assert forall|j: int|
        0 <= j < children.len() && (d == #[trigger] children[j] || is_below(
            nodes,
            children[j] as int,
            d,
        )) implies is_below(nodes, a, d) by {
        lemma_child_starts(nodes, children, lo, a, j);
    }
}

/// The places of the subtrees of the first `k` children of the node at `i`,
/// each subtree in pre-order, one child after the other.
pub open spec fn preorder_children(nodes: Seq<NodeView>, i: int, k: int) -> Seq<usize>
    decreases i, k,
{
    if k <= 0 {
        Seq::empty()
    } else {
        let child = nodes[i].children[k - 1] as int;
        preorder_children(nodes, i, k - 1) + (if 0 <= child < i {
            preorder(nodes, child)
        } else {
            Seq::empty()
        })
    }
}

/// The places of the subtree at `i` in pre-order: the node first, then the
/// subtrees of its children in source order.
pub open spec fn preorder(nodes: Seq<NodeView>, i: int) -> Seq<usize>
    decreases i, nodes[i].children.len() + 1,
{
    seq![i as usize] + preorder_children(nodes, i, nodes[i].children.len() as int)
}

/// The places that a walk still has to visit, given the nodes on its
/// stack: the subtree of the node on top first.
pub open spec fn pending(nodes: Seq<NodeView>, stack: Seq<usize>) -> Seq<usize>
    decreases stack.len(),
{
    if stack.len() == 0 {
        Seq::empty()
    } else {
        preorder(nodes, stack.last() as int) + pending(nodes, stack.drop_last())
    }
}

impl IndexedTree {
    /// The places of the subtree at `index` in pre-order. The walk keeps a
    /// stack of its own; it never recurses.
    pub fn preorder_traverse(&self, index: usize) -> (visited: Vec<usize>)
        requires
            self.wf(),
            index < self@.len(),
        ensures
            visited@ == preorder(self@, index as int),
    {
        let ghost nodes = self@;
        let ghost all = preorder(nodes, index as int);
        let mut visited: Vec<usize> = Vec::new();
        let mut stack: Vec<usize> = Vec::new();
        stack.push(index);
        proof {
            assert(stack@.drop_last() =~= Seq::empty());
            assert(stack@.last() == index);
            assert(pending(nodes, Seq::empty()) =~= Seq::empty());
            assert(pending(nodes, stack@) =~= all + Seq::empty());
            assert(visited@ + pending(nodes, stack@) =~= all);
        }
        while stack.len() > 0
            invariant
                self.wf(),
                nodes == self@,
                all == preorder(nodes, index as int),
                forall|k: int| 0 <= k < stack@.len() ==> (#[trigger] stack@[k]) < nodes.len(),
                visited@ + pending(nodes, stack@) == all,
            decreases all.len() - visited@.len(),
        {
            let ghost before = stack@;
            let place = stack.pop().unwrap();
            let node = self.node(place);
            let children = node.children();
            let ghost rest = stack@;
            proof {
                assert(rest =~= before.drop_last());
                assert(node_ok(nodes, place as int));
                assert(pending(nodes, before) == preorder(nodes, place as int) + pending(nodes, rest));
            }
            visited.push(place);
            let mut k: usize = children.len();
            while k > 0
                invariant
                    k <= children@.len(),
                    place < nodes.len(),
                    children@ == nodes[place as int].children,
                    tiles(nodes, children@, nodes[place as int].first as int, place as int),
                    forall|j: int| 0 <= j < stack@.len() ==> (#[trigger] stack@[j]) < nodes.len(),
                    preorder_children(nodes, place as int, k as int) + pending(nodes, stack@)
                        == preorder_children(nodes, place as int, children@.len() as int) + pending(
                        nodes,
                        rest,
                    ),
                decreases k,
            {
                let ghost lower = stack@;
                k = k - 1;
                let child = children[k];
                stack.push(child);
                proof {
                    assert(stack@.drop_last() =~= lower);
                    assert(pending(nodes, stack@) == preorder(nodes, child as int) + pending(
                        nodes,
                        lower,
                    ));
                    assert(preorder_children(nodes, place as int, k + 1) == preorder_children(
                        nodes,
                        place as int,
                        k as int,
                    ) + preorder(nodes, child as int));
                    assert(preorder_children(nodes, place as int, k as int) + (preorder(
                        nodes,
                        child as int,
                    ) + pending(nodes, lower)) =~= (preorder_children(nodes, place as int, k as int)
                        + preorder(nodes, child as int)) + pending(nodes, lower));
                }
            }
            proof {
                assert(preorder_children(nodes, place as int, 0) =~= Seq::empty());
                assert(Seq::<usize>::empty() + pending(nodes, stack@) =~= pending(nodes, stack@));
                let below = preorder_children(nodes, place as int, children@.len() as int);
                assert(visited@ + pending(nodes, stack@) =~= all) by {
                    let earlier = visited@.drop_last();
                    assert(visited@ =~= earlier + seq![place]);
                    assert(earlier + pending(nodes, before) == all);
                    assert(pending(nodes, before) == (seq![place] + below) + pending(nodes, rest));
                    assert((earlier + seq![place]) + (below + pending(nodes, rest)) =~= earlier + ((
                    seq![place] + below) + pending(nodes, rest)));
                }
            }
        }
        proof {
            assert(pending(nodes, stack@) =~= Seq::empty());
            assert(visited@ + Seq::<usize>::empty() =~= visited@);
        }
        visited
    }
}

/// The byte range of the node at `i` covers the byte ranges of its children,
/// which follow each other in the source.
pub open spec fn spans_nest_at(nodes: Seq<NodeView>, i: int) -> bool {
    let children = nodes[i].children;
    &&& forall|j: int|
        0 <= j < children.len() ==> nodes[i].start_byte <= nodes[#[trigger] children[j] as int].start_byte
            && nodes[children[j] as int].end_byte <= nodes[i].end_byte
    &&& forall|j: int| 0 < j < children.len() ==> #[trigger] follows(nodes, children, j)
}

/// In the whole tree, the byte range of each node covers those of its
/// children, and children are in source order.
pub open spec fn spans_nest(nodes: Seq<NodeView>) -> bool {
    forall|i: int| 0 <= i < nodes.len() ==> #[trigger] spans_nest_at(nodes, i)
}

impl IndexedTree {
    /// Tells whether the byte range of each node covers those of its
    /// children, and the children of each node follow each other in the
    /// source. A parser reports its nodes so; a tree that was built by hand
    /// may differ.
    pub fn spans_are_nested(&self) -> (nested: bool)
        requires
            self.wf(),
        ensures
            nested == spans_nest(self@),
    {
        let total = self.len();
        let mut place: usize = 0;
        while place < total
            invariant
                self.wf(),
                total == self@.len(),
                place <= total,
                forall|i: int| 0 <= i < place ==> #[trigger] spans_nest_at(self@, i),
            decreases total - place,
        {
            let node = self.node(place);
            let children = node.children();
            let (start, end) = node.byte_range();
            assert(node_ok(self@, place as int));
            let mut k: usize = 0;
            while k < children.len()
                invariant
                    place < self@.len(),
                    k <= children@.len(),
                    children@ == self@[place as int].children,
                    start == self@[place as int].start_byte,
                    end == self@[place as int].end_byte,
                    forall|j: int|
                        0 <= j < children@.len() ==> (#[trigger] children@[j]) < self@.len(),
                    forall|j: int|
                        0 <= j < k ==> start <= self@[#[trigger] children@[j] as int].start_byte
                            && self@[children@[j] as int].end_byte <= end,
                    forall|j: int| 0 < j < k ==> #[trigger] follows(self@, children@, j),
                decreases children@.len() - k,
            {
                let child = self.node(children[k]);
                let (child_start, child_end) = child.byte_range();
                if child_start < start || end < child_end {
                    assert(!spans_nest_at(self@, place as int));
                    return false;
                }
                if k > 0 {
                    let before = self.node(children[k - 1]);
                    if child_start < before.byte_range().1 {
                        assert(!follows(self@, children@, k as int));
                        assert(!spans_nest_at(self@, place as int));
                        return false;
                    }
                }
                k = k + 1;
            }
            place = place + 1;
        }
        true
    }
}

} // verus!
