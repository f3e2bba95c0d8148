//! The parser: what the library takes from `tree-sitter` and its grammars.

use vstd::prelude::*;
use std::collections::HashMap;
use std::sync::Arc;
use streaming_iterator::StreamingIterator;
use crate::node::{NodeInfo, Point};
use crate::merkle::same_but_for_path;
use crate::node::NodeView;
use crate::tree::{
    closed, lemma_closed_has_root, lemma_closed_keeps_spans, lemma_entered_keeps_inv,
    lemma_entered_keeps_spans, lemma_left_keeps_inv, lemma_left_keeps_spans, spans_nest,
    BuilderView, FrameView, IndexedTree, TreeBuilder,
};

verus! {

broadcast use vstd::std_specs::hash::group_hash_axioms;

/// Declares `tree_sitter::Query`: a compiled highlight query. Nothing is known of its inside.
#[verifier::external_type_specification]
#[verifier::external_body]
pub struct ExQuery(tree_sitter::Query);

/// Declares `tree_sitter::Tree`: a parsed syntax tree. Nothing is known of its inside.
#[verifier::external_type_specification]
#[verifier::external_body]
pub struct ExTree(tree_sitter::Tree);

/// Declares `tree_sitter::TreeCursor`: a position in a syntax tree. Nothing is known of
/// its inside.
#[verifier::external_type_specification]
#[verifier::external_body]
pub struct ExTreeCursor<'cursor>(tree_sitter::TreeCursor<'cursor>);

/// The languages that have a grammar.
#[derive(PartialEq, Eq, Structural, Clone, Copy, Debug)]
pub enum Dialect {
    Python,
    Rust,
}

/// The highlight query of a grammar, and the names of the query's capture
/// tags by their index.
pub struct Grammar {
    pub dialect: Dialect,
    pub query: tree_sitter::Query,
    pub query_names: Vec<String>,
}

/// The names of `names`, as sequences of characters.
pub open spec fn names_of(names: Seq<String>) -> Seq<Seq<char>> {
    Seq::new(names.len(), |i: int| names[i]@)
}

impl Grammar {
    /// The names of the capture tags, by their index.
    pub open spec fn capture_names(&self) -> Seq<Seq<char>> {
        names_of(self.query_names@)
    }

    /// The grammar of Python with its highlight query.
    pub fn python() -> (grammar: Option<Self>)
        ensures
            grammar is Some,
            grammar matches Some(g) ==> g.dialect == Dialect::Python && highlights(
                Dialect::Python,
                g.query,
            ),
    {
        Self::with_query(Dialect::Python, python_query())
    }

    /// The grammar of Rust with its highlight query.
    pub fn rust() -> (grammar: Option<Self>)
        ensures
            grammar is Some,
            grammar matches Some(g) ==> g.dialect == Dialect::Rust && highlights(
                Dialect::Rust,
                g.query,
            ),
    {
        Self::with_query(Dialect::Rust, rust_query())
    }

    /// The grammar of `dialect` around its highlight query, where the parser
    /// made one: there is a grammar exactly where there is a query.
    pub fn with_query(dialect: Dialect, query: Option<tree_sitter::Query>) -> (grammar: Option<Self>)
        ensures
            grammar is Some <==> query is Some,
            grammar matches Some(g) ==> g.dialect == dialect && Some(g.query) == query,
    {
        match query {
            Some(query) => {
                let query_names = capture_names(&query);
                Some(Grammar { dialect, query, query_names })
            },
            None => None,
        }
    }
}

/// Trusted: `Query::new` on the grammar and the highlight query that
/// `tree_sitter_python` exports, with its error dropped. The crate ships the
/// query as the highlight query of this very grammar, so there is a query.
#[verifier::external_body]
fn python_query() -> (query: Option<tree_sitter::Query>)
    ensures
        query is Some,
        query matches Some(q) ==> highlights(Dialect::Python, q),
{
    tree_sitter::Query::new(&tree_sitter_python::LANGUAGE.into(), tree_sitter_python::HIGHLIGHTS_QUERY).ok()
}

/// Trusted: `Query::new` on the grammar and the highlight query that
/// `tree_sitter_rust` exports, with its error dropped. The crate ships the
/// query as the highlight query of this very grammar, so there is a query.
#[verifier::external_body]
fn rust_query() -> (query: Option<tree_sitter::Query>)
    ensures
        query is Some,
        query matches Some(q) ==> highlights(Dialect::Rust, q),
{
    tree_sitter::Query::new(&tree_sitter_rust::LANGUAGE.into(), tree_sitter_rust::HIGHLIGHTS_QUERY).ok()
}

/// Trusted: `Query::capture_names`, each name in a string of its own.
#[verifier::external_body]
fn capture_names(query: &tree_sitter::Query) -> (names: Vec<String>) {
    query.capture_names().iter().map(|name| name.to_string()).collect()
}

/// One capture of the highlight query: the parser's number of the captured
/// node, and the index of the capture tag.
pub struct Capture {
    pub node: usize,
    pub index: usize,
}

/// The node that a cursor stands on: the parser's number of the node, and
/// what the parser reports of it.
pub struct RawNode {
    pub id: usize,
    pub info: NodeInfo,
}

/// The capture tag that the matches give to the node with the parser's
/// number `node`: each match tags the node of its last capture with that
/// capture's index, and a later match overrules an earlier one.
pub open spec fn tag_of(matches: Seq<Vec<Capture>>, node: usize) -> Option<usize>
    decreases matches.len(),
{
    if matches.len() == 0 {
        None
    } else {
        let last = matches.last()@;
        if last.len() > 0 && last.last().node == node {
            Some(last.last().index)
        } else {
            tag_of(matches.drop_last(), node)
        }
    }
}

/// Computes the capture tag of every node that the matches tag.
pub fn capture_tags(matches: &Vec<Vec<Capture>>) -> (tags: HashMap<usize, usize>)
    ensures
        forall|node: usize|
            tags@.dom().contains(node) <==> (#[trigger] tag_of(matches@, node)) is Some,
        forall|node: usize|
            tags@.dom().contains(node) ==> Some(tags@[node]) == #[trigger] tag_of(matches@, node),
{
    let mut tags: HashMap<usize, usize> = HashMap::new();
    let mut at: usize = 0;
    while at < matches.len()
        invariant
            at <= matches@.len(),
            forall|node: usize|
                tags@.dom().contains(node) <==> (#[trigger] tag_of(
                    matches@.take(at as int),
                    node,
                )) is Some,
            forall|node: usize|
                tags@.dom().contains(node) ==> Some(tags@[node]) == #[trigger] tag_of(
                    matches@.take(at as int),
                    node,
                ),
        decreases matches@.len() - at,
    {
        let captures = &matches[at];
        let ghost before = tags@;
        let ghost earlier = matches@.take(at as int);
        let ghost now = matches@.take(at + 1);
        if captures.len() > 0 {
            let last = &captures[captures.len() - 1];
            tags.insert(last.node, last.index);
        }
        proof {
            assert(now.drop_last() =~= earlier);
            assert(now.last() == matches@[at as int]);
            assert forall|node: usize|
                (tags@.dom().contains(node) <==> (#[trigger] tag_of(now, node)) is Some) && (
                tags@.dom().contains(node) ==> Some(tags@[node]) == tag_of(now, node)) by {
                assert(before.dom().contains(node) <==> tag_of(earlier, node) is Some);
                assert(before.dom().contains(node) ==> Some(before[node]) == tag_of(
                    earlier,
                    node,
                ));
            }
        }
        at = at + 1;
    }
    assert(matches@.take(matches@.len() as int) =~= matches@);
    tags
}

/// The capture tag of the node with the parser's number `node`, if `tags`
/// holds one.
pub fn lookup_tag(tags: &HashMap<usize, usize>, node: usize) -> (tag: Option<usize>)
    ensures
        tag == if tags@.dom().contains(node) {
            Some(tags@[node])
        } else {
            None
        },
{
    match tags.get(&node) {
        Some(tag) => Some(*tag),
        None => None,
    }
}

/// One step of a walk over a parse tree: a node is entered before its
/// children, and left after them.
pub enum WalkStep {
    Enter(RawNode),
    Leave,
}

/// A parse tree as plain values: the steps of a walk over it, and the
/// captures of the highlight query on it.
pub struct ParsedTree {
    pub steps: Vec<WalkStep>,
    pub matches: Vec<Vec<Capture>>,
}

/// The builder after one step of a walk: an entered node is taken over with
/// what the parser reports of it and with its capture tag, and the innermost
/// open node is finished when it is left. A step that fits nowhere (a second
/// root, a leave without an open node) changes nothing.
pub open spec fn stepped(builder: BuilderView, step: WalkStep, matches: Seq<Vec<Capture>>) -> BuilderView {
    match step {
        WalkStep::Enter(node) => if builder.can_enter() {
            builder.entered(
                node.info.kind@,
                node.info.start,
                node.info.end,
                node.info.start_byte,
                node.info.end_byte,
                node.info.is_extra || node.info.is_missing || node.info.is_error,
                tag_of(matches, node.id),
            )
        } else {
            builder
        },
        WalkStep::Leave => if builder.open.len() > 0 {
            builder.left()
        } else {
            builder
        },
    }
}

/// The builder after the steps of a walk, one after the other.
pub open spec fn replayed(builder: BuilderView, steps: Seq<WalkStep>, matches: Seq<Vec<Capture>>) -> BuilderView
    decreases steps.len(),
{
    if steps.len() == 0 {
        builder
    } else {
        stepped(replayed(builder, steps.drop_last(), matches), steps.last(), matches)
    }
}

/// What a step enters, without the parser's number of the node; nothing for
/// a step that leaves.
pub open spec fn plain_step(step: WalkStep) -> Option<NodeInfo> {
    match step {
        WalkStep::Enter(node) => Some(node.info),
        WalkStep::Leave => None,
    }
}

/// The capture tag of the node that a step enters; none for a step that
/// leaves.
pub open spec fn step_tag(step: WalkStep, matches: Seq<Vec<Capture>>) -> Option<usize> {
    match step {
        WalkStep::Enter(node) => tag_of(matches, node.id),
        WalkStep::Leave => None,
    }
}

/// The walk without the parser's numbers of the nodes.
pub open spec fn plain(steps: Seq<WalkStep>) -> Seq<Option<NodeInfo>> {
    Seq::new(steps.len(), |i: int| plain_step(steps[i]))
}

/// The capture tags along the walk, one for each step.
pub open spec fn step_tags(steps: Seq<WalkStep>, matches: Seq<Vec<Capture>>) -> Seq<Option<usize>> {
    Seq::new(steps.len(), |i: int| step_tag(steps[i], matches))
}

/// The builder after one step of a walk that is given without the parser's
/// numbers: what the step enters, if it enters, and the capture tag of that
/// node.
pub open spec fn stepped_plain(builder: BuilderView, info: Option<NodeInfo>, tag: Option<usize>) -> BuilderView {
    match info {
        Some(i) => if builder.can_enter() {
            builder.entered(
                i.kind@,
                i.start,
                i.end,
                i.start_byte,
                i.end_byte,
                i.is_extra || i.is_missing || i.is_error,
                tag,
            )
        } else {
            builder
        },
        None => if builder.open.len() > 0 {
            builder.left()
        } else {
            builder
        },
    }
}

/// The builder after the steps of a walk that is given without the parser's
/// numbers, with the capture tags along it.
pub open spec fn replayed_plain(
    builder: BuilderView,
    walk: Seq<Option<NodeInfo>>,
    tags: Seq<Option<usize>>,
) -> BuilderView
    decreases walk.len(),
{
    if walk.len() == 0 {
        builder
    } else {
        stepped_plain(
            replayed_plain(builder, walk.drop_last(), tags.drop_last()),
            walk.last(),
            tags.last(),
        )
    }
}

/// The nodes of the indexed tree of a walk that is given without the
/// parser's numbers, with the capture tags along it.
pub open spec fn indexed_plain(
    path: Seq<char>,
    source: Seq<char>,
    walk: Seq<Option<NodeInfo>>,
    tags: Seq<Option<usize>>,
) -> Seq<NodeView> {
    closed(replayed_plain(fresh_builder(path, source), walk, tags)).done
}

/// The parser's numbers of the nodes play no part but to join the capture
/// tags to the nodes: the builder after a walk is the builder after the walk
/// without the numbers, with the tags along it.
pub proof fn lemma_replayed_is_plain(builder: BuilderView, steps: Seq<WalkStep>, matches: Seq<Vec<Capture>>)
    ensures
        replayed(builder, steps, matches) == replayed_plain(
            builder,
            plain(steps),
            step_tags(steps, matches),
        ),
    decreases steps.len(),
{
    if steps.len() > 0 {
        lemma_replayed_is_plain(builder, steps.drop_last(), matches);
        assert(plain(steps).drop_last() =~= plain(steps.drop_last()));
        assert(step_tags(steps, matches).drop_last() =~= step_tags(steps.drop_last(), matches));
        assert(plain(steps).last() == plain_step(steps.last()));
        assert(step_tags(steps, matches).last() == step_tag(steps.last(), matches));
    }
}

/// The walk that the parser of `dialect` makes of `source`, without the
/// parser's numbers of the nodes.
pub uninterp spec fn walk_of_text(dialect: Dialect, source: Seq<char>) -> Seq<Option<NodeInfo>>;

/// The capture tags that the highlight query of `dialect` gives along the
/// walk that the parser of `dialect` makes of `source`.
pub uninterp spec fn tags_of_text(dialect: Dialect, source: Seq<char>) -> Seq<Option<usize>>;

/// The language whose parser made `tree`.
pub uninterp spec fn dialect_of(tree: tree_sitter::Tree) -> Dialect;

/// `query` is the highlight query of `dialect`.
pub uninterp spec fn highlights(dialect: Dialect, query: tree_sitter::Query) -> bool;

/// The nodes of the indexed tree of the file at `path` with the text
/// `source`, as the parser and the highlight query of `dialect` make it. It
/// depends on these three alone.
pub open spec fn tree_of_text(dialect: Dialect, path: Seq<char>, source: Seq<char>) -> Seq<NodeView> {
    indexed_plain(path, source, walk_of_text(dialect, source), tags_of_text(dialect, source))
}

/// Two builders hold the same but for the path of their file.
pub open spec fn same_builds(first: BuilderView, second: BuilderView) -> bool {
    &&& first.source == second.source
    &&& first.open == second.open
    &&& same_but_for_path(first.done, second.done)
    &&& forall|k: int| 0 <= k < second.done.len() ==> (#[trigger] second.done[k]).path == second.path
}

/// One step keeps two builders the same but for the path.
proof fn lemma_step_keeps_same_builds(
    first: BuilderView,
    second: BuilderView,
    info: Option<NodeInfo>,
    tag: Option<usize>,
)
    requires
        same_builds(first, second),
    ensures
        same_builds(stepped_plain(first, info, tag), stepped_plain(second, info, tag)),
{
    let a = stepped_plain(first, info, tag);
    let b = stepped_plain(second, info, tag);
    if info is None && first.open.len() > 0 {
        assert(a.open =~= b.open);
        assert forall|i: int| 0 <= i < a.done.len() implies (#[trigger] b.done[i]) == (NodeView {
            path: b.done[i].path,
            ..a.done[i]
        }) by {
            if i < first.done.len() {
                assert(b.done[i] == second.done[i]);
                assert(a.done[i] == first.done[i]);
            }
        }
        assert forall|k: int| 0 <= k < b.done.len() implies (#[trigger] b.done[k]).path
            == b.path by {
            if k < second.done.len() {
                assert(b.done[k] == second.done[k]);
            }
        }
    }
}

/// A walk keeps two builders the same but for the path.
proof fn lemma_replay_keeps_same_builds(
    first: BuilderView,
    second: BuilderView,
    walk: Seq<Option<NodeInfo>>,
    tags: Seq<Option<usize>>,
)
    requires
        same_builds(first, second),
    ensures
        same_builds(replayed_plain(first, walk, tags), replayed_plain(second, walk, tags)),
    decreases walk.len(),
{
    if walk.len() > 0 {
        lemma_replay_keeps_same_builds(first, second, walk.drop_last(), tags.drop_last());
        lemma_step_keeps_same_builds(
            replayed_plain(first, walk.drop_last(), tags.drop_last()),
            replayed_plain(second, walk.drop_last(), tags.drop_last()),
            walk.last(),
            tags.last(),
        );
    }
}

/// Leaving all open nodes keeps two builders the same but for the path.
proof fn lemma_closed_keeps_same_builds(first: BuilderView, second: BuilderView)
    requires
        same_builds(first, second),
    ensures
        same_builds(closed(first), closed(second)),
    decreases first.open.len(),
{
    if first.open.len() > 0 {
        lemma_step_keeps_same_builds(first, second, None, None);
        lemma_closed_keeps_same_builds(first.left(), second.left());
    }
}

/// The same text gives the same tree under every path: the indexed trees
/// that one language makes of one text under two paths have the same nodes
/// but for the path.
pub proof fn law_same_text_same_content(
    dialect: Dialect,
    first: Seq<char>,
    second: Seq<char>,
    source: Seq<char>,
)
    ensures
        same_but_for_path(
            tree_of_text(dialect, first, source),
            tree_of_text(dialect, second, source),
        ),
{
    let walk = walk_of_text(dialect, source);
    let tags = tags_of_text(dialect, source);
    let a = fresh_builder(first, source);
    let b = fresh_builder(second, source);
    assert(same_builds(a, b));
    lemma_replay_keeps_same_builds(a, b, walk, tags);
    lemma_closed_keeps_same_builds(replayed_plain(a, walk, tags), replayed_plain(b, walk, tags));
}

/// A builder for the file at `path` with the text `source` that has built
/// nothing yet.
pub open spec fn fresh_builder(path: Seq<char>, source: Seq<char>) -> BuilderView {
    BuilderView { path, source, done: Seq::empty(), open: Seq::empty() }
}

/// The nodes of the indexed tree of a walk, in post-order: node for node
/// what the walk entered, each with the kind, the span, the defect flag and
/// the capture tag of the entered node, and with the nodes that were entered
/// and left inside it as its children, in the order of the walk.
pub open spec fn indexed_nodes(
    path: Seq<char>,
    source: Seq<char>,
    steps: Seq<WalkStep>,
    matches: Seq<Vec<Capture>>,
) -> Seq<NodeView> {
    closed(replayed(fresh_builder(path, source), steps, matches)).done
}

/// A walk that starts by entering a node gives a tree.
pub proof fn lemma_walk_gives_nodes(
    path: Seq<char>,
    source: Seq<char>,
    steps: Seq<WalkStep>,
    matches: Seq<Vec<Capture>>,
)
    requires
        steps.len() > 0,
        steps[0] is Enter,
    ensures
        indexed_nodes(path, source, steps, matches).len() > 0,
{
    lemma_replay_keeps_nodes(path, source, steps, matches);
    lemma_closed_has_root(replayed(fresh_builder(path, source), steps, matches));
}

/// After a walk that starts by entering a node, the builder has entered or
/// finished a node.
proof fn lemma_replay_keeps_nodes(
    path: Seq<char>,
    source: Seq<char>,
    steps: Seq<WalkStep>,
    matches: Seq<Vec<Capture>>,
)
    requires
        steps.len() > 0,
        steps[0] is Enter,
    ensures
        ({
            let builder = replayed(fresh_builder(path, source), steps, matches);
            builder.open.len() + builder.done.len() > 0
        }),
    decreases steps.len(),
{
    let start = fresh_builder(path, source);
    if steps.len() == 1 {
        assert(steps.drop_last() =~= Seq::empty());
        assert(replayed(start, steps.drop_last(), matches) == start);
        assert(steps.last() == steps[0]);
    } else {
        assert(steps.drop_last()[0] == steps[0]);
        lemma_replay_keeps_nodes(path, source, steps.drop_last(), matches);
    }
}

/// The indexed node `node` is the node that the step `i` of the walk
/// enters: it has the kind, the span and the defect flag that the parser
/// reports of that node, and the capture tag that the query gives it.
pub open spec fn taken_at(
    steps: Seq<WalkStep>,
    matches: Seq<Vec<Capture>>,
    node: NodeView,
    i: int,
) -> bool {
    &&& 0 <= i < steps.len()
    &&& steps[i] matches WalkStep::Enter(raw)
    &&& node.kind == raw.info.kind@
    &&& node.start == raw.info.start
    &&& node.end == raw.info.end
    &&& node.start_byte == raw.info.start_byte
    &&& node.end_byte == raw.info.end_byte
    &&& node.defective == (raw.info.is_extra || raw.info.is_missing || raw.info.is_error)
    &&& node.query_index == tag_of(matches, raw.id)
}

/// The indexed node `node` is a node that the walk enters.
pub open spec fn taken(steps: Seq<WalkStep>, matches: Seq<Vec<Capture>>, node: NodeView) -> bool {
    exists|i: int| taken_at(steps, matches, node, i)
}

/// The open node `frame` as a node.
pub open spec fn frame_node(builder: BuilderView, frame: FrameView) -> NodeView {
    NodeView {
        id: 0,
        first: frame.first,
        path: builder.path,
        source: builder.source,
        query_index: frame.query_index,
        children: frame.children,
        kind: frame.kind,
        start: frame.start,
        end: frame.end,
        start_byte: frame.start_byte,
        end_byte: frame.end_byte,
        defective: frame.defective,
    }
}

/// All that the builder holds is taken from the walk.
pub open spec fn all_taken(builder: BuilderView, steps: Seq<WalkStep>, matches: Seq<Vec<Capture>>) -> bool {
    &&& forall|k: int|
        0 <= k < builder.done.len() ==> taken(steps, matches, #[trigger] builder.done[k])
    &&& forall|k: int|
        0 <= k < builder.open.len() ==> taken(
            steps,
            matches,
            frame_node(builder, #[trigger] builder.open[k]),
        )
}

/// What is taken from a walk is taken from every longer walk.
proof fn lemma_taken_from_longer(
    steps: Seq<WalkStep>,
    matches: Seq<Vec<Capture>>,
    builder: BuilderView,
)
    requires
        steps.len() > 0,
        all_taken(builder, steps.drop_last(), matches),
    ensures
        all_taken(builder, steps, matches),
{
    let shorter = steps.drop_last();
    assert forall|node: NodeView| taken(shorter, matches, node) implies taken(
        steps,
        matches,
        node,
    ) by {
        let i = choose|i: int| taken_at(shorter, matches, node, i);
        assert(shorter[i] == steps[i]);
        assert(taken_at(steps, matches, node, i));
    }
}

/// Leaving a node keeps all that the builder holds taken from the walk.
proof fn lemma_left_keeps_taken(builder: BuilderView, steps: Seq<WalkStep>, matches: Seq<Vec<Capture>>)
    requires
        all_taken(builder, steps, matches),
        builder.open.len() > 0,
    ensures
        all_taken(builder.left(), steps, matches),
{
    let after = builder.left();
    let top = builder.open.len() - 1;
    assert forall|k: int| 0 <= k < after.done.len() implies taken(
        steps,
        matches,
        #[trigger] after.done[k],
    ) by {
        if k < builder.done.len() {
            assert(after.done[k] == builder.done[k]);
        } else {
            let frame = builder.open[top];
            let i = choose|i: int| taken_at(steps, matches, frame_node(builder, frame), i);
            assert(taken_at(steps, matches, after.done[k], i));
        }
    }
    assert forall|k: int| 0 <= k < after.open.len() implies taken(
        steps,
        matches,
        frame_node(after, #[trigger] after.open[k]),
    ) by {
        let i = choose|i: int|
            taken_at(steps, matches, frame_node(builder, builder.open[k]), i);
        assert(taken_at(steps, matches, frame_node(after, after.open[k]), i));
    }
}

/// After a walk, all that the builder holds is taken from the walk.
proof fn lemma_replay_is_taken(
    path: Seq<char>,
    source: Seq<char>,
    steps: Seq<WalkStep>,
    matches: Seq<Vec<Capture>>,
)
    ensures
        all_taken(replayed(fresh_builder(path, source), steps, matches), steps, matches),
    decreases steps.len(),
{
    let start = fresh_builder(path, source);
    if steps.len() > 0 {
        lemma_replay_is_taken(path, source, steps.drop_last(), matches);
        let before = replayed(start, steps.drop_last(), matches);
        lemma_taken_from_longer(steps, matches, before);
        let after = replayed(start, steps, matches);
        match steps.last() {
            WalkStep::Enter(node) => {
                if before.can_enter() {
                    assert forall|k: int| 0 <= k < after.open.len() implies taken(
                        steps,
                        matches,
                        frame_node(after, #[trigger] after.open[k]),
                    ) by {
                        if k < before.open.len() {
                            assert(after.open[k] == before.open[k]);
                            let i = choose|i: int|
                                taken_at(steps, matches, frame_node(before, before.open[k]), i);
                            assert(taken_at(steps, matches, frame_node(after, after.open[k]), i));
                        } else {
                            assert(taken_at(
                                steps,
                                matches,
                                frame_node(after, after.open[k]),
                                steps.len() - 1,
                            ));
                        }
                    }
                }
            },
            WalkStep::Leave => {
                if before.open.len() > 0 {
                    lemma_left_keeps_taken(before, steps, matches);
                }
            },
        }
    }
}

/// Leaving all open nodes keeps all that the builder holds taken from the
/// walk.
proof fn lemma_closed_is_taken(builder: BuilderView, steps: Seq<WalkStep>, matches: Seq<Vec<Capture>>)
    requires
        all_taken(builder, steps, matches),
    ensures
        all_taken(closed(builder), steps, matches),
    decreases builder.open.len(),
{
    if builder.open.len() > 0 {
        lemma_left_keeps_taken(builder, steps, matches);
        lemma_closed_is_taken(builder.left(), steps, matches);
    }
}

/// Every node of the indexed tree of a walk is a node that the walk enters,
/// with the kind, the span and the defect flag that the parser reports of
/// it and the capture tag that the query gives it.
pub proof fn law_indexed_nodes_are_entered(
    path: Seq<char>,
    source: Seq<char>,
    steps: Seq<WalkStep>,
    matches: Seq<Vec<Capture>>,
    k: int,
)
    requires
        0 <= k < indexed_nodes(path, source, steps, matches).len(),
    ensures
        taken(steps, matches, indexed_nodes(path, source, steps, matches)[k]),
{
    lemma_replay_is_taken(path, source, steps, matches);
    lemma_closed_is_taken(replayed(fresh_builder(path, source), steps, matches), steps, matches);
}

/// The step keeps spans nested: a node that is entered lies inside the node
/// that is open around it, and behind the node before it.
pub open spec fn step_fits(builder: BuilderView, step: WalkStep) -> bool {
    match step {
        WalkStep::Enter(node) => builder.can_enter() ==> builder.fits(
            node.info.start_byte,
            node.info.end_byte,
        ),
        WalkStep::Leave => true,
    }
}

/// Spans nest in the walk: every node that it enters lies inside the node
/// around it and behind the node before it. A parser walks its tree so.
pub open spec fn walk_nests(
    path: Seq<char>,
    source: Seq<char>,
    steps: Seq<WalkStep>,
    matches: Seq<Vec<Capture>>,
) -> bool
    decreases steps.len(),
{
    steps.len() == 0 || (walk_nests(path, source, steps.drop_last(), matches) && step_fits(
        replayed(fresh_builder(path, source), steps.drop_last(), matches),
        steps.last(),
    ))
}

/// After a walk in which spans nest, the builder is sound and spans nest in
/// all that it built.
proof fn lemma_replay_keeps_spans(
    path: Seq<char>,
    source: Seq<char>,
    steps: Seq<WalkStep>,
    matches: Seq<Vec<Capture>>,
)
    requires
        steps.len() <= usize::MAX,
        walk_nests(path, source, steps, matches),
    ensures
        ({
            let builder = replayed(fresh_builder(path, source), steps, matches);
            &&& builder.inv()
            &&& builder.spans_inv()
            &&& builder.done.len() + builder.open.len() <= steps.len()
        }),
    decreases steps.len(),
{
    let start = fresh_builder(path, source);
    if steps.len() > 0 {
        lemma_replay_keeps_spans(path, source, steps.drop_last(), matches);
        let before = replayed(start, steps.drop_last(), matches);
        match steps.last() {
            WalkStep::Enter(node) => {
                if before.can_enter() {
                    lemma_entered_keeps_inv(
                        before,
                        node.info.kind@,
                        node.info.start,
                        node.info.end,
                        node.info.start_byte,
                        node.info.end_byte,
                        node.info.is_extra || node.info.is_missing || node.info.is_error,
                        tag_of(matches, node.id),
                    );
                    lemma_entered_keeps_spans(
                        before,
                        node.info.kind@,
                        node.info.start,
                        node.info.end,
                        node.info.start_byte,
                        node.info.end_byte,
                        node.info.is_extra || node.info.is_missing || node.info.is_error,
                        tag_of(matches, node.id),
                    );
                }
            },
            WalkStep::Leave => {
                if before.open.len() > 0 {
                    lemma_left_keeps_inv(before);
                    lemma_left_keeps_spans(before);
                }
            },
        }
    }
}

/// In the indexed tree of a walk in which spans nest, the byte range of
/// each node covers the byte ranges of its children, and the children of
/// each node follow each other in the source.
pub proof fn law_nested_walk_gives_nested_spans(
    path: Seq<char>,
    source: Seq<char>,
    steps: Seq<WalkStep>,
    matches: Seq<Vec<Capture>>,
)
    requires
        steps.len() <= usize::MAX,
        walk_nests(path, source, steps, matches),
    ensures
        spans_nest(indexed_nodes(path, source, steps, matches)),
{
    lemma_replay_keeps_spans(path, source, steps, matches);
    lemma_closed_keeps_spans(replayed(fresh_builder(path, source), steps, matches));
}

/// A copy of what the parser reports of a node.
pub fn copy_info(info: &NodeInfo) -> (copy: NodeInfo)
    ensures
        copy == *info,
{
    NodeInfo {
        kind: info.kind.clone(),
        start: info.start,
        end: info.end,
        start_byte: info.start_byte,
        end_byte: info.end_byte,
        is_extra: info.is_extra,
        is_missing: info.is_missing,
        is_error: info.is_error,
    }
}

/// The walk over all of `tree`: every node is entered before its children
/// and left after them, the children in source order. Each entered node
/// comes with the parser's number of it and with what the parser reports of
/// it.
pub uninterp spec fn tour_of(tree: tree_sitter::Tree) -> Seq<WalkStep>;

/// The text that `tree` was parsed from.
pub uninterp spec fn text_of(tree: tree_sitter::Tree) -> Seq<char>;

/// The captures of `query` on `tree`, match by match in the order of the
/// parser's stream: of each item of the stream, the captures of its match.
pub uninterp spec fn captured(tree: tree_sitter::Tree, query: tree_sitter::Query) -> Seq<
    Vec<Capture>,
>;

/// The walk over the tree that `cursor` moves in.
pub uninterp spec fn cursor_tour(cursor: tree_sitter::TreeCursor) -> Seq<WalkStep>;

/// The place in the walk at which the node that `cursor` stands on is
/// entered.
pub uninterp spec fn cursor_at(cursor: tree_sitter::TreeCursor) -> int;

/// The place in the walk at which the node that `cursor` stands on is left.
pub uninterp spec fn cursor_end(cursor: tree_sitter::TreeCursor) -> int;

/// The cursor stands on a node of its walk: the node is entered before it is
/// left, and the root, which is entered first, is left last.
pub open spec fn placed(cursor: tree_sitter::TreeCursor) -> bool {
    let tour = cursor_tour(cursor);
    let at = cursor_at(cursor);
    let end = cursor_end(cursor);
    &&& 0 <= at < end < tour.len()
    &&& tour[at] is Enter
    &&& tour[end] is Leave
    &&& at == 0 ==> end == tour.len() - 1
}

impl ParsedTree {
    /// Reads a parse tree into plain values: the steps of the walk over all
    /// of `tree`, made of single moves of the parser's cursor, and the
    /// captures of `query`. The text must be the one that the tree was parsed
    /// from.
    pub fn read(tree: &tree_sitter::Tree, query: &tree_sitter::Query, source: &str) -> (parsed: Self)
        requires
            text_of(*tree) == source@,
        ensures
            parsed.steps@ == tour_of(*tree),
            parsed.matches@ == captured(*tree, *query),
            parsed.steps@.len() > 0 && parsed.steps@[0] is Enter,
            plain(parsed.steps@) == walk_of_text(dialect_of(*tree), source@),
            highlights(dialect_of(*tree), *query) ==> step_tags(parsed.steps@, parsed.matches@)
                == tags_of_text(dialect_of(*tree), source@),
    {
        let matches = query_captures(query, tree, source);
        let count = node_count(tree);
        let total: u128 = 2 * (count as u128);
        let ghost tour = tour_of(*tree);
        let mut cursor = tree_walk(tree);
        let mut steps: Vec<WalkStep> = Vec::new();
        steps.push(WalkStep::Enter(current_node(&cursor)));
        assert(steps@ =~= tour.take(1));
        let mut descend = true;
        while (steps.len() as u128) < total
            invariant
                cursor_tour(cursor) == tour,
                placed(cursor),
                total == tour.len(),
                steps@.len() <= total,
                steps@.len() == total ==> steps@ == tour,
                steps@.len() < total && descend ==> steps@ == tour.take(cursor_at(cursor) + 1),
                steps@.len() < total && !descend ==> steps@ == tour.take(cursor_end(cursor)),
            decreases
                    2 * (total - steps@.len()) + (if descend {
                        1int
                    } else {
                        0int
                    }),
        {
            let ghost at = cursor_at(cursor);
            let ghost end = cursor_end(cursor);
            let ghost before = steps@;
            if descend {
                if goto_first_child(&mut cursor) {
                    steps.push(WalkStep::Enter(current_node(&cursor)));
                    assert(steps@ =~= tour.take(at + 2));
                } else {
                    descend = false;
                }
            } else {
                steps.push(WalkStep::Leave);
                assert(tour[end] == WalkStep::Leave);
                assert(steps@ =~= tour.take(end + 1));
                if (steps.len() as u128) < total {
                    if goto_next_sibling(&mut cursor) {
                        steps.push(WalkStep::Enter(current_node(&cursor)));
                        assert(steps@ =~= tour.take(end + 2));
                        descend = true;
                    } else {
                        goto_parent(&mut cursor);
                    }
                } else {
                    assert(tour.take(tour.len() as int) =~= tour);
                }
            }
        }
        ParsedTree { steps, matches }
    }
}

impl IndexedTree {
    /// Indexes a parse tree that is given as plain values: every node that
    /// the walk enters is taken over, in post-order, with what the parser
    /// reports of it and with the capture tag that the query gives it. Nodes
    /// that the walk leaves open are left at its end. There is a tree
    /// exactly where the walk enters a node. The steps are taken one by one;
    /// nothing recurses.
    pub fn new(path: Arc<String>, source: Arc<String>, parsed: &ParsedTree) -> (indexed: Option<Self>)
        ensures
            indexed is Some <==> indexed_nodes(path@, source@, parsed.steps@, parsed.matches@).len()
                > 0,
            indexed matches Some(tree) ==> tree@ == indexed_nodes(
                path@,
                source@,
                parsed.steps@,
                parsed.matches@,
            ) && tree.wf(),
            indexed matches Some(tree) ==> tree@.last().path == path@ && tree@.last().source
                == source@,
            indexed matches Some(tree) ==> (walk_nests(
                path@,
                source@,
                parsed.steps@,
                parsed.matches@,
            ) ==> spans_nest(tree@)),
    {
        Self::build_index_nodes(parsed, path, source)
    }

    fn build_index_nodes(parsed: &ParsedTree, path: Arc<String>, source: Arc<String>) -> (indexed:
        Option<Self>)
        ensures
            indexed is Some <==> indexed_nodes(path@, source@, parsed.steps@, parsed.matches@).len()
                > 0,
            indexed matches Some(tree) ==> tree@ == indexed_nodes(
                path@,
                source@,
                parsed.steps@,
                parsed.matches@,
            ) && tree.wf(),
            indexed matches Some(tree) ==> tree@.last().path == path@ && tree@.last().source
                == source@,
            indexed matches Some(tree) ==> (walk_nests(
                path@,
                source@,
                parsed.steps@,
                parsed.matches@,
            ) ==> spans_nest(tree@)),
    {
        let total = parsed.steps.len();
        proof {
            assert(parsed.steps@.len() == total);
            if walk_nests(path@, source@, parsed.steps@, parsed.matches@) {
                law_nested_walk_gives_nested_spans(path@, source@, parsed.steps@, parsed.matches@);
            }
        }
        let tags = capture_tags(&parsed.matches);
        let ghost start = fresh_builder(path@, source@);
        let ghost steps = parsed.steps@;
        let ghost matches = parsed.matches@;
        let mut builder = TreeBuilder::new(path, source);
        let mut at: usize = 0;
        assert(steps.take(0) =~= Seq::empty());
        while at < total
            invariant
                at <= steps.len(),
                total == steps.len(),
                steps == parsed.steps@,
                matches == parsed.matches@,
                builder@.inv(),
                builder@.path == path@,
                builder@.source == source@,
                builder@ == replayed(start, steps.take(at as int), matches),
                forall|node: usize|
                    tags@.dom().contains(node) <==> (#[trigger] tag_of(matches, node)) is Some,
                forall|node: usize|
                    tags@.dom().contains(node) ==> Some(tags@[node]) == #[trigger] tag_of(
                        matches,
                        node,
                    ),
            decreases steps.len() - at,
        {
            proof {
                assert(steps.take(at + 1).drop_last() =~= steps.take(at as int));
                assert(steps.take(at + 1).last() == steps[at as int]);
            }
            match &parsed.steps[at] {
                WalkStep::Enter(node) => {
                    let tag = lookup_tag(&tags, node.id);
                    assert(tag == tag_of(matches, node.id));
                    builder.enter(copy_info(&node.info), tag);
                },
                WalkStep::Leave => {
                    builder.leave();
                },
            }
            at = at + 1;
        }
        assert(steps.take(steps.len() as int) =~= steps);
        builder.close();
        builder.finish()
    }
}

impl Grammar {
    /// Parses `source` and indexes the tree. There always is a tree: the parser
    /// marks what it cannot parse as defective nodes.
    pub fn parse(&self, path: Arc<String>, source: Arc<String>) -> (tree: Option<IndexedTree>)
        ensures
            tree is Some,
            tree matches Some(t) ==> t.wf() && t@.last().path == path@ && t@.last().source
                == source@,
            tree matches Some(t) ==> (highlights(self.dialect, self.query) ==> t@ == tree_of_text(
                self.dialect,
                path@,
                source@,
            )),
    {
        let parsed = match self.dialect {
            Dialect::Python => parse_python(source.as_str()),
            Dialect::Rust => parse_rust(source.as_str()),
        };
        self.index_parsed(path, source, parsed)
    }

    /// Indexes what the parser made of `source`: there is an indexed tree
    /// exactly where the parser yielded a tree, and it carries `path` and
    /// `source`.
    pub fn index_parsed(
        &self,
        path: Arc<String>,
        source: Arc<String>,
        parsed: Option<tree_sitter::Tree>,
    ) -> (tree: Option<IndexedTree>)
        requires
            parsed matches Some(raw) ==> text_of(raw) == source@,
        ensures
            tree is Some <==> parsed is Some,
            tree matches Some(t) ==> t.wf() && t@.last().path == path@ && t@.last().source
                == source@,
            tree matches Some(t) ==> t@ == indexed_nodes(
                path@,
                source@,
                tour_of(parsed->0),
                captured(parsed->0, self.query),
            ),
            tree matches Some(t) ==> (highlights(dialect_of(parsed->0), self.query) ==> t@
                == tree_of_text(dialect_of(parsed->0), path@, source@)),
    {
        match parsed {
            Some(tree) => {
                let plain = ParsedTree::read(&tree, &self.query, source.as_str());
                proof {
                    lemma_walk_gives_nodes(path@, source@, plain.steps@, plain.matches@);
                    lemma_replayed_is_plain(
                        fresh_builder(path@, source@),
                        plain.steps@,
                        plain.matches@,
                    );
                }
                IndexedTree::new(path, source, &plain)
            },
            None => None,
        }
    }
}

/// Trusted: `Parser::parse` of a whole text, with no earlier tree, on a new
/// parser with the grammar that `tree_sitter_python` exports. The parser
/// takes the grammar, whose version it supports, and no timeout and no
/// cancellation flag is set, so there is a tree.
#[verifier::external_body]
fn parse_python(source: &str) -> (tree: Option<tree_sitter::Tree>)
    ensures
        tree is Some,
        tree matches Some(parsed) ==> text_of(parsed) == source@ && dialect_of(parsed)
            == Dialect::Python,
{
    let mut parser = tree_sitter::Parser::new();
    parser.set_language(&tree_sitter_python::LANGUAGE.into()).ok()?;
    parser.parse(source, None)
}

/// Trusted: `Parser::parse` of a whole text, with no earlier tree, on a new
/// parser with the grammar that `tree_sitter_rust` exports. The parser takes
/// the grammar, whose version it supports, and no timeout and no
/// cancellation flag is set, so there is a tree.
#[verifier::external_body]
fn parse_rust(source: &str) -> (tree: Option<tree_sitter::Tree>)
    ensures
        tree is Some,
        tree matches Some(parsed) ==> text_of(parsed) == source@ && dialect_of(parsed)
            == Dialect::Rust,
{
    let mut parser = tree_sitter::Parser::new();
    parser.set_language(&tree_sitter_rust::LANGUAGE.into()).ok()?;
    parser.parse(source, None)
}

/// Trusted: `Node::descendant_count` of the root of `tree`: the number of
/// nodes of the tree, each of which the walk enters once and leaves once.
#[verifier::external_body]
fn node_count(tree: &tree_sitter::Tree) -> (count: usize)
    ensures
        2 * count == tour_of(*tree).len(),
{
    tree.root_node().descendant_count()
}

/// Trusted: `Tree::walk` gives a cursor on the root, which moves in the
/// tree and cannot leave it. What the walk over a tree enters and leaves
/// depends on the language and the text of the tree alone.
#[verifier::external_body]
fn tree_walk<'a>(tree: &'a tree_sitter::Tree) -> (cursor: tree_sitter::TreeCursor<'a>)
    ensures
        cursor_tour(cursor) == tour_of(*tree),
        cursor_at(cursor) == 0,
        placed(cursor),
        plain(cursor_tour(cursor)) == walk_of_text(dialect_of(*tree), text_of(*tree)),
{
    tree.walk()
}

/// Trusted: `TreeCursor::goto_first_child` moves to the first child, which
/// is entered right behind its parent, and tells whether it moved. It stays
/// where the node has no child, that is, where the node is left right behind
/// its entry.
#[verifier::external_body]
fn goto_first_child<'a>(cursor: &mut tree_sitter::TreeCursor<'a>) -> (moved: bool)
    ensures
        cursor_tour(*final(cursor)) == cursor_tour(*old(cursor)),
        placed(*final(cursor)),
        moved ==> cursor_at(*final(cursor)) == cursor_at(*old(cursor)) + 1,
        !moved ==> cursor_at(*final(cursor)) == cursor_at(*old(cursor)) && cursor_end(
            *final(cursor),
        ) == cursor_end(*old(cursor)),
        !moved ==> cursor_end(*old(cursor)) == cursor_at(*old(cursor)) + 1,
{
    cursor.goto_first_child()
}

/// Trusted: `TreeCursor::goto_next_sibling` moves to the next sibling,
/// which is entered right behind the place where the node is left, and tells
/// whether it moved. It stays where the node is the last child, that is,
/// where its parent is left right behind it, and on the root.
#[verifier::external_body]
fn goto_next_sibling<'a>(cursor: &mut tree_sitter::TreeCursor<'a>) -> (moved: bool)
    ensures
        cursor_tour(*final(cursor)) == cursor_tour(*old(cursor)),
        placed(*final(cursor)),
        moved ==> cursor_at(*final(cursor)) == cursor_end(*old(cursor)) + 1,
        !moved ==> cursor_at(*final(cursor)) == cursor_at(*old(cursor)) && cursor_end(
            *final(cursor),
        ) == cursor_end(*old(cursor)),
        !moved && cursor_end(*old(cursor)) + 1 < cursor_tour(*old(cursor)).len() ==> cursor_tour(
            *old(cursor),
        )[cursor_end(*old(cursor)) + 1] is Leave,
{
    cursor.goto_next_sibling()
}

/// Trusted: `TreeCursor::goto_parent` moves to the parent and tells whether
/// it moved. The parent of a last child is left right behind the child. The
/// cursor stays on the root, which is the node that is entered first.
#[verifier::external_body]
fn goto_parent<'a>(cursor: &mut tree_sitter::TreeCursor<'a>) -> (moved: bool)
    ensures
        cursor_tour(*final(cursor)) == cursor_tour(*old(cursor)),
        placed(*final(cursor)),
        moved ==> cursor_end(*old(cursor)) + 1 < cursor_tour(*old(cursor)).len(),
        moved && cursor_tour(*old(cursor))[cursor_end(*old(cursor)) + 1] is Leave ==> cursor_end(
            *final(cursor),
        ) == cursor_end(*old(cursor)) + 1,
        !moved ==> cursor_at(*old(cursor)) == 0,
        !moved ==> cursor_at(*final(cursor)) == cursor_at(*old(cursor)) && cursor_end(
            *final(cursor),
        ) == cursor_end(*old(cursor)),
{
    cursor.goto_parent()
}

/// Trusted: `TreeCursor::node`, with what the node's own methods report of
/// it, field by field: the node that the walk enters at the cursor's place.
#[verifier::external_body]
fn current_node<'a>(cursor: &tree_sitter::TreeCursor<'a>) -> (raw: RawNode)
    ensures
        cursor_tour(*cursor)[cursor_at(*cursor)] == WalkStep::Enter(raw),
{
    let node = cursor.node();
    let (start, end) = (node.start_position(), node.end_position());
    RawNode {
        id: node.id(),
        info: NodeInfo {
            kind: node.kind().to_string(),
            start: Point { row: start.row, column: start.column },
            end: Point { row: end.row, column: end.column },
            start_byte: node.start_byte(),
            end_byte: node.end_byte(),
            is_extra: node.is_extra(),
            is_missing: node.is_missing(),
            is_error: node.is_error(),
        },
    }
}

/// Trusted: `QueryCursor::captures` over the whole tree, with the text that
/// the tree was parsed from, so that every captured range lies inside the
/// text; of each item of the stream, the captures of its match, each as the
/// captured node's number and the capture's index. The tags that the
/// highlight query of the tree's language gives along the walk depend on the
/// language and the text alone.
#[verifier::external_body]
fn query_captures(query: &tree_sitter::Query, tree: &tree_sitter::Tree, source: &str) -> (matches:
    Vec<Vec<Capture>>)
    requires
        text_of(*tree) == source@,
    ensures
        matches@ == captured(*tree, *query),
        highlights(dialect_of(*tree), *query) ==> step_tags(tour_of(*tree), matches@)
            == tags_of_text(dialect_of(*tree), source@),
{
    let mut cursor = tree_sitter::QueryCursor::new();
    let stream = cursor.captures(query, tree.root_node(), source.as_bytes());
    stream.map_deref(
        |item| item.0.captures.iter().map(|c| Capture { node: c.node.id(), index: c.index as usize }).collect(),
    ).collect()
}

} // verus!
