//! One node of an indexed syntax tree: an owned record of what the parser
//! said of it, and its place among the nodes of its tree.

use vstd::prelude::*;
use vstd::string::StringSliceAdditionalSpecFns;
use vstd::utf8::is_char_boundary;
use std::sync::Arc;

verus! {

/// A position in a text, by zero-based row and column.
#[derive(Clone, Copy, Debug, PartialEq, Eq, Structural)]
pub struct Point {
    pub row: usize,
    pub column: usize,
}

/// What the parser reports of a single node, apart from its children.
pub struct NodeInfo {
    pub kind: String,
    pub start: Point,
    pub end: Point,
    pub start_byte: usize,
    pub end_byte: usize,
    pub is_extra: bool,
    pub is_missing: bool,
    pub is_error: bool,
}

/// The mathematical content of an [`IndexedNode`].
#[verifier::ext_equal]
pub struct NodeView {
    /// Place of the node among the nodes of its tree, which are numbered in
    /// post-order: its identity within the tree.
    pub id: usize,
    /// Place of the first node of the subtree below this node; `id` itself
    /// for a node without children.
    pub first: usize,
    /// Path of the file that the node comes from.
    pub path: Seq<char>,
    /// Text of the whole file.
    pub source: Seq<char>,
    /// Index of the capture tag that the highlight query gave the node.
    pub query_index: Option<usize>,
    /// Places of the children, in source order.
    pub children: Seq<usize>,
    /// Name of the node's kind.
    pub kind: Seq<char>,
    pub start: Point,
    pub end: Point,
    pub start_byte: usize,
    pub end_byte: usize,
    /// The parser marked the node as an error, as missing or as extra.
    pub defective: bool,
}

/// The bytes of `source` from `start` up to `end`; none where the two are no
/// range of whole characters inside `source`.
pub open spec fn text_bytes(source: Seq<char>, start: usize, end: usize) -> Seq<u8> {
    let bytes = vstd::utf8::encode_utf8(source);
    if start <= end && is_char_boundary(bytes, start as int) && is_char_boundary(
        bytes,
        end as int,
    ) {
        bytes.subrange(start as int, end as int)
    } else {
        Seq::empty()
    }
}

impl NodeView {
    /// The bytes of the source text that the node covers.
    pub open spec fn text(self) -> Seq<u8> {
        text_bytes(self.source, self.start_byte, self.end_byte)
    }

    /// The identity of the node among all nodes of all files: its path and
    /// its place in the tree.
    pub open spec fn key(self) -> (Seq<char>, usize) {
        (self.path, self.id)
    }
}

/// Trusted: `Arc::clone` gives another pointer to the same value.
#[verifier::external_body]
pub(crate) fn share<T>(value: &Arc<T>) -> (shared: Arc<T>)
    ensures
        shared == *value,
{
    Arc::clone(value)
}

/// An owned record of one syntactic node. It is never changed once it is
/// made.
pub struct IndexedNode {
    id: usize,
    first: usize,
    path: Arc<String>,
    query_index: Option<usize>,
    children: Vec<usize>,
    source: Arc<String>,
    kind: String,
    start: Point,
    end: Point,
    start_byte: usize,
    end_byte: usize,
    is_extra_or_missing_or_error: bool,
}

impl View for IndexedNode {
    type V = NodeView;

    closed spec fn view(&self) -> NodeView {
        NodeView {
            id: self.id,
            first: self.first,
            path: self.path@,
            source: self.source@,
            query_index: self.query_index,
            children: self.children@,
            kind: self.kind@,
            start: self.start,
            end: self.end,
            start_byte: self.start_byte,
            end_byte: self.end_byte,
            defective: self.is_extra_or_missing_or_error,
        }
    }
}

impl IndexedNode {
    /// The record of a node at place `id` whose subtree starts at place
    /// `first`.
    pub fn new(
        info: NodeInfo,
        id: usize,
        first: usize,
        path: Arc<String>,
        query_index: Option<usize>,
        children: Vec<usize>,
        source: Arc<String>,
    ) -> (node: Self)
        ensures
            node@ == (NodeView {
                id,
                first,
                path: path@,
                source: source@,
                query_index,
                children: children@,
                kind: info.kind@,
                start: info.start,
                end: info.end,
                start_byte: info.start_byte,
                end_byte: info.end_byte,
                defective: info.is_extra || info.is_missing || info.is_error,
            }),
    {
        Self {
            id,
            first,
            path,
            query_index,
            children,
            source,
            kind: info.kind,
            start: info.start,
            end: info.end,
            start_byte: info.start_byte,
            end_byte: info.end_byte,
            is_extra_or_missing_or_error: info.is_extra || info.is_missing || info.is_error,
        }
    }

    pub fn is_extra_or_missing_or_error(&self) -> (defective: bool)
        ensures
            defective == self@.defective,
    {
        self.is_extra_or_missing_or_error
    }

    /// Name of the node's kind.
    pub fn kind(&self) -> (kind: &str)
        ensures
            kind@ == self@.kind,
    {
        self.kind.as_str()
    }

    /// The part of the source that the node covers; the empty string where
    /// its byte offsets are no range of whole characters inside the source.
    pub fn text(&self) -> (text: &str)
        ensures
            text.spec_bytes() == self@.text(),
    {
        let source: &str = self.source.as_str();
        let start = self.start_byte;
        let end = self.end_byte;
        if start <= end && source.is_char_boundary(start) && source.is_char_boundary(end) {
            proof {
                vstd::utf8::encode_utf8_valid_utf8(source@);
                lemma_boundary_in_range(source.spec_bytes(), end as int);
            }
            let (head, _) = source.split_at(end);
            proof {
                lemma_boundary_in_prefix(source.spec_bytes(), start as int, end as int);
            }
            let (_, text) = head.split_at(start);
            assert(text.spec_bytes() =~= source.spec_bytes().subrange(start as int, end as int));
            text
        } else {
            let text = "";
            proof {
                reveal_strlit("");
                assert(vstd::utf8::encode_utf8(Seq::<char>::empty()) =~= Seq::<u8>::empty()) by {
                    reveal_with_fuel(vstd::utf8::encode_utf8, 1);
                }
                assert(text@ =~= Seq::<char>::empty());
            }
            text
        }
    }

    pub fn position_range(&self) -> (range: (Point, Point))
        ensures
            range == (self@.start, self@.end),
    {
        (self.start, self.end)
    }

    pub fn byte_range(&self) -> (range: (usize, usize))
        ensures
            range == (self@.start_byte, self@.end_byte),
    {
        (self.start_byte, self.end_byte)
    }

    /// Place of the node in its tree.
    pub fn id(&self) -> (id: usize)
        ensures
            id == self@.id,
    {
        self.id
    }

    /// Place of the first node of the subtree below this node.
    pub fn first(&self) -> (first: usize)
        ensures
            first == self@.first,
    {
        self.first
    }

    pub fn path(&self) -> (path: &str)
        ensures
            path@ == self@.path,
    {
        self.path.as_str()
    }

    /// The shared path, for another owner.
    pub fn shared_path(&self) -> (path: Arc<String>)
        ensures
            path@ == self@.path,
    {
        share(&self.path)
    }

    /// Places of the children, in source order.
    pub fn children(&self) -> (children: &Vec<usize>)
        ensures
            children@ == self@.children,
    {
        &self.children
    }

    pub fn query_index(&self) -> (index: Option<usize>)
        ensures
            index == self@.query_index,
    {
        self.query_index
    }

    /// Places of all nodes below this one, in post-order: they are the
    /// places from `first` up to the node's own.
    pub fn all_children(&self) -> (below: Vec<usize>)
        ensures
            below@ == places_below(self@),
    {
        let mut below: Vec<usize> = Vec::new();
        let mut place: usize = self.first;
        if place > self.id {
            assert(below@ =~= places_below(self@));
            return below;
        }
        while place < self.id
            invariant
                self@.first <= place <= self@.id,
                below@ == Seq::new((place - self@.first) as nat, |k: int| (self@.first + k) as usize),
            decreases self@.id - place,
        {
            below.push(place);
            place = place + 1;
        }
        below
    }
}

/// The places from the `first` of `node` up to its own.
pub open spec fn places_below(node: NodeView) -> Seq<usize> {
    if node.first <= node.id {
        Seq::new((node.id - node.first) as nat, |k: int| (node.first + k) as usize)
    } else {
        Seq::empty()
    }
}

/// A character boundary of a text lies within the text.
pub proof fn lemma_boundary_in_range(bytes: Seq<u8>, index: int)
    requires
        vstd::utf8::valid_utf8(bytes),
        is_char_boundary(bytes, index),
    ensures
        0 <= index <= bytes.len(),
{
    reveal_with_fuel(is_char_boundary, 1);
}

/// A character boundary of a text is one of each prefix that reaches it.
pub proof fn lemma_boundary_in_prefix(bytes: Seq<u8>, index: int, end: int)
    requires
        vstd::utf8::valid_utf8(bytes),
        0 <= index <= end <= bytes.len(),
        is_char_boundary(bytes, index),
        is_char_boundary(bytes, end),
    ensures
        is_char_boundary(bytes.subrange(0, end), index),
{
    let prefix = bytes.subrange(0, end);
    vstd::utf8::valid_utf8_split(bytes, end);
    if index < end {
        vstd::utf8::is_char_boundary_iff_not_is_continuation_byte(bytes, index);
        vstd::utf8::is_char_boundary_iff_not_is_continuation_byte(prefix, index);
        assert(prefix[index] == bytes[index]);
    } else {
        vstd::utf8::is_char_boundary_start_end_of_seq(prefix);
    }
}

} // verus!
