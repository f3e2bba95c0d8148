//! Language profiles: per language, the classification of node kinds, the
//! weights of the cognitive complexity and the policy of leaf hashing.

pub mod python;
pub mod rust;

use vstd::prelude::*;
use crate::digest::Seeds;
use crate::languages::python::{python_leaf_source, python_taste, python_weight, Python};
use crate::languages::rust::{rust_leaf_source, rust_taste, rust_weight, Rust};
use crate::node::{IndexedNode, NodeView};
use std::sync::Arc;
use crate::syntax::{tree_of_text, Dialect};
use crate::text::str_eq;
use crate::tree::IndexedTree;

verus! {

/// How a node kind takes part in clone detection.
#[derive(PartialEq, Eq, Structural, Clone, Copy, Debug)]
pub enum NodeTaste {
    /// Hashes to 0 and is never a clone candidate (comments and the like).
    Ignored,
    /// May be a clone candidate.
    Interesting,
    /// Contributes to the structure, and is no candidate itself.
    Normal,
}

/// What is hashed for a leaf.
#[derive(PartialEq, Eq, Structural, Clone, Copy, Debug)]
pub enum LeafSource {
    /// The text that the leaf covers.
    Text,
    /// The name of the leaf's capture tag.
    CaptureName,
    /// The name of the leaf's kind.
    KindName,
}

/// The cognitive complexity from which a subtree is a clone candidate
/// unless a profile says otherwise, in half points: ten points.
pub const COMPLEXITY_THRESHOLD: u64 = 20;

/// The mathematical content of a language profile.
pub struct LanguageView {
    pub dialect: Dialect,
    /// Keys of the leaf digests.
    pub seeds: Seeds,
    /// Names of the capture tags of the highlight query, by their index.
    pub capture_names: Seq<Seq<char>>,
    /// The cognitive complexity from which a subtree is a clone candidate, in
    /// half points.
    pub threshold: u64,
    /// The profile has a highlight query with the parser of its own
    /// language, without which it parses nothing.
    pub can_parse: bool,
    /// The query of the profile is the highlight query of its own language.
    pub own_query: bool,
}

impl LanguageView {
    /// The identifier of the language.
    pub open spec fn id(self) -> Seq<char> {
        match self.dialect {
            Dialect::Python => "python"@,
            Dialect::Rust => "rust"@,
        }
    }

    /// The taste of a node kind.
    pub open spec fn taste(self, kind: Seq<char>) -> NodeTaste {
        match self.dialect {
            Dialect::Python => python_taste(kind),
            Dialect::Rust => rust_taste(kind),
        }
    }

    /// What a node of the given kind adds to the cognitive complexity, in
    /// half points.
    pub open spec fn weight(self, kind: Seq<char>) -> nat {
        match self.dialect {
            Dialect::Python => python_weight(kind),
            Dialect::Rust => rust_weight(kind),
        }
    }

    /// The name of the capture tag with the given index, if there is one.
    pub open spec fn capture(self, query_index: Option<usize>) -> Option<Seq<char>> {
        match query_index {
            Some(index) => if index < self.capture_names.len() {
                Some(self.capture_names[index as int])
            } else {
                None
            },
            None => None,
        }
    }

    /// What is hashed for the leaf `node`.
    pub open spec fn leaf_source(self, node: NodeView) -> LeafSource {
        match self.dialect {
            Dialect::Python => python_leaf_source(self.capture(node.query_index)),
            Dialect::Rust => rust_leaf_source(self.capture(node.query_index), node.kind),
        }
    }

    /// The bytes that are hashed for the leaf `node`.
    pub open spec fn leaf_input(self, node: NodeView) -> Seq<u8> {
        input_for(self.leaf_source(node), self.capture(node.query_index), node)
    }

    /// The hash of the leaf `node`.
    pub open spec fn leaf_hash(self, node: NodeView) -> u64 {
        self.seeds.digest(self.leaf_input(node))
    }

    /// The node hashes to 0 and hides all that is below it: it is defective
    /// or of an ignored kind.
    pub open spec fn skipped(self, node: NodeView) -> bool {
        node.defective || self.taste(node.kind) == NodeTaste::Ignored
    }

    /// The sum of the weights of the nodes at the places from `lo` up to
    /// `hi`.
    pub open spec fn range_weight(self, nodes: Seq<NodeView>, lo: int, hi: int) -> nat
        decreases hi - lo,
    {
        if hi <= lo {
            0
        } else {
            self.range_weight(nodes, lo, hi - 1) + self.weight(nodes[hi - 1].kind)
        }
    }

    /// The cognitive complexity of the subtree at place `index`, in half
    /// points: the sum of the weights of the node and of all nodes below it.
    pub open spec fn cognitive_complexity(self, nodes: Seq<NodeView>, index: int) -> nat {
        self.range_weight(nodes, nodes[index].first as int, index + 1)
    }
}

/// What a language profile offers. All of it is a function of the profile
/// and the node alone.
pub trait Language {
    /// The mathematical content of the profile.
    spec fn profile(&self) -> LanguageView;

    /// Parses `source` and indexes the tree. There is a tree exactly where
    /// the profile has a highlight query with the parser of its language.
    fn parse(&self, path: Arc<String>, source: Arc<String>) -> (tree: Option<IndexedTree>)
        ensures
            tree is Some <==> self.profile().can_parse,
            tree matches Some(t) ==> t.wf() && t@.last().path == path@ && t@.last().source
                == source@,
            tree matches Some(t) ==> (self.profile().own_query ==> t@ == tree_of_text(
                self.profile().dialect,
                path@,
                source@,
            )),
    ;

    /// The keys of the profile's leaf digests.
    fn seeds(&self) -> (seeds: Seeds)
        ensures
            seeds == self.profile().seeds,
    ;

    /// The taste of the node's kind.
    fn indexed_node_taste(&self, node: &IndexedNode) -> (taste: NodeTaste)
        ensures
            taste == self.profile().taste(node@.kind),
    ;

    /// What the node adds to the cognitive complexity, in half points.
    fn node_weight(&self, node: &IndexedNode) -> (weight: u8)
        ensures
            weight == self.profile().weight(node@.kind),
    ;

    /// The hash of a node without children: the digest of its text, of the
    /// name of its capture tag or of the name of its kind, as the profile's
    /// policy says.
    fn simple_hash_indexed_node(&self, node: &IndexedNode) -> (hash: u64)
        ensures
            hash == self.profile().leaf_hash(node@),
    ;

    /// The cognitive complexity from which a subtree is a clone candidate, in
    /// half points.
    fn complexity_threshold(&self) -> (threshold: u64)
        ensures
            threshold == self.profile().threshold,
    ;
}

/// The bytes that are hashed for a leaf, given what the policy chose.
pub open spec fn input_for(source: LeafSource, capture: Option<Seq<char>>, node: NodeView) -> Seq<u8> {
    match source {
        LeafSource::Text => node.text(),
        LeafSource::CaptureName => match capture {
            Some(name) => vstd::utf8::encode_utf8(name),
            None => node.text(),
        },
        LeafSource::KindName => vstd::utf8::encode_utf8(node.kind),
    }
}

/// The name of the node's capture tag among `names`, if it has one.
pub fn capture_name<'a>(names: &'a Vec<String>, node: &IndexedNode) -> (capture: Option<&'a str>)
    ensures
        capture is Some <==> node@.query_index is Some && node@.query_index->0 < names@.len(),
        capture matches Some(name) ==> name@ == names@[node@.query_index->0 as int]@,
{
    match node.query_index() {
        Some(index) => {
            if index < names.len() {
                Some(names[index].as_str())
            } else {
                None
            }
        },
        None => None,
    }
}

/// Hashes what the policy chose for a leaf.
pub fn hash_leaf(seeds: Seeds, source: LeafSource, capture: Option<&str>, node: &IndexedNode) -> (hash:
    u64)
    ensures
        hash == seeds.digest(
            input_for(
                source,
                match capture {
                    Some(name) => Some(name@),
                    None => None,
                },
                node@,
            ),
        ),
{
    match source {
        LeafSource::Text => seeds.hash(node.text().as_bytes()),
        LeafSource::CaptureName => match capture {
            Some(name) => seeds.hash(name.as_bytes()),
            None => seeds.hash(node.text().as_bytes()),
        },
        LeafSource::KindName => seeds.hash(node.kind().as_bytes()),
    }
}

/// The language identifier names a language with a profile.
pub open spec fn is_supported(language_id: Seq<char>) -> bool {
    language_id == "python"@ || language_id == "rust"@
}

/// A language profile.
pub enum SupportedLanguage {
    Python(Python),
    Rust(Rust),
}

impl View for SupportedLanguage {
    type V = LanguageView;

    open spec fn view(&self) -> LanguageView {
        match self {
            SupportedLanguage::Python(python) => python.profile(),
            SupportedLanguage::Rust(rust) => rust.profile(),
        }
    }
}

impl SupportedLanguage {
    /// The identifiers of the languages with a profile.
    pub fn supported_languages() -> (ids: Vec<&'static str>)
        ensures
            ids@.len() == 2,
            ids@[0]@ == "python"@,
            ids@[1]@ == "rust"@,
    {
        let mut ids: Vec<&'static str> = Vec::new();
        ids.push("python");
        ids.push("rust");
        ids
    }

    /// Tells whether the language identifier names a language with a
    /// profile.
    pub fn support(language_id: &str) -> (supported: bool)
        ensures
            supported == is_supported(language_id@),
    {
        str_eq(language_id, "python") || str_eq(language_id, "rust")
    }

    /// The profile of the language with the given identifier, with fresh keys,
    /// the default threshold and the highlight query of the language. There
    /// is none for an identifier without a profile.
    pub fn from_language_id(language_id: &str) -> (language: Option<SupportedLanguage>)
        ensures
            language is Some <==> is_supported(language_id@),
            language matches Some(l) ==> l@.id() == language_id@ && l@.threshold
                == COMPLEXITY_THRESHOLD,
            language matches Some(l) ==> l@.can_parse && l@.own_query,
    {
        if str_eq(language_id, "python") {
            Some(SupportedLanguage::Python(Python::new()))
        } else if str_eq(language_id, "rust") {
            Some(SupportedLanguage::Rust(Rust::new()))
        } else {
            None
        }
    }

    /// The identifier of the profile's language.
    pub fn language_id(&self) -> (id: &'static str)
        ensures
            id@ == self@.id(),
    {
        match self {
            SupportedLanguage::Python(_) => "python",
            SupportedLanguage::Rust(_) => "rust",
        }
    }

    /// Parses `source` and indexes the tree. There is a tree exactly where
    /// the profile has a highlight query with the parser of its language.
    pub fn parse(&self, path: Arc<String>, source: Arc<String>) -> (tree: Option<IndexedTree>)
        ensures
            tree is Some <==> self@.can_parse,
            tree matches Some(t) ==> t.wf() && t@.last().path == path@ && t@.last().source
                == source@,
            tree matches Some(t) ==> (self@.own_query ==> t@ == tree_of_text(
                self@.dialect,
                path@,
                source@,
            )),
    {
        match self {
            SupportedLanguage::Python(python) => python.parse(path, source),
            SupportedLanguage::Rust(rust) => rust.parse(path, source),
        }
    }

    /// The keys of the profile's leaf digests.
    pub fn seeds(&self) -> (seeds: Seeds)
        ensures
            seeds == self@.seeds,
    {
        match self {
            SupportedLanguage::Python(python) => python.seeds(),
            SupportedLanguage::Rust(rust) => rust.seeds(),
        }
    }

    /// The taste of the node's kind.
    pub fn indexed_node_taste(&self, node: &IndexedNode) -> (taste: NodeTaste)
        ensures
            taste == self@.taste(node@.kind),
    {
        match self {
            SupportedLanguage::Python(python) => python.indexed_node_taste(node),
            SupportedLanguage::Rust(rust) => rust.indexed_node_taste(node),
        }
    }

    /// Tells whether the node hashes to 0 and hides all that is below it.
    pub fn is_skipped(&self, node: &IndexedNode) -> (skipped: bool)
        ensures
            skipped == self@.skipped(node@),
    {
        node.is_extra_or_missing_or_error() || self.indexed_node_taste(node) == NodeTaste::Ignored
    }

    /// What the node adds to the cognitive complexity, in half points.
    pub fn node_weight(&self, node: &IndexedNode) -> (weight: u8)
        ensures
            weight == self@.weight(node@.kind),
    {
        match self {
            SupportedLanguage::Python(python) => python.node_weight(node),
            SupportedLanguage::Rust(rust) => rust.node_weight(node),
        }
    }

    /// The name of the node's capture tag, if it has one.
    pub fn capture_of<'a>(&'a self, node: &IndexedNode) -> (capture: Option<&'a str>)
        ensures
            capture is Some <==> self@.capture(node@.query_index) is Some,
            capture matches Some(name) ==> self@.capture(node@.query_index) == Some(name@),
    {
        match self {
            SupportedLanguage::Python(python) => python.capture_of(node),
            SupportedLanguage::Rust(rust) => rust.capture_of(node),
        }
    }

    /// The hash of a node without children: the digest of its text, of the
    /// name of its capture tag or of the name of its kind, as the profile's
    /// policy says.
    pub fn simple_hash_indexed_node(&self, node: &IndexedNode) -> (hash: u64)
        ensures
            hash == self@.leaf_hash(node@),
    {
        match self {
            SupportedLanguage::Python(python) => python.simple_hash_indexed_node(node),
            SupportedLanguage::Rust(rust) => rust.simple_hash_indexed_node(node),
        }
    }

    /// The cognitive complexity of the subtree at place `index` of `tree`, in
    /// half points; `u64::MAX` where it is larger than that.
    pub fn indexed_node_cognitive_complexity(&self, tree: &IndexedTree, index: usize) -> (complexity:
        u64)
        requires
            tree.wf(),
            index < tree@.len(),
        ensures
            complexity == if self@.cognitive_complexity(tree@, index as int) <= u64::MAX {
                self@.cognitive_complexity(tree@, index as int)
            } else {
                u64::MAX as nat
            },
    {
        let node = tree.node(index);
        let first = node.first();
        assert(crate::tree::node_ok(tree@, index as int));
        let total = tree.len();
        let mut place: usize = first;
        let mut sum: u64 = 0;
        while place <= index
            invariant
                first <= place <= index + 1,
                index < total == tree@.len(),
                sum == if self@.range_weight(tree@, first as int, place as int) <= u64::MAX {
                    self@.range_weight(tree@, first as int, place as int)
                } else {
                    u64::MAX as nat
                },
            decreases index + 1 - place,
        {
            let weight = self.node_weight(&tree.node(place));
            if sum > u64::MAX - (weight as u64) {
                sum = u64::MAX;
            } else {
                sum = sum + (weight as u64);
            }
            place = place + 1;
        }
        sum
    }

    /// The cognitive complexity from which a subtree is a clone candidate, in
    /// half points.
    pub fn complexity_threshold(&self) -> (threshold: u64)
        ensures
            threshold == self@.threshold,
    {
        match self {
            SupportedLanguage::Python(python) => python.complexity_threshold(),
            SupportedLanguage::Rust(rust) => rust.complexity_threshold(),
        }
    }

    /// The same profile with another threshold of the cognitive complexity,
    /// in half points.
    pub fn with_complexity_threshold(self, threshold: u64) -> (language: Self)
        ensures
            language@ == (LanguageView { threshold, ..self@ }),
    {
        match self {
            SupportedLanguage::Python(python) => SupportedLanguage::Python(
                Python { threshold, ..python },
            ),
            SupportedLanguage::Rust(rust) => SupportedLanguage::Rust(Rust { threshold, ..rust }),
        }
    }
}

} // verus!
