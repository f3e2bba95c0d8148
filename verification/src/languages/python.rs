//! The profile of Python: which node kinds are clone candidates, how much
//! each kind adds to the cognitive complexity, and which leaves are hashed by
//! their capture tag in place of their text.

use vstd::prelude::*;
use crate::digest::Seeds;
use crate::languages::{
    capture_name, hash_leaf, Language, LanguageView, LeafSource, NodeTaste, COMPLEXITY_THRESHOLD,
};
use std::sync::Arc;
use crate::node::IndexedNode;
use crate::tree::IndexedTree;
use crate::syntax::{highlights, Dialect, Grammar};
use crate::text::{has_substring, str_contains, str_eq};

verus! {

/// The taste of a node kind in Python.
pub open spec fn python_taste(kind: Seq<char>) -> NodeTaste {
    if kind == "for_statement"@
        || kind == "if_statement"@
        || kind == "match_statement"@
        || kind == "try_statement"@
        || kind == "while_statement"@
        || kind == "with_statement"@
        || kind == "call"@
        || kind == "function_definition"@
        || kind == "class_definition"@ {
        NodeTaste::Interesting
    } else if kind == "comment"@ {
        NodeTaste::Ignored
    } else {
        NodeTaste::Normal
    }
}

/// What a node of the given kind adds to the cognitive complexity, in half
/// points: one point for each statement, call and function definition.
pub open spec fn python_weight(kind: Seq<char>) -> nat {
    if has_substring(kind, "statement"@) || has_substring(kind, "call"@) || has_substring(
        kind,
        "function_definition"@,
    ) {
        2
    } else {
        0
    }
}

/// What is hashed for a leaf: the name of the capture tag for a variable, so
/// that all variables hash alike, and the text for every other leaf.
pub open spec fn python_leaf_source(capture: Option<Seq<char>>) -> LeafSource {
    if capture == Some("variable"@) {
        LeafSource::CaptureName
    } else {
        LeafSource::Text
    }
}

/// The profile of Python.
pub struct Python {
    pub seeds: Seeds,
    /// The grammar's highlight query; none where the parser refused it.
    pub grammar: Option<Grammar>,
    /// The cognitive complexity from which a subtree is a clone candidate, in
    /// half points.
    pub threshold: u64,
}

impl Python {
    /// The profile with fresh keys for its digests, the default threshold and
    /// the highlight query of its language.
    pub fn new() -> (profile: Self)
        ensures
            profile.threshold == COMPLEXITY_THRESHOLD,
            profile.profile().dialect == Dialect::Python,
            profile.profile().can_parse,
            profile.profile().own_query,
    {
        Self::with_grammar(Grammar::python(), Seeds::fresh())
    }

    /// The profile around what the parser made of the grammar, with the keys
    /// `seeds` and the default threshold.
    pub fn with_grammar(grammar: Option<Grammar>, seeds: Seeds) -> (profile: Self)
        ensures
            profile == (Python { seeds, grammar, threshold: COMPLEXITY_THRESHOLD }),
    {
        Python { seeds, grammar, threshold: COMPLEXITY_THRESHOLD }
    }

    /// The name of the node's capture tag, if it has one.
    pub fn capture_of<'a>(&'a self, node: &IndexedNode) -> (capture: Option<&'a str>)
        ensures
            capture is Some <==> self.profile().capture(node@.query_index) is Some,
            capture matches Some(name) ==> self.profile().capture(node@.query_index) == Some(
                name@,
            ),
    {
        match &self.grammar {
            Some(grammar) => {
                let capture = capture_name(&grammar.query_names, node);
                proof {
                    if capture is Some {
                        assert(grammar.capture_names()[node@.query_index->0 as int]
                            == grammar.query_names@[node@.query_index->0 as int]@);
                    }
                }
                capture
            },
            None => None,
        }
    }

    /// The taste of a node kind.
    pub fn taste(kind: &str) -> (taste: NodeTaste)
        ensures
            taste == python_taste(kind@),
    {
        if str_eq(kind, "for_statement")
            || str_eq(kind, "if_statement")
            || str_eq(kind, "match_statement")
            || str_eq(kind, "try_statement")
            || str_eq(kind, "while_statement")
            || str_eq(kind, "with_statement")
            || str_eq(kind, "call")
            || str_eq(kind, "function_definition")
            || str_eq(kind, "class_definition") {
            NodeTaste::Interesting
        } else if str_eq(kind, "comment") {
            NodeTaste::Ignored
        } else {
            NodeTaste::Normal
        }
    }

    /// What a node of the given kind adds to the cognitive complexity, in
    /// half points.
    pub fn weight(kind: &str) -> (weight: u8)
        ensures
            weight == python_weight(kind@),
    {
        if str_contains(kind, "statement") || str_contains(kind, "call") || str_contains(
            kind,
            "function_definition",
        ) {
            2
        } else {
            0
        }
    }

    /// What is hashed for a leaf with the given capture tag.
    pub fn leaf_source(capture: Option<&str>) -> (source: LeafSource)
        ensures
            source == python_leaf_source(
                match capture {
                    Some(name) => Some(name@),
                    None => None,
                },
            ),
    {
        match capture {
            Some(name) => {
                if str_eq(name, "variable") {
                    LeafSource::CaptureName
                } else {
                    LeafSource::Text
                }
            },
            None => LeafSource::Text,
        }
    }
}

impl Language for Python {
    open spec fn profile(&self) -> LanguageView {
        LanguageView {
            dialect: Dialect::Python,
            seeds: self.seeds,
            capture_names: match self.grammar {
                Some(grammar) => grammar.capture_names(),
                None => Seq::empty(),
            },
            threshold: self.threshold,
            can_parse: self.grammar matches Some(grammar) && grammar.dialect == Dialect::Python,
            own_query: self.grammar matches Some(grammar) && grammar.dialect == Dialect::Python
                && highlights(Dialect::Python, grammar.query),
        }
    }

    fn parse(&self, path: Arc<String>, source: Arc<String>) -> (tree: Option<IndexedTree>) {
        match &self.grammar {
            Some(grammar) => {
                if grammar.dialect == Dialect::Python {
                    grammar.parse(path, source)
                } else {
                    None
                }
            },
            None => None,
        }
    }

    fn seeds(&self) -> (seeds: Seeds) {
        self.seeds
    }

    fn indexed_node_taste(&self, node: &IndexedNode) -> (taste: NodeTaste) {
        Self::taste(node.kind())
    }

    fn node_weight(&self, node: &IndexedNode) -> (weight: u8) {
        Self::weight(node.kind())
    }

    fn simple_hash_indexed_node(&self, node: &IndexedNode) -> (hash: u64) {
        let capture = self.capture_of(node);
        let source = Python::leaf_source(capture);
        hash_leaf(self.seeds, source, capture, node)
    }

    fn complexity_threshold(&self) -> (threshold: u64) {
        self.threshold
    }
}

} // verus!
