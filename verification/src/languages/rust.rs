//! The profile of Rust: which node kinds are clone candidates, how much
//! each kind adds to the cognitive complexity, and which leaves are hashed by
//! their capture tag or their kind in place of their text.

use vstd::prelude::*;
use crate::digest::Seeds;
use crate::languages::{
    capture_name, hash_leaf, Language, LanguageView, LeafSource, NodeTaste, COMPLEXITY_THRESHOLD,
};
use std::sync::Arc;
use crate::node::IndexedNode;
use crate::tree::IndexedTree;
use crate::syntax::{highlights, Dialect, Grammar};
use crate::text::str_eq;

verus! {

/// The taste of a node kind in Rust.
pub open spec fn rust_taste(kind: Seq<char>) -> NodeTaste {
    if kind == "call_expression"@
        || kind == "const_block"@
        || kind == "for_expression"@
        || kind == "if_expression"@
        || kind == "loop_expression"@
        || kind == "match_expression"@
        || kind == "while_expression"@
        || kind == "function_item"@
        || kind == "impl_item"@
        || kind == "trait_item"@
        || kind == "closure_expression"@ {
        NodeTaste::Interesting
    } else if kind == "block_comment"@
        || kind == "doc_comment"@
        || kind == "line_comment"@
        || kind == "inner_doc_comment_marker"@
        || kind == "outer_doc_comment_marker"@
        || kind == "empty_statement"@ {
        NodeTaste::Ignored
    } else {
        NodeTaste::Normal
    }
}

/// What a node of the given kind adds to the cognitive complexity, in half
/// points; nothing for a kind without a declared weight.
pub open spec fn rust_weight(kind: Seq<char>) -> nat {
    if kind == "return_expression"@ || kind == "yield_expression"@ {
        3
    } else if kind == "block"@
        || kind == "if_expression"@
        || kind == "match_expression"@
        || kind == "match_pattern"@
        || kind == "loop_expression"@
        || kind == "for_expression"@
        || kind == "while_expression"@
        || kind == "break_expression"@
        || kind == "continue_expression"@
        || kind == "try_expression"@
        || kind == "try_block"@
        || kind == "closure_expression"@
        || kind == "async_block"@
        || kind == "function_item"@
        || kind == "unsafe_block"@
        || kind == "macro_invocation"@
        || kind == "const_block"@
        || kind == "gen_block"@
        || kind == "array_expression"@
        || kind == "call_expression"@
        || kind == "index_expression"@
        || kind == "tuple_expression"@
        || kind == "tuple_pattern"@
        || kind == "struct_pattern"@
        || kind == "tuple_struct_pattern"@ {
        2
    } else if kind == "binary_expression"@
        || kind == "unary_expression"@
        || kind == "let_condition"@
        || kind == "await_expression"@
        || kind == "type_cast_expression"@
        || kind == "attribute_item"@
        || kind == "or_pattern"@
        || kind == "compound_assignment_expression"@
        || kind == "range_expression"@
        || kind == "lifetime"@
        || kind == "parenthesized_expression"@
        || kind == "reference_expression"@
        || kind == "type_arguments"@
        || kind == "field_pattern"@
        || kind == "remaining_field_pattern"@ {
        1
    } else {
        0
    }
}

/// The capture tag is one whose leaves keep their text.
pub open spec fn rust_preserved(capture: Seq<char>) -> bool {
    capture == "type"@
        || capture == "constant"@
        || capture == "function"@
        || capture == "constructor"@
        || capture == "label"@
}

/// What is hashed for a leaf: its text under a preserved capture tag; the
/// name of the tag for a parameter, so that all parameters hash alike;
/// otherwise the name of the kind for an identifier, so that all remaining
/// identifiers hash alike; and the text for every other leaf.
pub open spec fn rust_leaf_source(capture: Option<Seq<char>>, kind: Seq<char>) -> LeafSource {
    if capture is Some && rust_preserved(capture->0) {
        LeafSource::Text
    } else if capture == Some("variable.parameter"@) {
        LeafSource::CaptureName
    } else if kind == "identifier"@ {
        LeafSource::KindName
    } else {
        LeafSource::Text
    }
}

/// The profile of Rust.
pub struct Rust {
    pub seeds: Seeds,
    /// The grammar's highlight query; none where the parser refused it.
    pub grammar: Option<Grammar>,
    /// The cognitive complexity from which a subtree is a clone candidate, in
    /// half points.
    pub threshold: u64,
}

impl Rust {
    /// The profile with fresh keys for its digests, the default threshold and
    /// the highlight query of its language.
    pub fn new() -> (profile: Self)
        ensures
            profile.threshold == COMPLEXITY_THRESHOLD,
            profile.profile().dialect == Dialect::Rust,
            profile.profile().can_parse,
            profile.profile().own_query,
    {
        Self::with_grammar(Grammar::rust(), Seeds::fresh())
    }

    /// The profile around what the parser made of the grammar, with the keys
    /// `seeds` and the default threshold.
    pub fn with_grammar(grammar: Option<Grammar>, seeds: Seeds) -> (profile: Self)
        ensures
            profile == (Rust { seeds, grammar, threshold: COMPLEXITY_THRESHOLD }),
    {
        Rust { seeds, grammar, threshold: COMPLEXITY_THRESHOLD }
    }

    /// The name of the node's capture tag, if it has one.
    pub fn capture_of<'a>(&'a self, node: &IndexedNode) -> (capture: Option<&'a str>)
        ensures
            capture is Some <==> self.profile().capture(node@.query_index) is Some,
            capture matches Some(name) ==> self.profile().capture(node@.query_index) == Some(
                name@,
            ),
    {
        match &self.grammar {
            Some(grammar) => {
                let capture = capture_name(&grammar.query_names, node);
                proof {
                    if capture is Some {
                        assert(grammar.capture_names()[node@.query_index->0 as int]
                            == grammar.query_names@[node@.query_index->0 as int]@);
                    }
                }
                capture
            },
            None => None,
        }
    }

    /// The taste of a node kind.
    pub fn taste(kind: &str) -> (taste: NodeTaste)
        ensures
            taste == rust_taste(kind@),
    {
        if str_eq(kind, "call_expression")
            || str_eq(kind, "const_block")
            || str_eq(kind, "for_expression")
            || str_eq(kind, "if_expression")
            || str_eq(kind, "loop_expression")
            || str_eq(kind, "match_expression")
            || str_eq(kind, "while_expression")
            || str_eq(kind, "function_item")
            || str_eq(kind, "impl_item")
            || str_eq(kind, "trait_item")
            || str_eq(kind, "closure_expression") {
            NodeTaste::Interesting
        } else if str_eq(kind, "block_comment")
            || str_eq(kind, "doc_comment")
            || str_eq(kind, "line_comment")
            || str_eq(kind, "inner_doc_comment_marker")
            || str_eq(kind, "outer_doc_comment_marker")
            || str_eq(kind, "empty_statement") {
            NodeTaste::Ignored
        } else {
            NodeTaste::Normal
        }
    }

    /// What a node of the given kind adds to the cognitive complexity, in
    /// half points.
    pub fn weight(kind: &str) -> (weight: u8)
        ensures
            weight == rust_weight(kind@),
    {
        if str_eq(kind, "return_expression") || str_eq(kind, "yield_expression") {
            3
        } else if str_eq(kind, "block")
            || str_eq(kind, "if_expression")
            || str_eq(kind, "match_expression")
            || str_eq(kind, "match_pattern")
            || str_eq(kind, "loop_expression")
            || str_eq(kind, "for_expression")
            || str_eq(kind, "while_expression")
            || str_eq(kind, "break_expression")
            || str_eq(kind, "continue_expression")
            || str_eq(kind, "try_expression")
            || str_eq(kind, "try_block")
            || str_eq(kind, "closure_expression")
            || str_eq(kind, "async_block")
            || str_eq(kind, "function_item")
            || str_eq(kind, "unsafe_block")
            || str_eq(kind, "macro_invocation")
            || str_eq(kind, "const_block")
            || str_eq(kind, "gen_block")
            || str_eq(kind, "array_expression")
            || str_eq(kind, "call_expression")
            || str_eq(kind, "index_expression")
            || str_eq(kind, "tuple_expression")
            || str_eq(kind, "tuple_pattern")
            || str_eq(kind, "struct_pattern")
            || str_eq(kind, "tuple_struct_pattern") {
            2
        } else if str_eq(kind, "binary_expression")
            || str_eq(kind, "unary_expression")
            || str_eq(kind, "let_condition")
            || str_eq(kind, "await_expression")
            || str_eq(kind, "type_cast_expression")
            || str_eq(kind, "attribute_item")
            || str_eq(kind, "or_pattern")
            || str_eq(kind, "compound_assignment_expression")
            || str_eq(kind, "range_expression")
            || str_eq(kind, "lifetime")
            || str_eq(kind, "parenthesized_expression")
            || str_eq(kind, "reference_expression")
            || str_eq(kind, "type_arguments")
            || str_eq(kind, "field_pattern")
            || str_eq(kind, "remaining_field_pattern") {
            1
        } else {
            0
        }
    }

    /// The capture tag is one whose leaves keep their text.
    pub fn preserved(capture: &str) -> (kept: bool)
        ensures
            kept == rust_preserved(capture@),
    {
        str_eq(capture, "type")
            || str_eq(capture, "constant")
            || str_eq(capture, "function")
            || str_eq(capture, "constructor")
            || str_eq(capture, "label")
    }

    /// What is hashed for a leaf with the given capture tag and kind.
    pub fn leaf_source(capture: Option<&str>, kind: &str) -> (source: LeafSource)
        ensures
            source == rust_leaf_source(
                match capture {
                    Some(name) => Some(name@),
                    None => None,
                },
                kind@,
            ),
    {
        match capture {
            Some(name) => {
                if Self::preserved(name) {
                    return LeafSource::Text;
                }
                if str_eq(name, "variable.parameter") {
                    return LeafSource::CaptureName;
                }
            },
            None => {},
        }
        if str_eq(kind, "identifier") {
            LeafSource::KindName
        } else {
            LeafSource::Text
        }
    }
}

impl Language for Rust {
    open spec fn profile(&self) -> LanguageView {
        LanguageView {
            dialect: Dialect::Rust,
            seeds: self.seeds,
            capture_names: match self.grammar {
                Some(grammar) => grammar.capture_names(),
                None => Seq::empty(),
            },
            threshold: self.threshold,
            can_parse: self.grammar matches Some(grammar) && grammar.dialect == Dialect::Rust,
            own_query: self.grammar matches Some(grammar) && grammar.dialect == Dialect::Rust
                && highlights(Dialect::Rust, grammar.query),
        }
    }

    fn parse(&self, path: Arc<String>, source: Arc<String>) -> (tree: Option<IndexedTree>) {
        match &self.grammar {
            Some(grammar) => {
                if grammar.dialect == Dialect::Rust {
                    grammar.parse(path, source)
                } else {
                    None
                }
            },
            None => None,
        }
    }

    fn seeds(&self) -> (seeds: Seeds) {
        self.seeds
    }

    fn indexed_node_taste(&self, node: &IndexedNode) -> (taste: NodeTaste) {
        Self::taste(node.kind())
    }

    fn node_weight(&self, node: &IndexedNode) -> (weight: u8) {
        Self::weight(node.kind())
    }

    fn simple_hash_indexed_node(&self, node: &IndexedNode) -> (hash: u64) {
        let capture = self.capture_of(node);
        let source = Rust::leaf_source(capture, node.kind());
        hash_leaf(self.seeds, source, capture, node)
    }

    fn complexity_threshold(&self) -> (threshold: u64) {
        self.threshold
    }
}

} // verus!
