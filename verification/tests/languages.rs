use std::sync::Arc;

use echolysis::digest::Seeds;
use echolysis::languages::python::Python;
use echolysis::languages::rust::Rust;
use echolysis::languages::{Language, LeafSource, NodeTaste, SupportedLanguage};
use echolysis::node::IndexedNode;
use echolysis::node::{NodeInfo, Point};
use echolysis::syntax::{Capture, Dialect, Grammar, ParsedTree, RawNode, WalkStep};
use echolysis::tree::IndexedTree;

fn parse(language: &SupportedLanguage, source: &str) -> IndexedTree {
    language.parse(Arc::new("/work/file".to_string()), Arc::new(source.to_string())).unwrap()
}

fn leaves_with_text(tree: &IndexedTree, text: &str) -> Vec<Arc<IndexedNode>> {
    (0..tree.len())
        .map(|i| tree.node(i))
        .filter(|node| node.children().is_empty() && node.text() == text)
        .collect()
}

fn first_of_kind(tree: &IndexedTree, kind: &str) -> Arc<IndexedNode> {
    (0..tree.len()).map(|i| tree.node(i)).find(|node| node.kind() == kind).unwrap()
}

#[test]
fn rust_kinds_are_classified() {
    for kind in [
        "call_expression",
        "const_block",
        "for_expression",
        "if_expression",
        "loop_expression",
        "match_expression",
        "while_expression",
        "function_item",
        "impl_item",
        "trait_item",
        "closure_expression",
    ] {
        assert_eq!(Rust::taste(kind), NodeTaste::Interesting);
    }
    for kind in [
        "block_comment",
        "doc_comment",
        "line_comment",
        "inner_doc_comment_marker",
        "outer_doc_comment_marker",
        "empty_statement",
    ] {
        assert_eq!(Rust::taste(kind), NodeTaste::Ignored);
    }
    for kind in ["identifier", "block", "source_file", "", "for_statement", "comment"] {
        assert_eq!(Rust::taste(kind), NodeTaste::Normal);
    }
}

#[test]
fn python_kinds_are_classified() {
    for kind in [
        "for_statement",
        "if_statement",
        "match_statement",
        "try_statement",
        "while_statement",
        "with_statement",
        "call",
        "function_definition",
        "class_definition",
    ] {
        assert_eq!(Python::taste(kind), NodeTaste::Interesting);
    }
    assert_eq!(Python::taste("comment"), NodeTaste::Ignored);
    for kind in ["identifier", "module", "expression_statement", "line_comment", ""] {
        assert_eq!(Python::taste(kind), NodeTaste::Normal);
    }
}

#[test]
fn rust_weights_come_in_half_points() {
    for kind in ["return_expression", "yield_expression"] {
        assert_eq!(Rust::weight(kind), 3);
    }
    for kind in [
        "block",
        "if_expression",
        "match_expression",
        "match_pattern",
        "loop_expression",
        "for_expression",
        "while_expression",
        "break_expression",
        "continue_expression",
        "try_expression",
        "try_block",
        "closure_expression",
        "async_block",
        "function_item",
        "unsafe_block",
        "macro_invocation",
        "const_block",
        "gen_block",
        "array_expression",
        "call_expression",
        "index_expression",
        "tuple_expression",
        "tuple_pattern",
        "struct_pattern",
        "tuple_struct_pattern",
    ] {
        assert_eq!(Rust::weight(kind), 2);
    }
    for kind in [
        "binary_expression",
        "unary_expression",
        "let_condition",
        "await_expression",
        "type_cast_expression",
        "attribute_item",
        "or_pattern",
        "compound_assignment_expression",
        "range_expression",
        "lifetime",
        "parenthesized_expression",
        "reference_expression",
        "type_arguments",
        "field_pattern",
        "remaining_field_pattern",
    ] {
        assert_eq!(Rust::weight(kind), 1);
    }
    for kind in ["identifier", "impl_item", "source_file", "", "blocks"] {
        assert_eq!(Rust::weight(kind), 0);
    }
}

#[test]
fn python_weighs_statements_calls_and_function_definitions() {
    for kind in [
        "expression_statement",
        "if_statement",
        "statement",
        "call",
        "function_definition",
        "recall",
        "async_function_definition_x",
    ] {
        assert_eq!(Python::weight(kind), 2);
    }
    for kind in ["identifier", "module", "class_definition", "function", "", "cal"] {
        assert_eq!(Python::weight(kind), 0);
    }
}

#[test]
fn the_rust_policy_chooses_what_is_hashed() {
    for capture in ["type", "constant", "function", "constructor", "label"] {
        assert!(Rust::preserved(capture));
        assert_eq!(Rust::leaf_source(Some(capture), "identifier"), LeafSource::Text);
        assert_eq!(Rust::leaf_source(Some(capture), "type_identifier"), LeafSource::Text);
    }
    assert!(!Rust::preserved("variable.parameter"));
    assert!(!Rust::preserved("type.builtin"));
    assert_eq!(Rust::leaf_source(Some("variable.parameter"), "identifier"), LeafSource::CaptureName);
    assert_eq!(Rust::leaf_source(Some("variable.parameter"), "self"), LeafSource::CaptureName);
    assert_eq!(Rust::leaf_source(None, "identifier"), LeafSource::KindName);
    assert_eq!(Rust::leaf_source(Some("property"), "identifier"), LeafSource::KindName);
    assert_eq!(Rust::leaf_source(None, "integer_literal"), LeafSource::Text);
    assert_eq!(Rust::leaf_source(Some("property"), "field_identifier"), LeafSource::Text);
}

#[test]
fn the_python_policy_chooses_what_is_hashed() {
    assert_eq!(Python::leaf_source(Some("variable")), LeafSource::CaptureName);
    assert_eq!(Python::leaf_source(Some("function")), LeafSource::Text);
    assert_eq!(Python::leaf_source(Some("variable.parameter")), LeafSource::Text);
    assert_eq!(Python::leaf_source(None), LeafSource::Text);
}

#[test]
fn digests_depend_on_keys_and_bytes() {
    let seeds = Seeds { k0: 1, k1: 2, k2: 3, k3: 4 };
    let other = Seeds { k0: 1, k1: 2, k2: 3, k3: 5 };
    assert_eq!(seeds.hash(b"identifier"), seeds.hash(b"identifier"));
    assert_ne!(seeds.hash(b"identifier"), seeds.hash(b"identifies"));
    assert_ne!(seeds.hash(b"identifier"), other.hash(b"identifier"));
    assert_ne!(seeds.hash(b""), seeds.hash(b"\0"));
    // The same keys give the same digest in a copy of the keys.
    let copy = Seeds { k0: 1, k1: 2, k2: 3, k3: 4 };
    assert_eq!(copy.hash(b"some text"), seeds.hash(b"some text"));
}

#[test]
fn fresh_keys_differ() {
    let a = Seeds::fresh();
    let b = Seeds::fresh();
    assert!(a != b);
}

#[test]
fn rust_identifiers_hash_alike_and_literals_by_their_text() {
    let language = SupportedLanguage::from_language_id("rust").unwrap();
    let tree = parse(&language, "fn main() { let alpha = 1; let beta = 2; let gamma = 1; }");
    let alpha = &leaves_with_text(&tree, "alpha")[0];
    let beta = &leaves_with_text(&tree, "beta")[0];
    assert_eq!(alpha.kind(), "identifier");
    assert_eq!(
        language.simple_hash_indexed_node(alpha),
        language.simple_hash_indexed_node(beta)
    );
    let ones = leaves_with_text(&tree, "1");
    let two = &leaves_with_text(&tree, "2")[0];
    assert_eq!(ones.len(), 2);
    assert_eq!(
        language.simple_hash_indexed_node(&ones[0]),
        language.simple_hash_indexed_node(&ones[1])
    );
    assert_ne!(
        language.simple_hash_indexed_node(&ones[0]),
        language.simple_hash_indexed_node(two)
    );
    // An obfuscated identifier hashes as the name of its kind does.
    assert_eq!(language.simple_hash_indexed_node(alpha), language.seeds().hash(b"identifier"));
    assert_eq!(language.simple_hash_indexed_node(two), language.seeds().hash(b"2"));
}

#[test]
fn rust_types_and_functions_keep_their_names() {
    let language = SupportedLanguage::from_language_id("rust").unwrap();
    let tree = parse(&language, "fn first(a: Apple) {} fn second(b: Banana) {}");
    let apple = &leaves_with_text(&tree, "Apple")[0];
    let banana = &leaves_with_text(&tree, "Banana")[0];
    assert_eq!(language.capture_of(apple), Some("type"));
    assert_ne!(
        language.simple_hash_indexed_node(apple),
        language.simple_hash_indexed_node(banana)
    );
    assert_eq!(language.simple_hash_indexed_node(apple), language.seeds().hash(b"Apple"));
    let first = &leaves_with_text(&tree, "first")[0];
    let second = &leaves_with_text(&tree, "second")[0];
    assert_eq!(language.capture_of(first), Some("function"));
    assert_ne!(
        language.simple_hash_indexed_node(first),
        language.simple_hash_indexed_node(second)
    );
    // Parameters hash as the name of their capture tag does.
    let a = &leaves_with_text(&tree, "a")[0];
    let b = &leaves_with_text(&tree, "b")[0];
    assert_eq!(language.capture_of(a), Some("variable.parameter"));
    assert_eq!(language.simple_hash_indexed_node(a), language.simple_hash_indexed_node(b));
    assert_eq!(
        language.simple_hash_indexed_node(a),
        language.seeds().hash(b"variable.parameter")
    );
}

#[test]
fn python_variables_hash_alike() {
    let language = SupportedLanguage::from_language_id("python").unwrap();
    let tree = parse(&language, "alpha = 1\nbeta = 2\n");
    let alpha = &leaves_with_text(&tree, "alpha")[0];
    let beta = &leaves_with_text(&tree, "beta")[0];
    assert_eq!(language.capture_of(alpha), Some("variable"));
    assert_eq!(
        language.simple_hash_indexed_node(alpha),
        language.simple_hash_indexed_node(beta)
    );
    assert_eq!(language.simple_hash_indexed_node(alpha), language.seeds().hash(b"variable"));
    let one = &leaves_with_text(&tree, "1")[0];
    let two = &leaves_with_text(&tree, "2")[0];
    assert_ne!(language.simple_hash_indexed_node(one), language.simple_hash_indexed_node(two));
}

#[test]
fn the_cognitive_complexity_sums_the_weights_of_a_subtree() {
    let language = SupportedLanguage::from_language_id("rust").unwrap();
    let tree = parse(&language, "fn f() -> i32 { return 1 + 2; }");
    let function = first_of_kind(&tree, "function_item");
    // function_item 1, block 1, return_expression 1.5, binary_expression 0.5
    assert_eq!(language.indexed_node_cognitive_complexity(&tree, function.id()), 8);
    let block = first_of_kind(&tree, "block");
    assert_eq!(language.indexed_node_cognitive_complexity(&tree, block.id()), 6);
    let sum = first_of_kind(&tree, "binary_expression");
    assert_eq!(language.indexed_node_cognitive_complexity(&tree, sum.id()), 1);
    let literal = first_of_kind(&tree, "integer_literal");
    assert_eq!(language.indexed_node_cognitive_complexity(&tree, literal.id()), 0);
    assert_eq!(language.node_weight(&function), 2);
    assert_eq!(language.indexed_node_taste(&function), NodeTaste::Interesting);
    assert!(!language.is_skipped(&function));
}

#[test]
fn python_complexity_counts_statements_and_calls() {
    let language = SupportedLanguage::from_language_id("python").unwrap();
    let tree = parse(&language, "def f(x):\n    print(x)\n    return x\n");
    let function = first_of_kind(&tree, "function_definition");
    // function_definition, expression_statement, call, return_statement
    assert_eq!(language.indexed_node_cognitive_complexity(&tree, function.id()), 8);
}

#[test]
fn comments_are_skipped() {
    let language = SupportedLanguage::from_language_id("python").unwrap();
    let tree = parse(&language, "# note\nx = 1\n");
    let comment = first_of_kind(&tree, "comment");
    assert_eq!(language.indexed_node_taste(&comment), NodeTaste::Ignored);
    assert!(language.is_skipped(&comment));
    let rust = SupportedLanguage::from_language_id("rust").unwrap();
    let tree = parse(&rust, "// note\nfn f() {}\n");
    let comment = first_of_kind(&tree, "line_comment");
    assert!(rust.is_skipped(&comment));
}

#[test]
fn a_parsed_tree_is_indexed_in_post_order() {
    let language = SupportedLanguage::from_language_id("rust").unwrap();
    let source = "fn f(a: i32) -> i32 { a + 1 }";
    let tree = parse(&language, source);
    let root = tree.root_node();
    assert_eq!(root.kind(), "source_file");
    assert_eq!(root.id(), tree.len() - 1);
    assert_eq!(root.first(), 0);
    assert_eq!(root.text(), source);
    assert_eq!(root.path(), "/work/file");
    for place in 0..tree.len() {
        let node = tree.node(place);
        assert_eq!(node.id(), place);
        assert!(node.first() <= place);
        let (start, end) = node.byte_range();
        let mut next = node.first();
        for child in node.children() {
            let child = tree.node(*child);
            assert_eq!(child.first(), next);
            next = child.id() + 1;
            let (child_start, child_end) = child.byte_range();
            assert!(start <= child_start && child_end <= end);
        }
        assert_eq!(next, place);
    }
    let function = first_of_kind(&tree, "function_item");
    assert_eq!(function.text(), source);
    assert_eq!(function.position_range().0.row, 0);
    assert_eq!(function.position_range().1.column, source.len());
}

#[test]
fn a_profile_can_be_used_on_its_own() {
    let rust = Rust::new();
    assert_eq!(Language::complexity_threshold(&rust), 20);
    let tree = Language::parse(
        &rust,
        Arc::new("/work/file".to_string()),
        Arc::new("fn f() { g(); }".to_string()),
    )
    .unwrap();
    let call = first_of_kind(&tree, "call_expression");
    assert_eq!(Language::indexed_node_taste(&rust, &call), NodeTaste::Interesting);
    assert_eq!(Language::node_weight(&rust, &call), 2);
    let name = &leaves_with_text(&tree, "g")[0];
    assert_eq!(rust.capture_of(name), Some("function"));
    assert_eq!(
        Language::simple_hash_indexed_node(&rust, name),
        Language::seeds(&rust).hash(b"g")
    );
    let python = Python::new();
    assert_eq!(Language::complexity_threshold(&python), 20);
    assert!(python.grammar.is_some());
}

#[test]
fn the_spans_of_a_parsed_tree_are_nested() {
    let language = SupportedLanguage::from_language_id("rust").unwrap();
    let tree = parse(&language, "fn f(a: i32) -> i32 { if a > 1 { a } else { 1 } }\n// end\n");
    assert!(tree.spans_are_nested());
    let python = SupportedLanguage::from_language_id("python").unwrap();
    assert!(parse(&python, "def f(x):\n    return x\n").spans_are_nested());
}

#[test]
fn a_grammar_stands_exactly_where_the_parser_made_a_query() {
    assert!(Grammar::with_query(Dialect::Rust, None).is_none());
    let language: tree_sitter::Language = tree_sitter_rust::LANGUAGE.into();
    let query = tree_sitter::Query::new(&language, "(identifier) @name").unwrap();
    let grammar = Grammar::with_query(Dialect::Rust, Some(query)).unwrap();
    assert_eq!(grammar.dialect, Dialect::Rust);
    assert_eq!(grammar.query_names, vec!["name".to_string()]);
    assert!(tree_sitter::Query::new(&language, "(no_such_kind) @name").is_err());
}

#[test]
fn a_profile_without_its_grammar_parses_nothing() {
    let seeds = Seeds { k0: 9, k1: 8, k2: 7, k3: 6 };
    let path = Arc::new("/work/a.rs".to_string());
    let source = Arc::new("fn f() {}".to_string());

    let bare = Rust::with_grammar(None, seeds);
    assert!(bare.seeds == seeds);
    assert_eq!(bare.threshold, 20);
    assert!(Language::parse(&bare, path.clone(), source.clone()).is_none());
    assert_eq!(Rust::taste("function_item"), NodeTaste::Interesting);

    // The grammar of another language is no grammar of this one.
    let wrong = Rust::with_grammar(Grammar::python(), seeds);
    assert!(Language::parse(&wrong, path.clone(), source.clone()).is_none());
    let wrong = Python::with_grammar(Grammar::rust(), seeds);
    assert!(Language::parse(&wrong, path.clone(), source.clone()).is_none());

    let rust = Rust::with_grammar(Grammar::rust(), seeds);
    assert_eq!(rust.grammar.as_ref().unwrap().dialect, Dialect::Rust);
    assert!(Language::parse(&rust, path.clone(), source.clone()).is_some());
    let python = Python::with_grammar(Grammar::python(), seeds);
    assert_eq!(python.grammar.as_ref().unwrap().dialect, Dialect::Python);
    assert!(Language::parse(&python, path, Arc::new("x = 1\n".to_string())).is_some());
}

#[test]
fn an_indexed_tree_stands_exactly_where_the_parser_yielded_a_tree() {
    let grammar = Grammar::rust().unwrap();
    let path = Arc::new("/work/a.rs".to_string());
    let source = Arc::new("fn f() {}".to_string());
    assert!(grammar.index_parsed(path.clone(), source.clone(), None).is_none());
    let mut parser = tree_sitter::Parser::new();
    // A parser without a grammar yields nothing.
    assert!(parser.parse(source.as_str(), None).is_none());
    parser.set_language(&tree_sitter_rust::LANGUAGE.into()).unwrap();
    let parsed = parser.parse(source.as_str(), None);
    assert!(parsed.is_some());
    let tree = grammar.index_parsed(path.clone(), source.clone(), parsed).unwrap();
    assert_eq!(tree.root_node().path(), "/work/a.rs");
    assert_eq!(tree.root_node().text(), "fn f() {}");
    assert_eq!(tree.root_node().kind(), "source_file");
    let whole = grammar.parse(path, source).unwrap();
    assert_eq!(whole.len(), tree.len());
}

fn raw(id: usize, kind: &str, start_byte: usize, end_byte: usize) -> WalkStep {
    WalkStep::Enter(RawNode {
        id,
        info: NodeInfo {
            kind: kind.to_string(),
            start: Point { row: 0, column: start_byte },
            end: Point { row: 0, column: end_byte },
            start_byte,
            end_byte,
            is_extra: kind == "comment",
            is_missing: false,
            is_error: false,
        },
    })
}

#[test]
fn a_walk_is_indexed_node_for_node() {
    // root(a(b, c), comment)
    let parsed = ParsedTree {
        steps: vec![
            raw(100, "root", 0, 9),
            raw(200, "a", 0, 2),
            raw(300, "b", 0, 1),
            WalkStep::Leave,
            raw(400, "c", 1, 2),
            WalkStep::Leave,
            WalkStep::Leave,
            raw(500, "comment", 3, 9),
            WalkStep::Leave,
            WalkStep::Leave,
        ],
        matches: vec![
            vec![Capture { node: 300, index: 1 }],
            vec![Capture { node: 999, index: 5 }, Capture { node: 400, index: 2 }],
            vec![],
            vec![Capture { node: 300, index: 7 }],
        ],
    };
    let path = Arc::new("/work/a.rs".to_string());
    let source = Arc::new("bc # note".to_string());
    let tree = IndexedTree::new(path, source, &parsed).unwrap();
    assert_eq!(tree.len(), 5);
    let seen: Vec<(String, Option<usize>, Vec<usize>, String, bool)> = (0..5)
        .map(|i| {
            let n = tree.node(i);
            (
                n.kind().to_string(),
                n.query_index(),
                n.children().clone(),
                n.text().to_string(),
                n.is_extra_or_missing_or_error(),
            )
        })
        .collect();
    assert_eq!(
        seen,
        vec![
            ("b".to_string(), Some(7), vec![], "b".to_string(), false),
            ("c".to_string(), Some(2), vec![], "c".to_string(), false),
            ("a".to_string(), None, vec![0, 1], "bc".to_string(), false),
            ("comment".to_string(), None, vec![], "# note".to_string(), true),
            ("root".to_string(), None, vec![2, 3], "bc # note".to_string(), false),
        ]
    );
    assert!(tree.spans_are_nested());
}

#[test]
fn a_walk_that_fits_nowhere_is_mended() {
    let path = Arc::new("/work/a.rs".to_string());
    let source = Arc::new("abc".to_string());
    // Nothing is entered: no tree.
    let empty = ParsedTree { steps: vec![WalkStep::Leave], matches: vec![] };
    assert!(IndexedTree::new(path.clone(), source.clone(), &empty).is_none());
    let none = ParsedTree { steps: vec![], matches: vec![] };
    assert!(IndexedTree::new(path.clone(), source.clone(), &none).is_none());
    // Open nodes are left at the end; a second root is passed over.
    let open = ParsedTree {
        steps: vec![raw(1, "root", 0, 3), raw(2, "child", 0, 1)],
        matches: vec![],
    };
    let tree = IndexedTree::new(path.clone(), source.clone(), &open).unwrap();
    assert_eq!(tree.len(), 2);
    assert_eq!(tree.root_node().kind(), "root");
    assert_eq!(tree.root_node().children(), &vec![0]);
    let twice = ParsedTree {
        steps: vec![raw(1, "root", 0, 3), WalkStep::Leave, WalkStep::Leave, raw(2, "other", 0, 1)],
        matches: vec![],
    };
    let tree = IndexedTree::new(path, source, &twice).unwrap();
    assert_eq!(tree.len(), 1);
    assert_eq!(tree.root_node().kind(), "root");
}

#[test]
fn a_parse_tree_is_read_as_a_balanced_walk() {
    let grammar = Grammar::rust().unwrap();
    let source = "fn f(a: i32) -> i32 { a + 1 }";
    let mut parser = tree_sitter::Parser::new();
    parser.set_language(&tree_sitter_rust::LANGUAGE.into()).unwrap();
    let tree = parser.parse(source, None).unwrap();
    let parsed = ParsedTree::read(&tree, &grammar.query, source);
    let enters = parsed.steps.iter().filter(|s| matches!(s, WalkStep::Enter(_))).count();
    let leaves = parsed.steps.len() - enters;
    assert_eq!(enters, tree.root_node().descendant_count());
    assert_eq!(leaves, enters);
    let mut depth = 0usize;
    for step in &parsed.steps {
        match step {
            WalkStep::Enter(_) => depth += 1,
            WalkStep::Leave => {
                assert!(depth > 0);
                depth -= 1;
            }
        }
    }
    assert_eq!(depth, 0);
    match &parsed.steps[0] {
        WalkStep::Enter(root) => {
            assert_eq!(root.info.kind, "source_file");
            assert_eq!(root.id, tree.root_node().id());
            assert_eq!(root.info.end_byte, source.len());
        }
        WalkStep::Leave => panic!("the walk starts at the root"),
    }
    assert!(!parsed.matches.is_empty());
    let indexed = IndexedTree::new(
        Arc::new("/work/a.rs".to_string()),
        Arc::new(source.to_string()),
        &parsed,
    )
    .unwrap();
    assert_eq!(indexed.len(), enters);
}
