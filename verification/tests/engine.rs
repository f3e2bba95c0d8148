use std::collections::BTreeSet;
use std::sync::Arc;

use echolysis::engine::Engine;
use echolysis::languages::SupportedLanguage;
use echolysis::node::IndexedNode;

fn engine_for(language_id: &str) -> Engine {
    Engine::new(SupportedLanguage::from_language_id(language_id).unwrap())
}

fn engine_with_threshold(language_id: &str, half_points: u64) -> Engine {
    let language = SupportedLanguage::from_language_id(language_id).unwrap();
    Engine::new(language.with_complexity_threshold(half_points))
}

fn text(s: &str) -> Arc<String> {
    Arc::new(s.to_string())
}

fn function(name: &str) -> String {
    format!(
        "
fn {name}(values: &[i32]) -> i32 {{
    let mut total = 0;
    for value in values {{
        if *value > 10 {{
            total += value * 2;
        }} else if *value < 0 {{
            total -= value;
        }} else {{
            total += 1;
        }}
    }}
    while total > 100 {{
        total = total / 2;
    }}
    total
}}
"
    )
}

fn other_function(name: &str) -> String {
    format!(
        "
fn {name}(left: &str, right: &str) -> bool {{
    let mut count = 0;
    for (a, b) in left.chars().zip(right.chars()) {{
        match (a, b) {{
            ('x', 'y') => count += 1,
            ('y', 'x') => count -= 1,
            _ => {{
                if a == b {{
                    count += 2;
                }}
            }}
        }}
    }}
    loop {{
        if count > 3 {{
            break;
        }}
        count += 1;
    }}
    count == 4
}}
"
    )
}

/// The groups as a set of sets of (path, place).
fn as_sets(groups: &Vec<Vec<Arc<IndexedNode>>>) -> BTreeSet<BTreeSet<(String, usize)>> {
    groups
        .iter()
        .map(|group| group.iter().map(|node| (node.path().to_string(), node.id())).collect())
        .collect()
}

/// The index as a set of (fingerprint, path, place).
fn index_of(engine: &Engine) -> BTreeSet<(u64, String, usize)> {
    let mut all = BTreeSet::new();
    for bucket in engine.buckets() {
        for node in &bucket.nodes {
            all.insert((bucket.fingerprint, node.path().to_string(), node.id()));
        }
    }
    all
}

#[test]
fn a_new_engine_is_empty() {
    let engine = engine_for("rust");
    assert_eq!(engine.language_id(), "rust");
    assert!(engine.paths().is_empty());
    assert!(engine.buckets().is_empty());
    assert!(engine.tree("a.rs").is_none());
    assert!(engine.detect_duplicates(None).is_empty());
}

#[test]
fn identical_functions_in_one_file_give_one_group() {
    let mut engine = engine_for("rust");
    let source = format!("{}{}{}", function("f"), function("f"), function("f"));
    engine.insert(text("a.rs"), text(&source));
    let groups = engine.detect_duplicates(None);
    assert_eq!(groups.len(), 1);
    assert_eq!(groups[0].len(), 3);
    for node in &groups[0] {
        assert_eq!(node.kind(), "function_item");
        assert_eq!(node.path(), "a.rs");
    }
}

#[test]
fn subtrees_below_the_threshold_are_never_reported() {
    let mut engine = engine_for("rust");
    let small = "fn tiny(x: i32) -> i32 { if x > 1 { x } else { 1 } }\n";
    engine.insert(text("a.rs"), text(&small.repeat(5)));
    engine.insert(text("b.rs"), text(&small.repeat(5)));
    assert!(engine.detect_duplicates(None).is_empty());
    assert!(engine.buckets().is_empty());
}

#[test]
fn the_threshold_is_met_from_ten_points_on() {
    let mut engine = engine_for("rust");
    engine.insert(text("a.rs"), text(&function("f")));
    let tree = engine.tree("a.rs").unwrap();
    for bucket in engine.buckets() {
        for node in &bucket.nodes {
            let complexity =
                engine.profile().indexed_node_cognitive_complexity(&tree, node.id());
            assert!(complexity >= 20);
        }
    }
    let root = tree.len() - 1;
    for place in 0..tree.len() {
        let complexity = engine.profile().indexed_node_cognitive_complexity(&tree, place);
        if complexity < 20 {
            assert!(engine.node_fingerprint("a.rs", place).is_none());
        }
    }
    // The root is no clone candidate, whatever its complexity.
    assert!(engine.node_fingerprint("a.rs", root).is_none());
}

#[test]
fn parse_errors_do_not_hide_the_rest_of_a_file() {
    let mut engine = engine_for("rust");
    let broken = format!("{}\nfn broken( {{ let = ; }}\n{}", function("f"), function("f"));
    assert!(engine.insert(text("a.rs"), text(&broken)).is_some());
    let tree = engine.tree("a.rs").unwrap();
    assert!((0..tree.len()).any(|i| tree.node(i).is_extra_or_missing_or_error()));
    let groups = engine.detect_duplicates(None);
    assert_eq!(groups.len(), 1);
    assert_eq!(groups[0].len(), 2);
}

#[test]
fn a_function_twice_in_one_file_and_once_in_another_gives_three_members() {
    let mut engine = engine_for("rust");
    engine.insert(text("a.rs"), text(&format!("{}{}", function("f"), function("f"))));
    engine.insert(text("b.rs"), text(&function("f")));
    let groups = engine.detect_duplicates(None);
    assert_eq!(groups.len(), 1);
    assert_eq!(groups[0].len(), 3);
    assert!(groups[0].iter().all(|node| node.kind() == "function_item"));
    let paths: Vec<&str> = groups[0].iter().map(|node| node.path()).collect();
    assert_eq!(paths.iter().filter(|p| **p == "a.rs").count(), 2);
    assert_eq!(paths.iter().filter(|p| **p == "b.rs").count(), 1);
}

#[test]
fn renamed_loop_variables_collapse() {
    let mut engine = engine_with_threshold("rust", 6);
    engine.insert(text("a.rs"), text("fn main() { for i in 0..10 { work(i); } }"));
    engine.insert(text("b.rs"), text("fn other() { for j in 0..10 { work(j); } }"));
    let groups = engine.detect_duplicates(None);
    assert_eq!(groups.len(), 1);
    assert_eq!(groups[0].len(), 2);
    assert!(groups[0].iter().all(|node| node.kind() == "for_expression"));
}

#[test]
fn renamed_loop_variables_collapse_at_the_top_of_a_file() {
    let mut engine = engine_with_threshold("rust", 6);
    engine.insert(text("a.rs"), text("for i in 0..10 { work(i); }"));
    engine.insert(text("b.rs"), text("for j in 0..10 { work(j); }"));
    let groups = engine.detect_duplicates(None);
    assert_eq!(groups.len(), 1);
    assert_eq!(groups[0].len(), 2);
}

#[test]
fn different_called_functions_do_not_collapse() {
    let mut engine = engine_with_threshold("rust", 6);
    engine.insert(text("a.rs"), text("fn main() { for i in 0..10 { work(i); } }"));
    engine.insert(text("b.rs"), text("fn other() { for j in 0..10 { rest(j); } }"));
    assert!(engine.detect_duplicates(None).is_empty());
}

#[test]
fn trivial_declarations_give_no_group() {
    for half_points in [0, 20] {
        let mut engine = engine_with_threshold("rust", half_points);
        engine.insert(text("a.rs"), text("let T = 1; let U = 2;"));
        assert!(engine.detect_duplicates(None).is_empty());
    }
}

#[test]
fn inserting_a_file_twice_is_inserting_it_once() {
    let mut once = engine_for("rust");
    once.insert(text("a.rs"), text(&format!("{}{}", function("f"), function("f"))));
    let mut twice = engine_for("rust");
    twice.insert(text("a.rs"), text(&format!("{}{}", function("f"), function("f"))));
    twice.insert(text("a.rs"), text(&format!("{}{}", function("f"), function("f"))));
    assert_eq!(as_sets(&once.detect_duplicates(None)), as_sets(&twice.detect_duplicates(None)));
    assert_eq!(twice.detect_duplicates(None).len(), 1);
    assert_eq!(twice.paths(), vec!["a.rs".to_string()]);
    assert_eq!(index_of(&twice).len(), index_of(&once).len());
}

#[test]
fn two_equal_files_then_one_removed_gives_no_group() {
    let mut engine = engine_for("rust");
    engine.insert(text("a.rs"), text(&function("f")));
    engine.insert(text("b.rs"), text(&function("f")));
    assert_eq!(engine.detect_duplicates(None).len(), 1);
    engine.remove("a.rs");
    assert!(engine.detect_duplicates(None).is_empty());
    assert!(engine.tree("a.rs").is_none());
    assert!(engine.tree("b.rs").is_some());
}

#[test]
fn every_listed_node_has_its_fingerprint_recorded() {
    let mut engine = engine_for("rust");
    engine.insert(text("a.rs"), text(&format!("{}{}", function("f"), other_function("g"))));
    engine.insert(text("b.rs"), text(&function("f")));
    let buckets = engine.buckets();
    assert!(!buckets.is_empty());
    let mut listed = 0;
    for bucket in &buckets {
        assert!(!bucket.nodes.is_empty());
        for node in &bucket.nodes {
            assert_eq!(engine.node_fingerprint(node.path(), node.id()), Some(bucket.fingerprint));
            listed += 1;
        }
    }
    // Every recorded node is listed exactly once.
    let mut recorded = 0;
    for path in ["a.rs", "b.rs"] {
        let tree = engine.tree(path).unwrap();
        for place in 0..tree.len() {
            if engine.node_fingerprint(path, place).is_some() {
                recorded += 1;
            }
        }
    }
    assert_eq!(listed, recorded);
}

#[test]
fn removal_takes_everything_of_a_file_and_nothing_else() {
    let mut engine = engine_for("rust");
    engine.insert(text("b.rs"), text(&other_function("g")));
    let before = index_of(&engine);
    assert!(!before.is_empty());
    engine.insert(text("a.rs"), text(&format!("{}{}", function("f"), other_function("g"))));
    let places = engine.tree("a.rs").unwrap().len();
    assert!(index_of(&engine).len() > before.len());
    engine.remove("a.rs");
    assert_eq!(index_of(&engine), before);
    for place in 0..places {
        assert!(engine.node_fingerprint("a.rs", place).is_none());
    }
    for bucket in engine.buckets() {
        assert!(!bucket.nodes.is_empty());
        assert!(bucket.nodes.iter().all(|node| node.path() != "a.rs"));
    }
    // Removing what is not there changes nothing.
    engine.remove("a.rs");
    engine.remove("never.rs");
    assert_eq!(index_of(&engine), before);
}

#[test]
fn replacing_a_file_drops_its_old_fingerprints() {
    let mut engine = engine_for("rust");
    engine.insert(text("a.rs"), text(&function("f")));
    engine.insert(text("b.rs"), text(&function("f")));
    assert_eq!(engine.detect_duplicates(None).len(), 1);
    engine.insert(text("a.rs"), text(&other_function("g")));
    assert!(engine.detect_duplicates(None).is_empty());
    engine.insert(text("b.rs"), text(&other_function("g")));
    let groups = engine.detect_duplicates(None);
    assert_eq!(groups.len(), 1);
    assert_eq!(groups[0].len(), 2);
}

#[test]
fn a_batch_gives_the_same_groups_in_any_order() {
    let files = vec![
        ("a.rs", format!("{}{}", function("f"), other_function("g"))),
        ("b.rs", function("f")),
        ("c.rs", other_function("g")),
        ("d.rs", "fn unrelated() {}".to_string()),
    ];
    let batch: Vec<(Arc<String>, Arc<String>)> =
        files.iter().map(|(path, source)| (text(path), text(source))).collect();

    let mut batched = engine_for("rust");
    batched.insert_many(batch.clone());
    let mut forwards = engine_for("rust");
    for (path, source) in batch.iter() {
        forwards.insert(path.clone(), source.clone());
    }
    let mut backwards = engine_for("rust");
    for (path, source) in batch.iter().rev() {
        backwards.insert(path.clone(), source.clone());
    }
    let expected = as_sets(&batched.detect_duplicates(None));
    assert_eq!(expected.len(), 2);
    assert_eq!(as_sets(&forwards.detect_duplicates(None)), expected);
    assert_eq!(as_sets(&backwards.detect_duplicates(None)), expected);
}

#[test]
fn trees_can_be_inserted_as_they_are() {
    let mut donor = engine_for("rust");
    donor.insert(text("a.rs"), text(&function("f")));
    donor.insert(text("b.rs"), text(&function("f")));
    let trees = vec![donor.tree("b.rs").unwrap(), donor.tree("a.rs").unwrap()];
    let mut engine = engine_for("rust");
    engine.insert_trees(&trees);
    let groups = engine.detect_duplicates(None);
    assert_eq!(groups.len(), 1);
    assert_eq!(groups[0].len(), 2);
    let mut paths = engine.paths();
    paths.sort();
    assert_eq!(paths, vec!["a.rs".to_string(), "b.rs".to_string()]);
}

#[test]
fn equal_sources_get_equal_fingerprints() {
    let mut engine = engine_for("rust");
    let source = format!("{}{}", function("f"), other_function("g"));
    engine.insert(text("a.rs"), text(&source));
    engine.insert(text("b.rs"), text(&source));
    let a = engine.tree("a.rs").unwrap();
    let b = engine.tree("b.rs").unwrap();
    assert_eq!(a.len(), b.len());
    let mut registered = 0;
    for place in 0..a.len() {
        let left = engine.node_fingerprint("a.rs", place);
        assert_eq!(left, engine.node_fingerprint("b.rs", place));
        if left.is_some() {
            registered += 1;
        }
    }
    assert!(registered > 0);
}

#[test]
fn the_query_changes_nothing_and_repeats_its_answer() {
    let mut engine = engine_for("rust");
    engine.insert(text("a.rs"), text(&format!("{}{}", function("f"), other_function("g"))));
    engine.insert(text("b.rs"), text(&format!("{}{}", other_function("g"), function("f"))));
    let before = index_of(&engine);
    let first = as_sets(&engine.detect_duplicates(None));
    let second = as_sets(&engine.detect_duplicates(None));
    assert_eq!(first.len(), 2);
    assert_eq!(first, second);
    assert_eq!(index_of(&engine), before);
}

#[test]
fn no_member_lies_below_another_member() {
    let mut engine = engine_for("rust");
    engine.insert(text("a.rs"), text(&format!("{}{}", function("f"), other_function("g"))));
    engine.insert(text("b.rs"), text(&format!("{}{}", function("f"), other_function("g"))));
    // The loops inside the functions repeat too, and are listed.
    assert!(engine.buckets().iter().any(|bucket| {
        bucket.nodes.len() >= 2 && bucket.nodes.iter().all(|n| n.kind() == "for_expression")
    }));
    let groups = engine.detect_duplicates(None);
    assert_eq!(groups.len(), 2);
    let members: Vec<&Arc<IndexedNode>> = groups.iter().flatten().collect();
    for member in &members {
        assert_eq!(member.kind(), "function_item");
        for above in &members {
            let below = member.path() == above.path()
                && above.first() <= member.id()
                && member.id() < above.id();
            assert!(!below);
        }
    }
}

#[test]
fn a_cap_limits_the_number_of_groups() {
    let mut engine = engine_for("rust");
    engine.insert(text("a.rs"), text(&format!("{}{}", function("f"), other_function("g"))));
    engine.insert(text("b.rs"), text(&format!("{}{}", function("f"), other_function("g"))));
    let all = as_sets(&engine.detect_duplicates(None));
    assert_eq!(all.len(), 2);
    assert!(engine.detect_duplicates(Some(0)).is_empty());
    let one = engine.detect_duplicates(Some(1));
    assert_eq!(one.len(), 1);
    assert!(as_sets(&one).is_subset(&all));
    assert_eq!(as_sets(&engine.detect_duplicates(Some(2))), all);
    assert_eq!(as_sets(&engine.detect_duplicates(Some(100))), all);
}

#[test]
fn many_files_can_be_removed_at_once() {
    let mut engine = engine_for("rust");
    for path in ["a.rs", "b.rs", "c.rs"] {
        engine.insert(text(path), text(&function("f")));
    }
    assert_eq!(engine.detect_duplicates(None)[0].len(), 3);
    engine.remove_many(&vec!["a.rs".to_string(), "missing.rs".to_string()]);
    assert_eq!(engine.detect_duplicates(None)[0].len(), 2);
    engine.remove_all();
    assert!(engine.paths().is_empty());
    assert!(engine.buckets().is_empty());
    assert!(engine.detect_duplicates(None).is_empty());
}

#[test]
fn python_functions_are_compared_too() {
    let source = "
def compute(values):
    total = 0
    for value in values:
        if value > 10:
            total += value * 2
        elif value < 0:
            total -= value
        else:
            total += 1
    while total > 100:
        total = total / 2
    print(total)
    print(values)
    return total
";
    let mut engine = engine_for("python");
    engine.insert(text("a.py"), text(source));
    engine.insert(text("b.py"), text(&source.replace("total", "sum").replace("value", "item")));
    let groups = engine.detect_duplicates(None);
    assert_eq!(groups.len(), 1);
    assert_eq!(groups[0].len(), 2);
    assert!(groups[0].iter().all(|node| node.kind() == "function_definition"));
}

#[test]
fn the_text_of_a_comment_does_not_change_a_fingerprint() {
    let mut engine = engine_for("rust");
    let first = function("f").replace("let mut total = 0;", "// start\n    let mut total = 0;");
    let second =
        function("f").replace("let mut total = 0;", "//   something else  \n    let mut total = 0;");
    assert_ne!(first, second);
    engine.insert(text("a.rs"), text(&first));
    engine.insert(text("b.rs"), text(&second));
    let groups = engine.detect_duplicates(None);
    assert_eq!(groups.len(), 1);
    assert_eq!(groups[0].len(), 2);
}

#[test]
fn two_files_with_the_same_function_give_one_group_of_two() {
    let mut engine = engine_for("rust");
    assert!(engine.insert(text("a.rs"), text(&function("f"))).is_some());
    assert!(engine.insert(text("b.rs"), text(&function("f"))).is_some());
    let groups = engine.detect_duplicates(None);
    assert_eq!(groups.len(), 1);
    assert_eq!(groups[0].len(), 2);
    let mut paths: Vec<&str> = groups[0].iter().map(|node| node.path()).collect();
    paths.sort();
    assert_eq!(paths, vec!["a.rs", "b.rs"]);
    for node in &groups[0] {
        assert_eq!(node.kind(), "function_item");
        assert_eq!(node.text(), function("f").trim());
    }
}

#[test]
fn what_the_parser_made_is_put_in_or_the_file_removed() {
    let mut engine = engine_for("rust");
    let first = engine.profile().parse(text("a.rs"), text(&function("f")));
    assert!(first.is_some());
    assert!(engine.insert_parsed(text("a.rs"), first).is_some());
    let second = engine.profile().parse(text("b.rs"), text(&function("f")));
    assert!(engine.insert_parsed(text("b.rs"), second).is_some());
    assert_eq!(engine.detect_duplicates(None).len(), 1);
    // No tree: the file leaves the engine, and the result says so.
    assert!(engine.insert_parsed(text("a.rs"), None).is_none());
    assert!(engine.tree("a.rs").is_none());
    assert!(engine.tree("b.rs").is_some());
    assert!(engine.detect_duplicates(None).is_empty());
    assert!(engine.insert_parsed(text("never.rs"), None).is_none());
    assert_eq!(engine.paths(), vec!["b.rs".to_string()]);
}

#[test]
fn every_text_gets_a_tree() {
    let mut engine = engine_for("rust");
    for (i, source) in ["", "fn", "}}}}", "\u{0}\u{1}", "let x = ;;;", "fn f() {}"].iter().enumerate() {
        let path = format!("{}.rs", i);
        assert!(engine.insert(text(&path), text(source)).is_some());
        assert!(engine.tree(&path).is_some());
    }
    assert_eq!(engine.paths().len(), 6);
}

#[test]
fn nodes_are_equal_by_identity() {
    let mut engine = engine_for("rust");
    engine.insert(text("a.rs"), text(&function("f")));
    engine.insert(text("b.rs"), text(&function("f")));
    let a = engine.tree("a.rs").unwrap();
    let b = engine.tree("b.rs").unwrap();
    assert!(*a.node(3) == *a.node(3));
    assert!(*a.node(3) != *a.node(4));
    // The same place of another file is another node, though all else is equal.
    assert_eq!(a.node(3).text(), b.node(3).text());
    assert_eq!(a.node(3).byte_range(), b.node(3).byte_range());
    assert!(*a.node(3) != *b.node(3));
}

#[test]
fn the_same_text_gives_the_same_tree() {
    let source = format!("{}\n// note\n{}", function("f"), other_function("g"));
    let language = SupportedLanguage::from_language_id("rust").unwrap();
    let first = language.parse(text("a.rs"), text(&source)).unwrap();
    let second = language.parse(text("b.rs"), text(&source)).unwrap();
    assert_eq!(first.len(), second.len());
    for place in 0..first.len() {
        let (a, b) = (first.node(place), second.node(place));
        assert_eq!(a.kind(), b.kind());
        assert_eq!(a.byte_range(), b.byte_range());
        assert_eq!(a.position_range(), b.position_range());
        assert_eq!(a.children(), b.children());
        assert_eq!(a.first(), b.first());
        assert_eq!(a.query_index(), b.query_index());
        assert_eq!(a.is_extra_or_missing_or_error(), b.is_extra_or_missing_or_error());
        assert_eq!(a.path(), "a.rs");
        assert_eq!(b.path(), "b.rs");
    }
    assert!((0..first.len()).any(|i| first.node(i).query_index().is_some()));
}
