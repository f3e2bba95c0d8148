use std::sync::Arc;

use echolysis::languages::SupportedLanguage;
use echolysis::node::{IndexedNode, Point};
use echolysis::server::debounce::{Change, Debouncer, QUIET_MILLIS};
use echolysis::server::diagnostic::{
    create_duplicate_diagnostic, process_duplicate_group, Severity,
};
use echolysis::server::events::{do_handle_fs_event, filter_map_fs_event_paths, FsEventKind, PathFacts};
use echolysis::server::navigation::{
    copy_location, get_node_location, goto_definition, is_inside, point_to_position,
    related_uris_of_duplicated, same_location, Location, Position, Range,
};
use echolysis::server::router::Router;

fn location(uri: &str, start: (u32, u32), end: (u32, u32)) -> Location {
    Location {
        uri: uri.to_string(),
        range: Range {
            start: Position { line: start.0, character: start.1 },
            end: Position { line: end.0, character: end.1 },
        },
    }
}

fn at(line: u32, character: u32) -> Position {
    Position { line, character }
}

fn ranges(locations: &Vec<Location>) -> Vec<(String, u32)> {
    locations.iter().map(|l| (l.uri.clone(), l.range.start.line)).collect()
}

fn text(s: &str) -> Arc<String> {
    Arc::new(s.to_string())
}

fn parsed_nodes(path: &str, source: &str) -> Vec<Arc<IndexedNode>> {
    let language = SupportedLanguage::from_language_id("rust").unwrap();
    let tree = language.parse(text(path), text(source)).unwrap();
    (0..tree.len()).map(|i| tree.node(i)).collect()
}

fn facts(path: &str, is_file: bool, vcs_ignored: bool, known: bool) -> PathFacts {
    PathFacts { path: path.to_string(), is_file, vcs_ignored, known }
}

#[test]
fn points_become_positions() {
    assert_eq!(point_to_position(&Point { row: 3, column: 14 }), at(3, 14));
    assert_eq!(point_to_position(&Point { row: 0, column: 0 }), at(0, 0));
}

#[test]
fn oversized_points_are_cut_to_32_bits() {
    let wide = Point { row: (1usize << 32) + 5, column: (7usize << 32) + 9 };
    assert_eq!(point_to_position(&wide), at(5, 9));
}

#[test]
fn a_node_is_located_by_the_uri_of_its_file() {
    let nodes = parsed_nodes("/work/src/a.rs", "\nfn f() {\n}\n");
    let function = nodes.iter().find(|n| n.kind() == "function_item").unwrap();
    let found = get_node_location(function).unwrap();
    assert_eq!(found.uri, "file:///work/src/a.rs");
    assert_eq!(found.range.start, at(1, 0));
    assert_eq!(found.range.end, at(2, 1));
}

#[test]
fn a_node_of_a_relative_path_has_no_location() {
    let nodes = parsed_nodes("src/a.rs", "fn f() {}");
    assert!(get_node_location(&nodes[0]).is_none());
}

#[test]
fn a_position_is_inside_a_range_up_to_its_borders() {
    let l = location("file:///a.rs", (2, 4), (5, 1));
    assert!(is_inside(&l, "file:///a.rs", &at(2, 4)));
    assert!(is_inside(&l, "file:///a.rs", &at(2, 90)));
    assert!(is_inside(&l, "file:///a.rs", &at(3, 0)));
    assert!(is_inside(&l, "file:///a.rs", &at(5, 0)));
    assert!(is_inside(&l, "file:///a.rs", &at(5, 1)));
    assert!(!is_inside(&l, "file:///a.rs", &at(2, 3)));
    assert!(!is_inside(&l, "file:///a.rs", &at(5, 2)));
    assert!(!is_inside(&l, "file:///a.rs", &at(1, 10)));
    assert!(!is_inside(&l, "file:///a.rs", &at(6, 0)));
    assert!(!is_inside(&l, "file:///b.rs", &at(3, 0)));
    let one_line = location("file:///a.rs", (4, 2), (4, 6));
    assert!(is_inside(&one_line, "file:///a.rs", &at(4, 2)));
    assert!(is_inside(&one_line, "file:///a.rs", &at(4, 6)));
    assert!(!is_inside(&one_line, "file:///a.rs", &at(4, 1)));
    assert!(!is_inside(&one_line, "file:///a.rs", &at(4, 7)));
}

#[test]
fn locations_are_compared_and_copied_by_value() {
    let l = location("file:///a.rs", (2, 4), (5, 1));
    assert!(same_location(&l, &copy_location(&l)));
    assert!(!same_location(&l, &location("file:///b.rs", (2, 4), (5, 1))));
    assert!(!same_location(&l, &location("file:///a.rs", (2, 4), (5, 2))));
    assert!(!same_location(&l, &location("file:///a.rs", (2, 5), (5, 1))));
}

#[test]
fn a_definition_request_leads_to_the_other_clones() {
    let groups = vec![
        vec![location("file:///a.rs", (0, 0), (3, 1)), location("file:///b.rs", (10, 0), (13, 1))],
        vec![
            location("file:///a.rs", (20, 0), (29, 1)),
            location("file:///c.rs", (1, 0), (10, 1)),
            location("file:///a.rs", (40, 0), (49, 1)),
        ],
    ];
    let found = goto_definition(&groups, "file:///a.rs", &at(41, 3)).unwrap();
    assert_eq!(
        ranges(&found),
        vec![("file:///a.rs".to_string(), 20), ("file:///c.rs".to_string(), 1)]
    );
    let found = goto_definition(&groups, "file:///b.rs", &at(11, 0)).unwrap();
    assert_eq!(ranges(&found), vec![("file:///a.rs".to_string(), 0)]);
    assert!(goto_definition(&groups, "file:///a.rs", &at(5, 0)).is_none());
    assert!(goto_definition(&groups, "file:///d.rs", &at(1, 0)).is_none());
    assert!(goto_definition(&Vec::new(), "file:///a.rs", &at(1, 0)).is_none());
}

#[test]
fn the_first_group_around_a_position_decides() {
    let same = location("file:///a.rs", (0, 0), (3, 1));
    let groups = vec![
        // Nothing else is in this group, so there is no answer, though a
        // later group has one.
        vec![copy_location(&same), copy_location(&same)],
        vec![copy_location(&same), location("file:///b.rs", (7, 0), (9, 1))],
    ];
    assert!(goto_definition(&groups, "file:///a.rs", &at(1, 0)).is_none());
    let groups = vec![
        vec![location("file:///a.rs", (0, 0), (9, 1)), location("file:///b.rs", (0, 0), (9, 1))],
        vec![location("file:///a.rs", (2, 0), (3, 1)), location("file:///c.rs", (2, 0), (3, 1))],
    ];
    let found = goto_definition(&groups, "file:///a.rs", &at(2, 5)).unwrap();
    assert_eq!(ranges(&found), vec![("file:///b.rs".to_string(), 0)]);
}

#[test]
fn the_documents_of_a_group_are_found_by_one_of_them() {
    let groups = vec![
        vec![location("file:///a.rs", (0, 0), (3, 1)), location("file:///b.rs", (10, 0), (13, 1))],
        vec![
            location("file:///c.rs", (20, 0), (29, 1)),
            location("file:///b.rs", (1, 0), (10, 1)),
            location("file:///c.rs", (40, 0), (49, 1)),
        ],
    ];
    let uris = vec!["file:///x.rs".to_string(), "file:///c.rs".to_string()];
    assert_eq!(
        related_uris_of_duplicated(&groups, &uris),
        Some(vec![
            "file:///c.rs".to_string(),
            "file:///b.rs".to_string(),
            "file:///c.rs".to_string()
        ])
    );
    let uris = vec!["file:///b.rs".to_string()];
    assert_eq!(
        related_uris_of_duplicated(&groups, &uris),
        Some(vec!["file:///a.rs".to_string(), "file:///b.rs".to_string()])
    );
    assert_eq!(related_uris_of_duplicated(&groups, &vec!["file:///x.rs".to_string()]), None);
    assert_eq!(related_uris_of_duplicated(&groups, &Vec::new()), None);
}

#[test]
fn a_diagnostic_points_to_the_clones_of_its_group() {
    let here = location("file:///a.rs", (2, 4), (5, 1));
    let others = vec![copy_location(&here), location("file:///b.rs", (10, 0), (10, 30))];
    let diagnostic = create_duplicate_diagnostic(&here, &others);
    assert_eq!(diagnostic.range, here.range);
    assert_eq!(diagnostic.severity, Severity::Information);
    assert_eq!(diagnostic.source, "echolysis");
    assert_eq!(diagnostic.message, "Duplicated code fragments found\n");
    assert_eq!(diagnostic.related_information.len(), 2);
    assert!(same_location(&diagnostic.related_information[0].location, &here));
    assert_eq!(
        diagnostic.related_information[0].message,
        "Similar code fragment (line 3) 4 lines long"
    );
    assert!(same_location(&diagnostic.related_information[1].location, &others[1]));
    assert_eq!(
        diagnostic.related_information[1].message,
        "Similar code fragment (line 11) 1 lines long"
    );
}

#[test]
fn a_group_is_reported_with_one_diagnostic_for_each_member() {
    let a = parsed_nodes("/work/a.rs", "fn f() {\n}\n");
    let b = parsed_nodes("/work/b.rs", "\n\nfn f() {\n}\n");
    let c = parsed_nodes("/work/c.rs", "\n\n\n\nfn f() {\n}\n");
    let relative = parsed_nodes("c.rs", "fn f() {\n}\n");
    let pick = |nodes: &Vec<Arc<IndexedNode>>| {
        nodes.iter().find(|n| n.kind() == "function_item").unwrap().clone()
    };
    let group = vec![pick(&a), pick(&relative), pick(&b), pick(&c)];
    let report = process_duplicate_group(&group);
    assert_eq!(
        ranges(&report.locations),
        vec![
            ("file:///work/a.rs".to_string(), 0),
            ("file:///work/b.rs".to_string(), 2),
            ("file:///work/c.rs".to_string(), 4)
        ]
    );
    assert_eq!(report.diagnostics.len(), 3);
    for (i, entry) in report.diagnostics.iter().enumerate() {
        assert_eq!(entry.uri, report.locations[i].uri);
        assert_eq!(entry.diagnostic.range, report.locations[i].range);
        assert_eq!(entry.diagnostic.source, "echolysis");
        // The other members, in their order, and not the member itself.
        let related: Vec<&str> = entry
            .diagnostic
            .related_information
            .iter()
            .map(|r| r.location.uri.as_str())
            .collect();
        let others: Vec<&str> = report
            .locations
            .iter()
            .enumerate()
            .filter(|(j, _)| *j != i)
            .map(|(_, l)| l.uri.as_str())
            .collect();
        assert_eq!(related, others);
        assert_eq!(related.len(), 2);
    }
    assert_eq!(
        report.diagnostics[0].diagnostic.related_information[0].message,
        "Similar code fragment (line 3) 2 lines long"
    );
    assert_eq!(
        report.diagnostics[2].diagnostic.related_information[0].message,
        "Similar code fragment (line 1) 2 lines long"
    );
}

#[test]
fn paths_of_an_event_concern_the_server_if_they_are_files_or_known() {
    let paths = vec![
        facts("/work/a.rs", true, false, false),
        facts("/work/gone.rs", false, false, true),
        facts("/work/gone_unknown.rs", false, false, false),
        facts("/work/ignored.rs", true, true, true),
        facts("/work/a.go", true, false, true),
        facts("/work/target/b.rs", true, false, false),
        facts("relative.rs", true, false, false),
        facts("/work/b.py", true, false, true),
    ];
    assert_eq!(
        filter_map_fs_event_paths(&paths),
        vec![
            "file:///work/a.rs".to_string(),
            "file:///work/gone.rs".to_string(),
            "file:///work/b.py".to_string()
        ]
    );
}

#[test]
fn events_lead_to_insertion_or_removal() {
    let paths = vec![facts("/work/a.rs", true, false, false), facts("/work/b.rs", true, false, true)];
    let both = vec!["file:///work/a.rs".to_string(), "file:///work/b.rs".to_string()];
    for kind in [
        FsEventKind::Create,
        FsEventKind::DataChanged,
        FsEventKind::WriteTimeChanged,
        FsEventKind::RenamedTo,
    ] {
        let plan = do_handle_fs_event(kind, &paths);
        assert!(plan.remove.is_empty());
        assert_eq!(plan.insert, both);
    }
    for kind in [FsEventKind::Remove, FsEventKind::RenamedFrom] {
        let plan = do_handle_fs_event(kind, &paths);
        assert_eq!(plan.remove, both);
        assert!(plan.insert.is_empty());
    }
    let plan = do_handle_fs_event(FsEventKind::Other, &paths);
    assert!(plan.remove.is_empty() && plan.insert.is_empty());
}

#[test]
fn a_renaming_removes_the_old_name_and_inserts_the_new() {
    let paths = vec![facts("/work/old.rs", false, false, true), facts("/work/new.rs", true, false, false)];
    let plan = do_handle_fs_event(FsEventKind::RenamedBoth, &paths);
    assert_eq!(plan.remove, vec!["file:///work/old.rs".to_string()]);
    assert_eq!(plan.insert, vec!["file:///work/new.rs".to_string()]);

    let paths = vec![facts("/work/old.go", false, false, false), facts("/work/new.rs", true, false, false)];
    let plan = do_handle_fs_event(FsEventKind::RenamedBoth, &paths);
    assert!(plan.remove.is_empty());
    assert_eq!(plan.insert, vec!["file:///work/new.rs".to_string()]);

    // Anything but two paths is no renaming that the server follows.
    let paths = vec![facts("/work/old.rs", true, false, true)];
    let plan = do_handle_fs_event(FsEventKind::RenamedBoth, &paths);
    assert!(plan.remove.is_empty() && plan.insert.is_empty());
    let paths = vec![
        facts("/work/a.rs", true, false, true),
        facts("/work/b.rs", true, false, true),
        facts("/work/c.rs", true, false, true),
    ];
    let plan = do_handle_fs_event(FsEventKind::RenamedBoth, &paths);
    assert!(plan.remove.is_empty() && plan.insert.is_empty());
}

fn change(uri: &str, body: &str) -> Change {
    Change { uri: uri.to_string(), text: body.to_string() }
}

#[test]
fn a_change_is_held_until_the_editor_is_quiet() {
    assert_eq!(QUIET_MILLIS, 500);
    let mut debouncer = Debouncer::new();
    assert!(debouncer.wake(10_000).is_none());
    assert!(debouncer.did_change(change("file:///a.rs", "one")).is_none());
    assert!(debouncer.wake(0).is_none());
    assert!(debouncer.wake(499).is_none());
    let through = debouncer.wake(500).unwrap();
    assert_eq!(through.uri, "file:///a.rs");
    assert_eq!(through.text, "one");
    assert!(debouncer.wake(1000).is_none());
}

#[test]
fn a_newer_change_of_the_same_document_overrules() {
    let mut debouncer = Debouncer::new();
    assert!(debouncer.did_change(change("file:///a.rs", "one")).is_none());
    assert!(debouncer.did_change(change("file:///a.rs", "two")).is_none());
    let through = debouncer.wake(501).unwrap();
    assert_eq!(through.text, "two");
}

#[test]
fn a_change_of_another_document_lets_the_held_one_through() {
    let mut debouncer = Debouncer::new();
    assert!(debouncer.did_change(change("file:///a.rs", "one")).is_none());
    let through = debouncer.did_change(change("file:///b.rs", "two")).unwrap();
    assert_eq!(through.uri, "file:///a.rs");
    assert_eq!(through.text, "one");
    let through = debouncer.wake(600).unwrap();
    assert_eq!(through.uri, "file:///b.rs");
}

const BODY: &str = "
fn compute(values: &[i32]) -> i32 {
    let mut total = 0;
    for value in values {
        if *value > 10 {
            total += value * 2;
        } else if *value < 0 {
            total -= value;
        } else {
            total += 1;
        }
    }
    while total > 100 {
        total = total / 2;
    }
    total
}
";

#[test]
fn a_router_makes_engines_on_demand() {
    let mut router = Router::new();
    assert!(router.engines().is_empty());
    assert!(router.get_engine_by_language_id("go").is_none());
    assert!(router.get_engine_by_language_id("").is_none());
    assert!(router.engines().is_empty());
    assert_eq!(router.get_engine_by_language_id("rust"), Some("rust"));
    // The router holds the engine from its first use on.
    assert_eq!(router.engines(), vec!["rust".to_string()]);
    assert_eq!(router.get_engine_by_language_id("rust"), Some("rust"));
    assert_eq!(router.engines(), vec!["rust".to_string()]);
}

#[test]
fn a_router_keeps_the_state_of_its_engines() {
    let mut router = Router::new();
    assert_eq!(router.get_engine_by_path("/work/a.rs", true), Some("rust"));
    let sources = vec![(text("/work/a.rs"), text(BODY)), (text("/work/b.rs"), text(BODY))];
    assert!(router.insert_many("rust", sources));
    // Asking for the engine again leaves what it holds.
    assert_eq!(router.get_engine_by_language_id("rust"), Some("rust"));
    assert_eq!(router.collect_duplicates(None).len(), 1);
    assert!(router.get_engine_by_path("/work/a.rs", false).is_none());
    assert!(router.get_engine_by_path("/work/a.txt", true).is_none());
    assert_eq!(router.get_engine_by_path("/work/a.py", true), Some("python"));
    let mut ids = router.engines();
    ids.sort();
    assert_eq!(ids, vec!["python".to_string(), "rust".to_string()]);
    assert_eq!(router.collect_duplicates(None).len(), 1);
    router.remove_engine("python");
    assert_eq!(router.engines(), vec!["rust".to_string()]);
    router.clear();
    assert!(router.engines().is_empty());
    assert_eq!(router.get_engine_by_language_id("rust"), Some("rust"));
    assert!(router.collect_duplicates(None).is_empty());
}

#[test]
fn a_router_feeds_and_asks_all_engines() {
    let mut router = Router::new();
    let sources = vec![(text("/work/a.rs"), text(BODY)), (text("/work/b.rs"), text(BODY))];
    assert!(!router.insert_many("go", sources.clone()));
    assert!(router.engines().is_empty());
    assert!(router.collect_duplicates(Some(100)).is_empty());
    assert!(router.insert_many("rust", sources));
    let python = "
def compute(values):
    total = 0
    for value in values:
        if value > 10:
            total += value * 2
        elif value < 0:
            total -= value
        else:
            total += 1
    while total > 100:
        total = total / 2
    print(total)
    print(values)
    return total
";
    assert!(router.insert_many(
        "python",
        vec![(text("/work/a.py"), text(python)), (text("/work/b.py"), text(python))]
    ));
    let groups = router.collect_duplicates(Some(100));
    assert_eq!(groups.len(), 2);
    assert!(groups.iter().all(|group| group.len() == 2));
    // The cap holds for each engine.
    assert_eq!(router.collect_duplicates(Some(1)).len(), 2);
    assert!(router.collect_duplicates(Some(0)).is_empty());
    assert!(!router.remove_many("go", &vec!["/work/a.rs".to_string()]));
    assert!(router.remove_many("rust", &vec!["/work/a.rs".to_string()]));
    assert_eq!(router.collect_duplicates(None).len(), 1);
    assert!(router.remove_many("python", &vec!["/work/b.py".to_string()]));
    assert!(router.collect_duplicates(None).is_empty());
    let mut ids = router.engines();
    ids.sort();
    assert_eq!(ids, vec!["python".to_string(), "rust".to_string()]);
}

#[test]
fn removing_from_a_language_without_an_engine_makes_the_engine() {
    let mut router = Router::new();
    assert!(router.remove_many("rust", &vec!["/work/a.rs".to_string()]));
    assert_eq!(router.engines(), vec!["rust".to_string()]);
    assert!(router.collect_duplicates(None).is_empty());
}
