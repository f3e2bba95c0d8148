use echolysis::workspace::{
    has_ignored_component, should_ignore, EntryAction, EntryFacts, FolderScan, MAX_FILE_COUNT,
};

fn entry(path: &str, is_dir: bool, is_file: bool, vcs_ignored: bool) -> EntryFacts {
    EntryFacts { path: path.to_string(), is_dir, is_file, vcs_ignored }
}

#[test]
fn ignored_directories_are_found_among_the_components() {
    assert!(has_ignored_component("/work/node_modules/pkg/index.js"));
    assert!(has_ignored_component("/work/target/debug/build.rs"));
    assert!(has_ignored_component("venv/lib/site.py"));
    assert!(has_ignored_component("/work/target"));
    assert!(!has_ignored_component("/work/targets/a.rs"));
    assert!(!has_ignored_component("/work/src/target.rs"));
    assert!(!has_ignored_component("/work/my_venv/a.py"));
    assert!(!has_ignored_component(""));
}

#[test]
fn files_of_unsupported_languages_are_passed_over() {
    assert!(!should_ignore("/work/src/main.rs", true, false));
    assert!(!should_ignore("/work/src/tool.py", true, false));
    assert!(should_ignore("/work/src/main.go", true, false));
    assert!(should_ignore("/work/README", true, false));
    // What is no file is kept, so that directories are entered.
    assert!(!should_ignore("/work/src", false, false));
    assert!(!should_ignore("/work/src/main.go", false, false));
}

#[test]
fn what_the_version_control_ignores_is_passed_over() {
    assert!(should_ignore("/work/src/main.rs", true, true));
    assert!(should_ignore("/work/src", false, true));
}

#[test]
fn ignored_directories_are_passed_over() {
    assert!(should_ignore("/work/target/main.rs", true, false));
    assert!(should_ignore("/work/node_modules", false, false));
    assert!(should_ignore("/work/venv/lib/a.py", true, false));
}

#[test]
fn a_scan_takes_files_and_enters_directories() {
    let mut scan = FolderScan::new("/work".to_string());
    assert_eq!(scan.next_dir(), Some("/work".to_string()));
    assert_eq!(scan.offer(entry("/work/a.rs", false, true, false)), EntryAction::Take);
    assert_eq!(scan.offer(entry("/work/src", true, false, false)), EntryAction::Enter);
    assert_eq!(scan.offer(entry("/work/lib", true, false, false)), EntryAction::Enter);
    assert_eq!(scan.offer(entry("/work/a.go", false, true, false)), EntryAction::Skip);
    assert_eq!(scan.offer(entry("/work/target", true, false, false)), EntryAction::Skip);
    assert_eq!(scan.offer(entry("/work/b.rs", false, true, true)), EntryAction::Skip);
    assert_eq!(scan.offer(entry("/work/socket", false, false, false)), EntryAction::Skip);
    // The directory that was kept last is read first.
    assert_eq!(scan.next_dir(), Some("/work/lib".to_string()));
    assert_eq!(scan.offer(entry("/work/lib/b.py", false, true, false)), EntryAction::Take);
    assert_eq!(scan.next_dir(), Some("/work/src".to_string()));
    assert_eq!(scan.next_dir(), None);
    assert_eq!(scan.into_files(), vec!["/work/a.rs".to_string(), "/work/lib/b.py".to_string()]);
}

#[test]
fn a_scan_stops_at_the_cap() {
    assert_eq!(MAX_FILE_COUNT, 10000);
    let mut scan = FolderScan::new("/work".to_string());
    scan.offer(entry("/work/deep", true, false, false));
    for i in 0..MAX_FILE_COUNT {
        let path = format!("/work/{}.rs", i);
        assert_eq!(scan.offer(entry(&path, false, true, false)), EntryAction::Take);
    }
    assert_eq!(scan.offer(entry("/work/more.rs", false, true, false)), EntryAction::Skip);
    assert_eq!(scan.offer(entry("/work/more", true, false, false)), EntryAction::Skip);
    assert_eq!(scan.next_dir(), None);
    assert_eq!(scan.into_files().len(), MAX_FILE_COUNT);
}
