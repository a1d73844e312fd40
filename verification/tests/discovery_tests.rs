use workspace_configurator::discovery::{
    discover_project_roots, is_skipped_dir_name, DirTree, DiscoveryError,
};

fn dir(name: &str, has_manifest: bool, children: Vec<DirTree>) -> DirTree {
    DirTree { name: name.to_string(), has_manifest, readable: true, children }
}

fn unreadable(name: &str, has_manifest: bool) -> DirTree {
    DirTree { name: name.to_string(), has_manifest, readable: false, children: vec![] }
}

fn paths(entries: &[&[&str]]) -> Vec<Vec<String>> {
    entries.iter().map(|p| p.iter().map(|c| c.to_string()).collect()).collect()
}

#[test]
fn root_with_manifest_is_sole_project() {
    let root = dir("root", true, vec![dir("sub", true, vec![])]);
    let found = discover_project_roots(&root).unwrap();
    assert_eq!(found, paths(&[&[]]));
}

#[test]
fn two_projects_found_in_subdirectories() {
    let root = dir(
        "root",
        false,
        vec![dir("alpha", true, vec![]), dir("beta", true, vec![])],
    );
    let found = discover_project_roots(&root).unwrap();
    assert_eq!(found, paths(&[&["alpha"], &["beta"]]));
}

#[test]
fn no_descent_below_a_manifest_directory() {
    let nested = dir("inner", true, vec![]);
    let root = dir("root", false, vec![dir("outer", true, vec![nested])]);
    let found = discover_project_roots(&root).unwrap();
    assert_eq!(found, paths(&[&["outer"]]));
}

#[test]
fn deeply_nested_project_found() {
    let root = dir(
        "root",
        false,
        vec![dir("a", false, vec![dir("b", false, vec![dir("c", true, vec![])])])],
    );
    let found = discover_project_roots(&root).unwrap();
    assert_eq!(found, paths(&[&["a", "b", "c"]]));
}

#[test]
fn skipped_directories_are_not_scanned() {
    let root = dir(
        "root",
        false,
        vec![
            dir(".git", true, vec![]),
            dir("target", true, vec![]),
            dir("node_modules", true, vec![]),
            dir("src", false, vec![]),
        ],
    );
    assert_eq!(discover_project_roots(&root), Err(DiscoveryError::NotFound));
}

#[test]
fn manifest_inside_skipped_directory_not_discovered() {
    let root = dir(
        "root",
        false,
        vec![dir(".hidden", false, vec![dir("proj", true, vec![])]), dir("ok", true, vec![])],
    );
    let found = discover_project_roots(&root).unwrap();
    assert_eq!(found, paths(&[&["ok"]]));
}

#[test]
fn unreadable_directory_treated_as_empty() {
    let mut blocked = unreadable("blocked", false);
    blocked.children = vec![dir("proj", true, vec![])];
    let root = dir("root", false, vec![blocked]);
    assert_eq!(discover_project_roots(&root), Err(DiscoveryError::NotFound));
}

#[test]
fn manifest_found_in_unreadable_directory() {
    let root = dir("root", false, vec![unreadable("proj", true)]);
    let found = discover_project_roots(&root).unwrap();
    assert_eq!(found, paths(&[&["proj"]]));
}

#[test]
fn empty_tree_reports_not_found() {
    let root = dir("root", false, vec![]);
    assert_eq!(discover_project_roots(&root), Err(DiscoveryError::NotFound));
}

#[test]
fn skip_rules_match_conventions() {
    assert!(is_skipped_dir_name(&".git".to_string()));
    assert!(is_skipped_dir_name(&".config".to_string()));
    assert!(is_skipped_dir_name(&"target".to_string()));
    assert!(is_skipped_dir_name(&"node_modules".to_string()));
    assert!(!is_skipped_dir_name(&"src".to_string()));
    assert!(!is_skipped_dir_name(&"".to_string()));
    assert!(!is_skipped_dir_name(&"targets".to_string()));
    assert!(!is_skipped_dir_name(&"Target".to_string()));
}
