use workspace_configurator::launch::generate_workspace_launch_config;
use workspace_configurator::runnables::{Runnable, RunnableType};
use workspace_configurator::text::{join_strings, u64_to_string};
use workspace_configurator::workspace::{
    backup_file_name, empty_workspace_file, generate_workspace_filename, generate_workspace_name,
    sorted_distinct_paths, update_workspace_file, WorkspaceFile,
};

fn words(xs: &[&str]) -> Vec<String> {
    xs.iter().map(|x| x.to_string()).collect()
}

fn word_paths(entries: &[&[&str]]) -> Vec<Vec<String>> {
    entries.iter().map(|p| p.iter().map(|c| c.to_string()).collect()).collect()
}

fn project_binary(package: &str, target: &str, project_path: &[&str]) -> Runnable {
    Runnable {
        name: format!("{}::{}", package, target),
        package: package.to_string(),
        target: target.to_string(),
        runnable_type: RunnableType::Binary,
        required_features: vec![],
        project_path: words(project_path),
    }
}

#[test]
fn name_for_single_subdirectory_project_uses_root_name() {
    let name = generate_workspace_name(&Some("ws".to_string()), &word_paths(&[&["alpha"]]));
    assert_eq!(name, Some("ws (Rust)".to_string()));
}

#[test]
fn name_for_single_root_project_uses_root_name() {
    let name = generate_workspace_name(&Some("myroot".to_string()), &word_paths(&[&[]]));
    assert_eq!(name, Some("myroot (Rust)".to_string()));
}

#[test]
fn name_for_multiple_projects_counts_them() {
    let name = generate_workspace_name(&Some("ws".to_string()), &word_paths(&[&["a"], &["b"]]));
    assert_eq!(name, Some("ws (2 Rust Projects)".to_string()));
}

#[test]
fn name_absent_without_meaningful_root_name() {
    assert_eq!(generate_workspace_name(&None, &word_paths(&[&["a"], &["b"]])), None);
    assert_eq!(generate_workspace_name(&None, &word_paths(&[&[]])), None);
}

#[test]
fn name_absent_for_single_project_without_root_name() {
    assert_eq!(generate_workspace_name(&None, &word_paths(&[&["alpha"]])), None);
}

#[test]
fn filename_from_root_directory_name() {
    assert_eq!(
        generate_workspace_filename(&Some("ws".to_string())),
        "ws.code-workspace".to_string()
    );
}

#[test]
fn filename_fallback_without_root_name() {
    assert_eq!(generate_workspace_filename(&None), "rust-projects.code-workspace".to_string());
}

#[test]
fn backup_names_never_collide_with_earlier_ones() {
    assert_eq!(
        backup_file_name("ws.code-workspace", 0),
        "ws.code-workspace.backup".to_string()
    );
    assert_eq!(
        backup_file_name("ws.code-workspace", 1),
        "ws.code-workspace.backup.1".to_string()
    );
    assert_eq!(
        backup_file_name("ws.code-workspace", 12),
        "ws.code-workspace.backup.12".to_string()
    );
}

#[test]
fn project_paths_sorted_and_deduplicated() {
    let input = word_paths(&[&["beta"], &["alpha"], &["beta"], &["alpha", "x"]]);
    let sorted = sorted_distinct_paths(&input);
    assert_eq!(sorted, word_paths(&[&["alpha"], &["alpha", "x"], &["beta"]]));
}

#[test]
fn update_preserves_settings_and_replaces_launch() {
    let runnables = vec![project_binary("alpha", "main", &["alpha"])];
    let launch = generate_workspace_launch_config(&runnables);
    let mut file = empty_workspace_file();
    file.settings = Some("{\"editor\":\"on\"}".to_string());
    file.launch = None;
    update_workspace_file(&mut file, &runnables, &Some("ws".to_string()), launch.clone());
    assert_eq!(file.settings, Some("{\"editor\":\"on\"}".to_string()));
    assert_eq!(file.launch, Some(launch));
    assert_eq!(file.folders, words(&["./alpha"]));
    assert_eq!(file.name, Some("ws (Rust)".to_string()));
}

#[test]
fn update_drops_null_and_empty_placeholders() {
    let runnables = vec![project_binary("alpha", "main", &["alpha"])];
    let launch = generate_workspace_launch_config(&runnables);
    let mut file = empty_workspace_file();
    file.settings = Some("{}".to_string());
    file.tasks = Some("null".to_string());
    file.extensions = Some("{}".to_string());
    update_workspace_file(&mut file, &runnables, &Some("ws".to_string()), launch);
    assert_eq!(file.settings, None);
    assert_eq!(file.tasks, None);
    assert_eq!(file.extensions, None);
}

#[test]
fn update_drops_null_settings_and_empty_tasks() {
    let runnables = vec![project_binary("alpha", "main", &["alpha"])];
    let launch = generate_workspace_launch_config(&runnables);
    let mut file = empty_workspace_file();
    file.settings = Some("null".to_string());
    file.tasks = Some("{}".to_string());
    file.extensions = Some("null".to_string());
    update_workspace_file(&mut file, &runnables, &Some("ws".to_string()), launch);
    assert_eq!(file.settings, None);
    assert_eq!(file.tasks, None);
    assert_eq!(file.extensions, None);
}

#[test]
fn update_keeps_meaningful_extensions() {
    let runnables = vec![project_binary("alpha", "main", &["alpha"])];
    let launch = generate_workspace_launch_config(&runnables);
    let mut file = empty_workspace_file();
    file.extensions = Some("{\"recommendations\":[\"x\"]}".to_string());
    update_workspace_file(&mut file, &runnables, &Some("ws".to_string()), launch);
    assert_eq!(file.extensions, Some("{\"recommendations\":[\"x\"]}".to_string()));
}

#[test]
fn update_from_empty_document_yields_fresh_sections() {
    let runnables = vec![project_binary("alpha", "main", &["alpha"])];
    let launch = generate_workspace_launch_config(&runnables);
    let mut file = empty_workspace_file();
    update_workspace_file(&mut file, &runnables, &Some("ws".to_string()), launch.clone());
    assert_eq!(file.settings, None);
    assert_eq!(file.tasks, None);
    assert_eq!(file.extensions, None);
    assert_eq!(file.folders, words(&["./alpha"]));
    assert_eq!(file.launch, Some(launch));
}

#[test]
fn update_twice_yields_identical_document() {
    let runnables = vec![
        project_binary("beta", "main", &["beta"]),
        project_binary("alpha", "main", &["alpha"]),
    ];
    let root_name = Some("ws".to_string());
    let mut first = empty_workspace_file();
    first.settings = Some("{\"editor\":\"on\"}".to_string());
    first.tasks = Some("null".to_string());
    update_workspace_file(
        &mut first,
        &runnables,
        &root_name,
        generate_workspace_launch_config(&runnables),
    );
    let mut second = first.clone();
    update_workspace_file(
        &mut second,
        &runnables,
        &root_name,
        generate_workspace_launch_config(&runnables),
    );
    assert_eq!(first, second);
}

#[test]
fn two_projects_yield_sorted_folders_and_prefixed_names() {
    let runnables = vec![
        project_binary("beta", "main", &["beta"]),
        project_binary("alpha", "main", &["alpha"]),
    ];
    let launch = generate_workspace_launch_config(&runnables);
    assert_eq!(launch.configurations[0].name, "Debug binary 'beta::main'".to_string());
    assert_eq!(launch.configurations[1].name, "Debug binary 'alpha::main'".to_string());
    let mut file = empty_workspace_file();
    update_workspace_file(&mut file, &runnables, &Some("ws".to_string()), launch);
    assert_eq!(file.folders, words(&["./alpha", "./beta"]));
    assert_eq!(file.name, Some("ws (2 Rust Projects)".to_string()));
}

#[test]
fn folders_fall_back_to_current_directory() {
    let runnables: Vec<Runnable> = vec![];
    let launch = generate_workspace_launch_config(&runnables);
    let mut file = empty_workspace_file();
    update_workspace_file(&mut file, &runnables, &Some("ws".to_string()), launch);
    assert_eq!(file.folders, words(&["."]));
}

#[test]
fn root_project_folder_is_current_directory() {
    let runnables = vec![project_binary("demo", "main", &[])];
    let launch = generate_workspace_launch_config(&runnables);
    let mut file = empty_workspace_file();
    update_workspace_file(&mut file, &runnables, &Some("demo".to_string()), launch);
    assert_eq!(file.folders, words(&["."]));
    assert_eq!(file.name, Some("demo (Rust)".to_string()));
}

#[test]
fn duplicate_project_paths_collapse_to_one_folder() {
    let runnables = vec![
        project_binary("alpha", "main", &["alpha"]),
        project_binary("alpha", "tool", &["alpha"]),
    ];
    let launch = generate_workspace_launch_config(&runnables);
    assert_eq!(launch.configurations.len(), 2);
    let mut file = empty_workspace_file();
    update_workspace_file(&mut file, &runnables, &Some("ws".to_string()), launch);
    assert_eq!(file.folders, words(&["./alpha"]));
    assert_eq!(file.name, Some("ws (Rust)".to_string()));
}

#[test]
fn decimal_rendering() {
    assert_eq!(u64_to_string(0), "0".to_string());
    assert_eq!(u64_to_string(7), "7".to_string());
    assert_eq!(u64_to_string(42), "42".to_string());
    assert_eq!(u64_to_string(1234567890), "1234567890".to_string());
}

#[test]
fn joining_strings() {
    assert_eq!(join_strings(&words(&[]), ","), "".to_string());
    assert_eq!(join_strings(&words(&["a"]), ","), "a".to_string());
    assert_eq!(join_strings(&words(&["a", "b", "c"]), ","), "a,b,c".to_string());
    assert_eq!(join_strings(&words(&["x", "y"]), "/"), "x/y".to_string());
}
