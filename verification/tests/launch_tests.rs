use workspace_configurator::launch::{generate_launch_config, generate_workspace_launch_config};
use workspace_configurator::runnables::{Runnable, RunnableType};

fn text_vec(xs: &[&str]) -> Vec<String> {
    xs.iter().map(|x| x.to_string()).collect()
}

fn binary(package: &str, target: &str, features: &[&str], project_path: &[&str]) -> Runnable {
    Runnable {
        name: format!("{}::{}", package, target),
        package: package.to_string(),
        target: target.to_string(),
        runnable_type: RunnableType::Binary,
        required_features: text_vec(features),
        project_path: text_vec(project_path),
    }
}

fn example(package: &str, target: &str, features: &[&str], project_path: &[&str]) -> Runnable {
    Runnable {
        name: format!("{}::{} (example)", package, target),
        package: package.to_string(),
        target: target.to_string(),
        runnable_type: RunnableType::Example,
        required_features: text_vec(features),
        project_path: text_vec(project_path),
    }
}

#[test]
fn main_binary_invoked_by_package_only() {
    let configs = generate_launch_config(&vec![binary("demo", "main", &[], &[])]);
    assert_eq!(configs[0].cargo_args, text_vec(&["run", "--package=demo"]));
}

#[test]
fn named_binary_invoked_by_explicit_name() {
    let configs = generate_launch_config(&vec![binary("demo", "server", &[], &[])]);
    assert_eq!(
        configs[0].cargo_args,
        text_vec(&["run", "--bin=server", "--package=demo"])
    );
}

#[test]
fn example_with_required_feature() {
    let configs = generate_launch_config(&vec![example("demo", "basic", &["ui"], &[])]);
    assert_eq!(
        configs[0].cargo_args,
        text_vec(&["run", "--example=basic", "--package=demo", "--features=ui"])
    );
}

#[test]
fn binary_named_after_package_invoked_by_package_only() {
    let configs = generate_launch_config(&vec![binary("demo", "demo", &[], &[])]);
    assert_eq!(configs[0].cargo_args, text_vec(&["run", "--package=demo"]));
}

#[test]
fn features_joined_with_commas() {
    let configs = generate_launch_config(&vec![binary("demo", "server", &["a", "b", "c"], &[])]);
    assert_eq!(
        configs[0].cargo_args,
        text_vec(&["run", "--bin=server", "--package=demo", "--features=a,b,c"])
    );
}

#[test]
fn entry_fixed_fields() {
    let configs = generate_launch_config(&vec![binary("demo", "main", &[], &[])]);
    let c = &configs[0];
    assert_eq!(c.name, "Debug binary 'demo::main'".to_string());
    assert_eq!(c.config_type, "lldb".to_string());
    assert_eq!(c.request, "launch".to_string());
    assert_eq!(c.cwd, "${workspaceFolder}".to_string());
    assert_eq!(c.env_asset_root, c.cwd);
    assert!(c.args.is_empty());
}

#[test]
fn example_entry_name_carries_suffix() {
    let configs = generate_launch_config(&vec![example("demo", "basic", &[], &[])]);
    assert_eq!(configs[0].name, "Debug example 'demo::basic (example)'".to_string());
}

#[test]
fn cwd_points_into_the_project_directory() {
    let configs = generate_launch_config(&vec![binary("demo", "main", &[], &["alpha", "sub"])]);
    assert_eq!(configs[0].cwd, "${workspaceFolder}/alpha/sub".to_string());
    assert_eq!(configs[0].env_asset_root, "${workspaceFolder}/alpha/sub".to_string());
}

#[test]
fn launch_section_has_fixed_version_and_all_entries() {
    let runnables = vec![
        binary("demo", "main", &[], &[]),
        example("demo", "basic", &[], &[]),
    ];
    let section = generate_workspace_launch_config(&runnables);
    assert_eq!(section.version, "0.2.0".to_string());
    assert_eq!(section.configurations.len(), 2);
    assert_eq!(section.configurations[0].name, "Debug binary 'demo::main'".to_string());
    assert_eq!(
        section.configurations[1].name,
        "Debug example 'demo::basic (example)'".to_string()
    );
}
