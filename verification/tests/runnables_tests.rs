use workspace_configurator::runnables::{
    runnables_for_project, PackageMeta, ProjectMetadata, ProjectSkip, Runnable, RunnableType,
    TargetKind, TargetMeta,
};

fn strings(xs: &[&str]) -> Vec<String> {
    xs.iter().map(|x| x.to_string()).collect()
}

fn target(name: &str, kinds: Vec<TargetKind>, features: &[&str]) -> TargetMeta {
    TargetMeta { name: name.to_string(), kinds, required_features: strings(features) }
}

fn package(name: &str, manifest_path: &[&str], targets: Vec<TargetMeta>) -> PackageMeta {
    PackageMeta { name: name.to_string(), manifest_path: strings(manifest_path), targets }
}

fn names_of(runnables: &[Runnable]) -> Vec<String> {
    runnables.iter().map(|r| r.name.clone()).collect()
}

#[test]
fn single_package_targets_flattened() {
    let meta = ProjectMetadata {
        packages: vec![package(
            "demo",
            &["/", "home", "demo", "Cargo.toml"],
            vec![
                target("main", vec![TargetKind::Bin], &[]),
                target("basic", vec![TargetKind::Example], &["ui"]),
                target("demo", vec![TargetKind::Other], &[]),
            ],
        )],
        has_workspace_members: false,
    };
    let rel = strings(&[]);
    let canon = strings(&["/", "home", "demo"]);
    let found = runnables_for_project(&rel, &canon, &meta).unwrap();
    assert_eq!(names_of(&found), strings(&["demo::main", "demo::basic (example)"]));
    assert_eq!(found[0].package, "demo".to_string());
    assert_eq!(found[0].target, "main".to_string());
    assert_eq!(found[0].runnable_type, RunnableType::Binary);
    assert_eq!(found[1].runnable_type, RunnableType::Example);
    assert_eq!(found[1].required_features, strings(&["ui"]));
    assert_eq!(found[0].project_path, rel);
}

#[test]
fn single_package_without_matching_manifest_skipped() {
    let meta = ProjectMetadata {
        packages: vec![package(
            "demo",
            &["/", "elsewhere", "Cargo.toml"],
            vec![target("main", vec![TargetKind::Bin], &[])],
        )],
        has_workspace_members: false,
    };
    let rel = strings(&[]);
    let canon = strings(&["/", "home", "demo"]);
    assert_eq!(
        runnables_for_project(&rel, &canon, &meta),
        Err(ProjectSkip::NoMatchingPackage)
    );
}

#[test]
fn workspace_members_filtered_by_project_root() {
    let meta = ProjectMetadata {
        packages: vec![
            package(
                "inside",
                &["/", "ws", "inside", "Cargo.toml"],
                vec![target("main", vec![TargetKind::Bin], &[])],
            ),
            package(
                "outside",
                &["/", "other", "Cargo.toml"],
                vec![target("main", vec![TargetKind::Bin], &[])],
            ),
            package(
                "rootpkg",
                &["/", "ws", "Cargo.toml"],
                vec![target("tool", vec![TargetKind::Bin], &[])],
            ),
        ],
        has_workspace_members: true,
    };
    let rel = strings(&["ws"]);
    let canon = strings(&["/", "ws"]);
    let found = runnables_for_project(&rel, &canon, &meta).unwrap();
    assert_eq!(names_of(&found), strings(&["inside::main", "rootpkg::tool"]));
}

#[test]
fn workspace_with_no_member_under_root_skipped() {
    let meta = ProjectMetadata {
        packages: vec![package(
            "outside",
            &["/", "other", "Cargo.toml"],
            vec![target("main", vec![TargetKind::Bin], &[])],
        )],
        has_workspace_members: true,
    };
    let rel = strings(&["ws"]);
    let canon = strings(&["/", "ws"]);
    assert_eq!(runnables_for_project(&rel, &canon, &meta), Err(ProjectSkip::NoPackages));
}

#[test]
fn target_with_both_kinds_yields_two_runnables() {
    let meta = ProjectMetadata {
        packages: vec![package(
            "demo",
            &["/", "demo", "Cargo.toml"],
            vec![target("dual", vec![TargetKind::Bin, TargetKind::Example], &[])],
        )],
        has_workspace_members: false,
    };
    let rel = strings(&[]);
    let canon = strings(&["/", "demo"]);
    let found = runnables_for_project(&rel, &canon, &meta).unwrap();
    assert_eq!(
        names_of(&found),
        strings(&["demo::dual", "demo::dual (example)"])
    );
    assert_eq!(found[0].runnable_type, RunnableType::Binary);
    assert_eq!(found[1].runnable_type, RunnableType::Example);
}

#[test]
fn package_without_runnable_targets_yields_none() {
    let meta = ProjectMetadata {
        packages: vec![package(
            "demo",
            &["/", "demo", "Cargo.toml"],
            vec![target("demo", vec![TargetKind::Other], &[])],
        )],
        has_workspace_members: false,
    };
    let rel = strings(&[]);
    let canon = strings(&["/", "demo"]);
    let found = runnables_for_project(&rel, &canon, &meta).unwrap();
    assert!(found.is_empty());
}

#[test]
fn first_matching_package_selected() {
    let meta = ProjectMetadata {
        packages: vec![
            package(
                "first",
                &["/", "demo", "Cargo.toml"],
                vec![target("a", vec![TargetKind::Bin], &[])],
            ),
            package(
                "second",
                &["/", "demo", "Cargo.toml"],
                vec![target("b", vec![TargetKind::Bin], &[])],
            ),
        ],
        has_workspace_members: false,
    };
    let rel = strings(&[]);
    let canon = strings(&["/", "demo"]);
    let found = runnables_for_project(&rel, &canon, &meta).unwrap();
    assert_eq!(names_of(&found), strings(&["first::a"]));
}
