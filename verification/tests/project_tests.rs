use std::path::PathBuf;

use evo::project::{
    add_missing_workspace_sources, choose_app_package, extract_config_attribute, find_manifest,
    select_workspace_manifest,
    underscore, DependencyInfo, ManifestInfo, MetadataInfo, PackageInfo, ProjectError, ProjectInfo,
    SourcePackage, WorkspaceDependency,
};

#[test]
fn extracts_runtime_config_path() {
    let source = r#"#[copper_runtime(config = "config/robot.ron", sim_mode = true)]"#;
    assert_eq!(extract_config_attribute(source), Some("config/robot.ron".to_string()));
}

#[test]
fn config_attributes_without_a_quoted_value_are_skipped() {
    assert_eq!(extract_config_attribute("struct App;"), None);
    assert_eq!(
        extract_config_attribute("// config is below\n#[copper_runtime(config=\"a.ron\")]"),
        Some("a.ron".to_string())
    );
    assert_eq!(extract_config_attribute("#[copper_runtime(config = \"open"), None);
}

fn package(name: &str, requested: bool, member: bool, config: bool, root: bool) -> PackageInfo {
    PackageInfo {
        id: format!("{name} 0.1.0"),
        name: name.to_string(),
        manifest_path: PathBuf::from(format!("/ws/{name}/Cargo.toml")),
        root: Some(PathBuf::from(format!("/ws/{name}"))),
        library: None,
        dependencies: vec![DependencyInfo { name: "serde".to_string(), rename: None, normal: true }],
        is_requested: requested,
        workspace_member: member,
        has_config_file: config,
        is_root: root,
    }
}

#[test]
fn the_application_is_the_requested_package_first() {
    let packages = vec![
        package("root", false, true, false, true),
        package("robot", false, true, true, false),
        package("app", true, true, false, false),
    ];
    assert_eq!(choose_app_package(&packages), Some(2));
    let packages = vec![
        package("root", false, true, false, true),
        package("robot", false, true, true, false),
    ];
    assert_eq!(choose_app_package(&packages), Some(1));
    let packages = vec![package("lib", false, false, false, false), package("root", false, true, false, true)];
    assert_eq!(choose_app_package(&packages), Some(1));
    assert_eq!(choose_app_package(&vec![package("lib", false, false, false, false)]), None);
}

#[test]
fn crate_names_use_underscores() {
    assert_eq!(underscore("robot-tasks"), "robot_tasks");
    assert_eq!(underscore("plain"), "plain");
}

#[test]
fn missing_workspace_dependencies_are_added_once() {
    let mut packages = vec![SourcePackage {
        package_name: "app".to_string(),
        crate_name: "app".to_string(),
        manifest_path: PathBuf::from("/ws/app/Cargo.toml"),
        source_root: PathBuf::from("/ws/app/src"),
        workspace_only: false,
    }];
    let dependencies = vec![
        ("app".to_string(), PathBuf::from("/ws/app")),
        ("robot-tasks".to_string(), PathBuf::from("/ws/tasks")),
    ];
    add_missing_workspace_sources(&mut packages, &dependencies);
    assert_eq!(packages.len(), 2);
    assert_eq!(packages[1].package_name, "robot-tasks");
    assert_eq!(packages[1].crate_name, "robot_tasks");
    assert!(packages[1].workspace_only);
    assert_eq!(packages[1].source_root, PathBuf::from("/ws/tasks/src"));
    assert_eq!(packages[1].manifest_path, PathBuf::from("/ws/tasks/Cargo.toml"));
}

#[test]
fn the_nearest_existing_manifest_is_chosen() {
    let path = PathBuf::from("/ws/app/src");
    let candidates = vec![
        (PathBuf::from("/ws/app/src/Cargo.toml"), false),
        (PathBuf::from("/ws/app/Cargo.toml"), true),
        (PathBuf::from("/ws/Cargo.toml"), true),
    ];
    assert_eq!(find_manifest(&path, &candidates).unwrap(), PathBuf::from("/ws/app/Cargo.toml"));
    let missing = find_manifest(&path, &vec![(PathBuf::from("/ws/app/src/Cargo.toml"), false)]);
    assert!(matches!(missing, Err(ProjectError::ManifestNotFound(p)) if p == path));
}

fn metadata(packages: Vec<PackageInfo>) -> MetadataInfo {
    MetadataInfo { workspace_root: PathBuf::from("/ws"), packages }
}

#[test]
fn metadata_without_an_application_is_refused() {
    let result = ProjectInfo::from_metadata(
        PathBuf::from("/ws"),
        PathBuf::from("/ws/Cargo.toml"),
        metadata(vec![package("lib", false, false, false, false)]),
        Ok(Vec::new()),
    );
    match result {
        Err(ProjectError::Manifest { path, message }) => {
            assert_eq!(path, PathBuf::from("/ws/Cargo.toml"));
            assert_eq!(message, "Cargo metadata did not contain an application package");
        }
        other => panic!("unexpected {other:?}"),
    }
}

#[test]
fn metadata_selects_the_application_its_dependencies_and_workspace_packages() {
    let mut app = package("app", true, true, true, false);
    app.dependencies = vec![
        DependencyInfo { name: "robot-tasks".into(), rename: Some("tasks".into()), normal: true },
        DependencyInfo { name: "criterion".into(), rename: None, normal: false },
    ];
    let tasks = package("robot-tasks", false, true, false, false);
    let unrelated = package("unrelated", false, true, false, false);
    let result = ProjectInfo::from_metadata(
        PathBuf::from("/ws/app"),
        PathBuf::from("/ws/app/Cargo.toml"),
        metadata(vec![app, tasks, unrelated]),
        Ok(vec![("drivers".into(), PathBuf::from("/ws/drivers"))]),
    )
    .unwrap();
    assert_eq!(result.package_name, "app");
    assert_eq!(result.app_manifest, PathBuf::from("/ws/app/Cargo.toml"));
    assert_eq!(result.workspace_manifest, PathBuf::from("/ws/Cargo.toml"));
    assert_eq!(result.direct_dependencies, vec!["tasks".to_string()]);
    let names: Vec<(&str, &str, bool)> = result
        .source_packages
        .iter()
        .map(|p| (p.package_name.as_str(), p.crate_name.as_str(), p.workspace_only))
        .collect();
    assert_eq!(names, vec![("app", "app", false), ("robot-tasks", "tasks", false), ("drivers", "drivers", true)]);

    let failed = ProjectInfo::from_metadata(
        PathBuf::from("/ws/app"),
        PathBuf::from("/ws/app/Cargo.toml"),
        metadata(vec![package("app", true, true, true, false)]),
        Err(ProjectError::ManifestNotFound(PathBuf::from("/ws/Cargo.toml"))),
    );
    assert!(matches!(failed, Err(ProjectError::ManifestNotFound(_))));
}

#[test]
fn manifests_describe_the_project_without_metadata() {
    let app = ManifestInfo {
        package_name: None,
        dependencies: vec!["robot-tasks".into()],
        path_dependencies: vec![("local-lib".into(), "../local-lib".into())],
    };
    let dependencies = vec![
        WorkspaceDependency { name: "robot-tasks".into(), root: PathBuf::from("/ws/tasks"), exists: false },
        WorkspaceDependency { name: "drivers".into(), root: PathBuf::from("/ws/drivers"), exists: true },
        WorkspaceDependency { name: "gone".into(), root: PathBuf::from("/ws/gone"), exists: false },
    ];
    let project = ProjectInfo::from_manifests(
        PathBuf::from("/ws/app"),
        PathBuf::from("/ws/app/Cargo.toml"),
        PathBuf::from("/ws/app"),
        Some("cargo metadata failed".into()),
        app,
        PathBuf::from("/ws/Cargo.toml"),
        Ok(dependencies),
    )
    .unwrap();
    assert_eq!(project.package_name, "copper_app");
    assert_eq!(project.metadata_warning, Some("cargo metadata failed".to_string()));
    let names: Vec<(&str, &str, bool)> = project
        .source_packages
        .iter()
        .map(|p| (p.package_name.as_str(), p.crate_name.as_str(), p.workspace_only))
        .collect();
    assert_eq!(
        names,
        vec![
            ("copper_app", "copper_app", false),
            ("robot-tasks", "robot_tasks", false),
            ("drivers", "drivers", true),
            ("local-lib", "local_lib", false),
        ]
    );
    assert_eq!(project.source_packages[3].source_root, PathBuf::from("/ws/app/../local-lib/src"));
}

#[test]
fn the_outermost_workspace_manifest_is_chosen() {
    let app = PathBuf::from("/ws/apps/robot/Cargo.toml");
    let candidates = vec![
        (PathBuf::from("/ws/apps/robot/Cargo.toml"), Some("[package]\nname = \"robot\"\n".to_string())),
        (PathBuf::from("/ws/apps/Cargo.toml"), Some("[workspace]\nmembers = [\"robot\"]\n".to_string())),
        (PathBuf::from("/ws/Cargo.toml"), Some("[workspace]\nmembers = [\"apps/*\"]\n".to_string())),
        (PathBuf::from("/Cargo.toml"), None),
    ];
    assert_eq!(select_workspace_manifest(&app, &candidates), PathBuf::from("/ws/Cargo.toml"));
    let alone = vec![(PathBuf::from("/ws/apps/robot/Cargo.toml"), Some("[package]".to_string()))];
    assert_eq!(select_workspace_manifest(&app, &alone), app);
}
