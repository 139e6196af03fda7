use evo::manifest::{read_manifest_info, with_workspace_dependencies, workspace_path_dependencies};
use evo::project::config_file_choice;
use toml_edit::DocumentMut;

#[test]
fn adds_missing_workspace_dependency_without_replacing_manifest() {
    let manifest = "# keep me\n[package]\nname = \"app\"\nversion = \"0.1.0\"\n\n[dependencies]\nserde = \"1\"\n";
    let source = with_workspace_dependencies(manifest, &vec!["robot-tasks".to_string()]).unwrap();
    assert!(source.contains("# keep me"));
    let document = source.parse::<DocumentMut>().unwrap();
    assert_eq!(document["dependencies"]["robot-tasks"]["workspace"].as_bool(), Some(true));
}

#[test]
fn workspace_dependencies_keep_existing_entries_and_add_a_missing_table() {
    let manifest = "[package]\nname = \"app\"\n\n[dependencies]\nserde = \"1\"\n";
    let same = with_workspace_dependencies(manifest, &vec!["serde".to_string()]).unwrap();
    let document = same.parse::<DocumentMut>().unwrap();
    assert_eq!(document["dependencies"]["serde"].as_str(), Some("1"));
    assert_eq!(with_workspace_dependencies(manifest, &Vec::new()).unwrap(), manifest);

    let bare = "[package]\nname = \"app\"\n";
    let added = with_workspace_dependencies(bare, &vec!["a".to_string(), "b".to_string()]).unwrap();
    let document = added.parse::<DocumentMut>().unwrap();
    assert_eq!(document["dependencies"]["a"]["workspace"].as_bool(), Some(true));
    assert_eq!(document["dependencies"]["b"]["workspace"].as_bool(), Some(true));
    assert_eq!(document["package"]["name"].as_str(), Some("app"));
}

#[test]
fn unreadable_manifests_and_odd_dependency_entries_are_refused() {
    assert!(with_workspace_dependencies("[package\n", &vec!["a".to_string()]).is_err());
    assert_eq!(
        with_workspace_dependencies("dependencies = 3\n", &vec!["a".to_string()]),
        Err("`dependencies` in the manifest is not a table".to_string())
    );
}

#[test]
fn workspace_path_dependencies_are_sorted_by_name() {
    let manifest = "[workspace]\nmembers = []\n\n[workspace.dependencies]\nzeta = { path = \"crates/zeta\" }\nserde = \"1\"\nalpha = { path = \"crates/alpha\", version = \"0.1\" }\n";
    assert_eq!(
        workspace_path_dependencies(manifest),
        Ok(vec![
            ("alpha".to_string(), "crates/alpha".to_string()),
            ("zeta".to_string(), "crates/zeta".to_string()),
        ])
    );
    assert_eq!(workspace_path_dependencies("[package]\nname = \"x\"\n"), Ok(Vec::new()));
    assert!(workspace_path_dependencies("= broken").is_err());
}

#[test]
fn manifest_info_reads_name_dependencies_and_paths() {
    let manifest = "[package]\nname = \"robot-app\"\n\n[dependencies]\ncu29 = \"0.4\"\ntasks = { path = \"../tasks\" }\nhw = { path = \"../hw\" }\n";
    let info = read_manifest_info(manifest).unwrap();
    assert_eq!(info.package_name, Some("robot-app".to_string()));
    assert_eq!(info.dependencies, vec!["cu29".to_string(), "tasks".to_string(), "hw".to_string()]);
    assert_eq!(
        info.path_dependencies,
        vec![("tasks".to_string(), "../tasks".to_string()), ("hw".to_string(), "../hw".to_string())]
    );
    let nameless = read_manifest_info("[dependencies]\n").unwrap();
    assert_eq!(nameless.package_name, None);
    assert!(nameless.dependencies.is_empty());
}

#[test]
fn configuration_beside_the_manifest_wins_over_attributes() {
    let sources = vec![
        "fn main() {}".to_string(),
        "#[copper_runtime(config = \"cfg/robot.ron\")]\nstruct App;".to_string(),
        "#[copper_runtime(config = \"other.ron\")]\nstruct B;".to_string(),
    ];
    assert_eq!(config_file_choice(true, &sources), None);
    assert_eq!(config_file_choice(false, &sources), Some("cfg/robot.ron".to_string()));
    assert_eq!(config_file_choice(false, &vec!["fn main() {}".to_string()]), None);
}
