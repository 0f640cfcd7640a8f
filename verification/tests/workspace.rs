use shipwright::config::{BuildConfig, HotReloadConfig};
use shipwright::workspace::{detect_target_package, sort_dedup_paths, PackageInfo, TargetInfo, Workspace};

fn package(id: &str, name: &str, dir: &str, targets: Vec<TargetInfo>, deps: Vec<&str>) -> PackageInfo {
    PackageInfo {
        id: id.to_string(),
        name: name.to_string(),
        manifest_dir: dir.to_string(),
        targets,
        dependencies: deps.into_iter().map(|d| d.to_string()).collect(),
        has_src_dir: true,
        has_assets_dir: false,
    }
}

fn target(name: &str, kind: &str, src: &str) -> TargetInfo {
    TargetInfo { name: name.to_string(), kind: vec![kind.to_string()], src_path: src.to_string() }
}

/// The workspace of two members: `app` with a binary, depending on
/// `shared`, a library; and `serde` outside the workspace.
fn test_workspace(cwd: &str) -> Workspace {
    let packages = vec![
        package("app 0.1.0", "app", "/ws/app", vec![target("app", "bin", "/ws/app/src/main.rs")], vec!["shared"]),
        package("shared 0.1.0", "shared", "/ws/shared", vec![target("shared", "lib", "/ws/shared/src/lib.rs")], vec![]),
        package("serde 1.0.0", "serde", "/registry/serde", vec![target("serde", "lib", "/registry/serde/src/lib.rs")], vec![]),
    ];
    Workspace::from_metadata(
        "/ws".to_string(),
        vec!["app 0.1.0".to_string(), "shared 0.1.0".to_string()],
        packages,
        cwd,
    )
}

fn hot_reload(watch: Option<Vec<&str>>, ignore: Option<Vec<&str>>) -> HotReloadConfig {
    HotReloadConfig {
        enabled: None,
        watch_paths: watch.map(|w| w.into_iter().map(|p| p.to_string()).collect()),
        ignore_paths: ignore.map(|w| w.into_iter().map(|p| p.to_string()).collect()),
        poll_interval: None,
        debounce_ms: None,
        reload_css: None,
        reload_js: None,
    }
}

#[test]
fn test_workspace_detection() {
    let workspace = test_workspace("/ws");

    assert!(workspace.is_workspace);
    assert_eq!(workspace.members.len(), 2);
    assert!(workspace.contains_package("app"));
    assert!(workspace.contains_package("shared"));
}

#[test]
fn test_binary_targets() {
    let workspace = test_workspace("/ws");

    let binaries = workspace.get_binary_targets();
    assert_eq!(binaries.len(), 1);
    assert_eq!(binaries[0].0, "app::app");
}

#[test]
fn test_library_targets() {
    let workspace = test_workspace("/ws");

    let libraries = workspace.get_library_targets();
    assert_eq!(libraries.len(), 1);
    assert_eq!(libraries[0].0, "shared");
}

#[test]
fn test_dependency_graph() {
    let workspace = test_workspace("/ws");

    let graph = workspace.get_dependency_graph();
    assert_eq!(graph.len(), 2);
    assert_eq!(graph[0], ("app".to_string(), vec!["shared".to_string()]));
    assert_eq!(graph[1], ("shared".to_string(), Vec::<String>::new()));
}

#[test]
fn target_package_follows_the_directory() {
    assert_eq!(test_workspace("/ws/shared/src").target_package.unwrap().name, "shared");
    assert_eq!(test_workspace("/ws").target_package.unwrap().name, "app");
    assert_eq!(test_workspace("/ws/app-extra").target_package.unwrap().name, "app");
    assert!(test_workspace("/ws").get_package_by_name("serde").is_none());
    assert_eq!(test_workspace("/ws").get_main_package().unwrap().name, "app");
    let none = detect_target_package(&vec![], &vec![], "/x");
    assert!(none.is_none());
}

#[test]
fn watch_and_ignore_paths_are_sorted_and_unique() {
    let workspace = test_workspace("/ws");
    let watch = workspace.get_watch_paths(&hot_reload(Some(vec!["templates", "/abs/dir", "shared/src"]), None));
    assert_eq!(watch, vec!["/abs/dir", "/ws/app/src", "/ws/shared/src", "/ws/templates"]);
    let ignore = workspace.get_ignore_paths(&hot_reload(None, Some(vec!["target", "tmp"])));
    assert_eq!(ignore, vec!["/ws/.git", "/ws/dist", "/ws/node_modules", "/ws/target", "/ws/tmp"]);
}

#[test]
fn paths_sort_by_components() {
    let sorted = sort_dedup_paths(&vec![
        "a-b".to_string(),
        "a/b".to_string(),
        "a//b".to_string(),
        "/x".to_string(),
        "./y".to_string(),
    ]);
    let mut expected: Vec<std::path::PathBuf> = vec!["a-b".into(), "a/b".into(), "a//b".into(), "/x".into(), "./y".into()];
    expected.sort();
    expected.dedup();
    let expected: Vec<String> = expected.into_iter().map(|p| p.to_string_lossy().into_owned()).collect();
    assert_eq!(sorted, expected);
}

#[test]
fn workspace_build_environment() {
    let workspace = test_workspace("/ws");
    let build = BuildConfig { target_dir: Some("target".to_string()), out_dir: None, release: None, features: None, target: None, environment: None };
    assert_eq!(
        workspace.get_build_env(&build),
        vec![
            ("SHIPWRIGHT_WORKSPACE_ROOT".to_string(), "/ws".to_string()),
            ("CARGO_TARGET_DIR".to_string(), "/ws/target".to_string()),
        ]
    );
}
