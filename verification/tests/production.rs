use shipwright::build_command::{binary_file_name, build_env, join_path_exec, render_index, replace_all, BuildCommand};
use shipwright::config::{BuildConfig, WebConfig};
use shipwright::text_order::{sort_texts, text_le_exec};

fn command() -> BuildCommand {
    BuildCommand {
        release: false,
        target: None,
        features: vec![],
        out_dir: None,
        target_dir: None,
        package: None,
        cargo_args: vec![],
        clean: false,
        verbose: false,
    }
}

fn no_build_config() -> BuildConfig {
    BuildConfig { target_dir: None, out_dir: None, release: None, features: None, target: None, environment: None }
}

#[test]
fn test_build_command_creation() {
    let cmd = BuildCommand {
        release: true,
        target: Some("wasm32-unknown-unknown".to_string()),
        features: vec!["ssr".to_string(), "hydration".to_string()],
        out_dir: Some("dist".to_string()),
        target_dir: Some("target".to_string()),
        package: Some("my-app".to_string()),
        cargo_args: vec!["--verbose".to_string()],
        clean: false,
        verbose: true,
    };

    assert!(cmd.release);
    assert_eq!(cmd.target, Some("wasm32-unknown-unknown".to_string()));
    assert_eq!(cmd.features.len(), 2);
    assert!(cmd.verbose);
}

#[test]
fn production_arguments_follow_the_command_then_the_configuration() {
    let mut cmd = command();
    cmd.features = vec!["ssr".to_string(), "hydration".to_string()];
    cmd.cargo_args = vec!["--locked".to_string()];
    cmd.verbose = true;
    let mut build = no_build_config();
    build.target = Some("wasm32-unknown-unknown".to_string());
    build.target_dir = Some("out/target".to_string());
    build.features = Some(vec!["ssr".to_string(), "csr".to_string()]);
    let args = cmd.cargo_build_args(&build, &Some("app".to_string()), true);
    assert_eq!(
        args,
        vec![
            "build", "--release", "--target", "wasm32-unknown-unknown", "--target-dir", "out/target", "--package",
            "app", "--features", "csr,hydration,ssr", "--locked", "--verbose",
        ]
    );
    cmd.package = Some("web".to_string());
    cmd.target = Some("x86_64-unknown-linux-gnu".to_string());
    let args = cmd.cargo_build_args(&no_build_config(), &None, false);
    assert_eq!(
        args,
        vec!["build", "--target", "x86_64-unknown-linux-gnu", "--package", "web", "--features", "hydration,ssr", "--locked", "--verbose"]
    );
}

#[test]
fn clean_arguments_and_directories() {
    let mut cmd = command();
    let mut build = no_build_config();
    assert_eq!(cmd.clean_args(&build), vec!["clean"]);
    assert_eq!(cmd.output_directory(&build), "dist");
    build.out_dir = Some("public".to_string());
    build.target_dir = Some("tgt".to_string());
    assert_eq!(cmd.output_directory(&build), "public");
    assert_eq!(cmd.target_directory(&build), Some("tgt".to_string()));
    cmd.out_dir = Some("custom-dist".to_string());
    cmd.package = Some("app".to_string());
    assert_eq!(cmd.output_directory(&build), "custom-dist");
    assert_eq!(cmd.clean_args(&build), vec!["clean", "--target-dir", "tgt", "--package", "app"]);
    assert!(!cmd.release_mode(&build));
    build.release = Some(true);
    assert!(cmd.release_mode(&build));
}

#[test]
fn environment_of_the_build() {
    let mut build = no_build_config();
    build.target_dir = Some("target".to_string());
    build.environment = Some(vec![
        ("RUST_LOG".to_string(), "debug".to_string()),
        ("CARGO_TARGET_DIR".to_string(), "/tmp/t".to_string()),
    ]);
    let env = build_env("/work", &build);
    assert_eq!(
        env,
        vec![
            ("SHIPWRIGHT_WORKSPACE_ROOT".to_string(), "/work".to_string()),
            ("CARGO_TARGET_DIR".to_string(), "/tmp/t".to_string()),
            ("RUST_LOG".to_string(), "debug".to_string()),
        ]
    );
    assert_eq!(join_path_exec("/work", "target"), "/work/target");
    assert_eq!(join_path_exec("/work/", "target"), "/work/target");
    assert_eq!(join_path_exec("/work", "/abs"), "/abs");
    assert_eq!(join_path_exec("", "rel"), "rel");
}

#[test]
fn index_page_is_filled_in() {
    let web = WebConfig { title: None, favicon: None, base_path: None, index_template: None, public_dir: None, assets_dir: None };
    let html = render_index("<title>{{title}}</title><base href=\"{{base_path}}\">{{app_name}}{{title}}", &web, "demo");
    assert_eq!(html, "<title>demo</title><base href=\"/\">demodemo");
    let web = WebConfig {
        title: Some("My App".to_string()),
        favicon: None,
        base_path: Some("/app/".to_string()),
        index_template: None,
        public_dir: None,
        assets_dir: None,
    };
    assert_eq!(render_index("{{title}}|{{base_path}}", &web, "demo"), "My App|/app/");
    assert_eq!(replace_all("aaaa", "aa", "b"), "bb");
    assert_eq!(replace_all("abc", "x", "y"), "abc");
}

#[test]
fn binary_names_drop_the_package() {
    assert_eq!(binary_file_name("app::app"), "app");
    assert_eq!(binary_file_name("server"), "server");
    assert_eq!(binary_file_name("a::b::c"), "c");
    assert_eq!(binary_file_name(":::x"), ":x");
}

#[test]
fn texts_sort_as_strings_do() {
    let mut v = vec!["b".to_string(), "a".to_string(), "ab".to_string(), "B".to_string(), "é".to_string(), "z".to_string()];
    let mut expected = v.clone();
    expected.sort();
    sort_texts(&mut v);
    assert_eq!(v, expected);
    assert!(text_le_exec("a", "ab"));
    assert!(!text_le_exec("b", "ab"));
    assert!(text_le_exec("", ""));
}
