use shipwright::commands::{parse_key_value, CommandContext, server_url, should_trigger_reload, DevCommand, NewCommand, ServeCommand, TemplateSource, WatchEventKind};
use shipwright::config::{Config, HotReloadConfig, ServeConfig, WebConfig};
use shipwright::workspace::Workspace;

#[test]
fn test_parse_key_value() {
    assert_eq!(parse_key_value("key=value").unwrap(), ("key".to_string(), "value".to_string()));
    assert_eq!(parse_key_value("port=3000").unwrap(), ("port".to_string(), "3000".to_string()));
    assert!(parse_key_value("invalid").is_err());
}

#[test]
fn test_default_config() {
    let config = Config::default();
    assert_eq!(config.application.name, "shipwright-app");
    assert_eq!(config.application.version, Some("0.1.0".to_string()));
    assert_eq!(config.application.default_platform, Some("web".to_string()));
}

#[test]
fn test_should_trigger_reload() {
    let ignore_paths = vec!["target".to_string(), "dist".to_string()];

    // Test Rust file change
    assert!(should_trigger_reload(WatchEventKind::Modify, &["src/main.rs".to_string()], &ignore_paths));

    // Test ignored path
    assert!(!should_trigger_reload(WatchEventKind::Modify, &["target/debug/main".to_string()], &ignore_paths));
}

#[test]
fn parse_key_value_splits_at_first_equals() {
    assert_eq!(parse_key_value("a=b=c").unwrap(), ("a".to_string(), "b=c".to_string()));
    assert_eq!(parse_key_value("=x").unwrap(), ("".to_string(), "x".to_string()));
    assert_eq!(parse_key_value("invalid").unwrap_err(), "Invalid key=value: 'invalid'");
}

#[test]
fn config_sections_fall_back_to_defaults() {
    let config = Config::default();
    let web = config.web();
    assert_eq!(web.title, Some("Shipwright App".to_string()));
    assert_eq!(web.favicon, Some("public/favicon.ico".to_string()));
    let serve = config.serve();
    assert_eq!(serve.host, Some("localhost".to_string()));
    assert_eq!(serve.port, Some(8080));
    let hot = config.hot_reload();
    assert_eq!(hot.watch_paths, Some(vec!["src".to_string(), "assets".to_string(), "public".to_string()]));
    assert_eq!(hot.debounce_ms, Some(300));
    let build = config.build();
    assert_eq!(build.out_dir, Some("dist".to_string()));
    assert_eq!(build.release, Some(false));
    assert!(config.workspace().members.is_none());
}

#[test]
fn configured_section_is_returned_as_is() {
    let mut config = Config::default();
    config.web = Some(WebConfig {
        title: Some("Mine".to_string()),
        favicon: None,
        base_path: None,
        index_template: None,
        public_dir: None,
        assets_dir: None,
    });
    let web = config.web();
    assert_eq!(web.title, Some("Mine".to_string()));
    assert_eq!(web.favicon, None);
}

fn dev_command() -> DevCommand {
    DevCommand {
        host: None,
        port: None,
        no_hot_reload: false,
        release: false,
        features: vec![],
        cargo_args: vec![],
        open: false,
        package: None,
    }
}

#[test]
fn dev_address_prefers_command_line_then_config() {
    let serve = ServeConfig { host: Some("0.0.0.0".to_string()), port: None, static_dir: None, cors: None };
    let mut cmd = dev_command();
    assert_eq!(cmd.server_host(&serve), "0.0.0.0");
    assert_eq!(cmd.server_port(&serve), 8080);
    cmd.host = Some("example.org".to_string());
    cmd.port = Some(3000);
    assert_eq!(cmd.server_host(&serve), "example.org");
    assert_eq!(cmd.server_port(&serve), 3000);
    assert_eq!(server_url("localhost", 8080), "http://localhost:8080");
}

#[test]
fn dev_hot_reload_switches() {
    let mut cmd = dev_command();
    let mut hot = HotReloadConfig {
        enabled: None,
        watch_paths: None,
        ignore_paths: None,
        poll_interval: None,
        debounce_ms: None,
        reload_css: None,
        reload_js: None,
    };
    assert!(cmd.hot_reload_enabled(&hot));
    hot.enabled = Some(false);
    assert!(!cmd.hot_reload_enabled(&hot));
    hot.enabled = Some(true);
    cmd.no_hot_reload = true;
    assert!(!cmd.hot_reload_enabled(&hot));
}

#[test]
fn dev_build_arguments() {
    let mut cmd = dev_command();
    cmd.release = true;
    cmd.features = vec!["ssr".to_string(), "hydrate".to_string()];
    cmd.cargo_args = vec!["--locked".to_string()];
    let args = cmd.build_args(&Some("app".to_string()));
    assert_eq!(args, vec!["build", "--release", "--package", "app", "--features", "ssr,hydrate", "--locked"]);
    cmd.package = Some("web".to_string());
    cmd.release = false;
    cmd.features = vec![];
    let args = cmd.build_args(&Some("app".to_string()));
    assert_eq!(args, vec!["build", "--package", "web", "--locked"]);
}

#[test]
fn serve_static_dir_default() {
    let cmd = ServeCommand {
        host: None,
        port: None,
        static_dir: None,
        release: false,
        cors: false,
        gzip: false,
        package: None,
    };
    let serve = ServeConfig { host: None, port: None, static_dir: None, cors: None };
    assert_eq!(cmd.static_dir(&serve), "dist");
    assert_eq!(cmd.build_args(true, &None), vec!["build", "--release"]);
}

fn new_command(template: &str) -> NewCommand {
    NewCommand {
        name: "my-app".to_string(),
        template: template.to_string(),
        directory: None,
        defaults: false,
        force: false,
        no_git: false,
        variables: vec![],
    }
}

#[test]
fn template_sources() {
    match new_command("https://example.org/t.git").template_source(false) {
        TemplateSource::Git(u) => assert_eq!(u, "https://example.org/t.git"),
        _ => panic!("expected git"),
    }
    match new_command("user/repo").template_source(false) {
        TemplateSource::Git(u) => assert_eq!(u, "https://github.com/user/repo"),
        _ => panic!("expected github"),
    }
    assert!(matches!(new_command("user/repo").template_source(true), TemplateSource::Local));
    match new_command("default").template_source(false) {
        TemplateSource::Builtin { subfolder, local_name } => {
            assert_eq!(subfolder, "templates/shipwright-default-template");
            assert_eq!(local_name, "shipwright-default-template");
        }
        _ => panic!("expected builtin"),
    }
    assert!(matches!(new_command("mine").template_source(false), TemplateSource::Local));
    assert_eq!(
        new_command("mine").template_not_found(),
        "Template not found: mine. Available templates: default, shipwright, or specify a git URL"
    );
}

#[test]
fn cargo_generate_arguments() {
    let mut cmd = new_command("default");
    cmd.directory = Some("out".to_string());
    cmd.force = true;
    cmd.no_git = true;
    cmd.variables = vec![("a".to_string(), "1".to_string())];
    assert_eq!(
        cmd.generate_args_git("https://x/y"),
        vec![
            "generate", "--git", "https://x/y", "--name", "my-app", "--destination", "out", "--force",
            "--silent", "--allow-commands", "--define", "a=1", "--vcs", "none"
        ]
    );
    let plain = new_command("default");
    assert_eq!(
        plain.generate_args_subfolder("https://x/y", "templates/t", "templates"),
        vec![
            "generate", "--git", "https://x/y", "--branch", "templates", "--subfolder", "templates/t",
            "--name", "my-app", "--silent", "--allow-commands"
        ]
    );
    assert_eq!(
        plain.generate_args_path("local/t"),
        vec!["generate", "--path", "local/t", "--name", "my-app", "--silent", "--allow-commands"]
    );
}

#[test]
fn reload_rules() {
    let ignore = vec!["target".to_string()];
    assert!(!should_trigger_reload(WatchEventKind::Other, &["src/main.rs".to_string()], &ignore));
    assert!(should_trigger_reload(WatchEventKind::Create, &["style.css".to_string()], &ignore));
    assert!(!should_trigger_reload(WatchEventKind::Remove, &["notes.txt".to_string()], &ignore));
    // the first ignored path settles it before a later source file
    assert!(!should_trigger_reload(
        WatchEventKind::Modify,
        &["target/x.rs".to_string(), "src/lib.rs".to_string()],
        &ignore
    ));
    // a directory named like an ignored one only by prefix is not ignored
    assert!(should_trigger_reload(WatchEventKind::Modify, &["targets/x.rs".to_string()], &ignore));
}

#[test]
fn a_command_context_holds_its_parts() {
    let workspace = Workspace::from_metadata("/w".to_string(), vec![], vec![], "/w");
    let context = CommandContext::new(Config::default(), workspace);
    assert_eq!(context.config.application.name, "shipwright-app");
    assert_eq!(context.workspace.root, "/w");
    assert!(!context.workspace.is_workspace);
}

/// The command line of the hot reload server: port, host, watched paths and
/// log level, as its binary declares them.
fn hot_reload_command() -> clap::Command {
    clap::Command::new("shipwright-hotreload")
        .about("Hot reload server for Shipwright LiveView")
        .arg(clap::Arg::new("port").short('p').long("port").default_value("3001").help("Port to listen on"))
        .arg(clap::Arg::new("host").short('H').long("host").default_value("127.0.0.1").help("Host to bind to"))
        .arg(
            clap::Arg::new("watch")
                .short('w')
                .long("watch")
                .default_value(".")
                .action(clap::ArgAction::Append)
                .help("Paths to watch for changes"),
        )
        .arg(
            clap::Arg::new("log_level")
                .short('l')
                .long("log-level")
                .default_value("info")
                .help("Log level (trace, debug, info, warn, error)"),
        )
}

#[test]
fn test_cli_parsing() {
    hot_reload_command().debug_assert();
}
