//! The contents of `Shipwright.toml` and the defaults that stand in for
//! missing sections.
//!
//! Paths are kept as the text they were written with.

use vstd::prelude::*;

use crate::protocol::opt_text;
use crate::text::{copy_opt_text, copy_opt_texts, copy_texts, opt_texts, texts};

verus! {

/// Main configuration structure for Shipwright.toml
pub struct Config {
    pub application: ApplicationConfig,
    pub web: Option<WebConfig>,
    pub build: Option<BuildConfig>,
    pub serve: Option<ServeConfig>,
    pub hot_reload: Option<HotReloadConfig>,
    pub workspace: Option<WorkspaceConfig>,
}

pub struct ApplicationConfig {
    pub name: String,
    pub version: Option<String>,
    pub default_platform: Option<String>,
    pub authors: Option<Vec<String>>,
    pub description: Option<String>,
}

pub struct WebConfig {
    pub title: Option<String>,
    pub favicon: Option<String>,
    pub base_path: Option<String>,
    pub index_template: Option<String>,
    pub public_dir: Option<String>,
    pub assets_dir: Option<String>,
}

pub struct BuildConfig {
    pub target_dir: Option<String>,
    pub out_dir: Option<String>,
    pub release: Option<bool>,
    pub features: Option<Vec<String>>,
    pub target: Option<String>,
    pub environment: Option<Vec<(String, String)>>,
}

pub struct ServeConfig {
    pub host: Option<String>,
    pub port: Option<u16>,
    pub static_dir: Option<String>,
    pub cors: Option<bool>,
}

pub struct HotReloadConfig {
    pub enabled: Option<bool>,
    pub watch_paths: Option<Vec<String>>,
    pub ignore_paths: Option<Vec<String>>,
    pub poll_interval: Option<u64>,
    pub debounce_ms: Option<u64>,
    pub reload_css: Option<bool>,
    pub reload_js: Option<bool>,
}

pub struct WorkspaceConfig {
    pub members: Option<Vec<String>>,
    pub exclude: Option<Vec<String>>,
    pub default_members: Option<Vec<String>>,
}

// ----------------------------------------------------------------------------
// Values
// ----------------------------------------------------------------------------

pub struct ApplicationModel {
    pub name: Seq<char>,
    pub version: Option<Seq<char>>,
    pub default_platform: Option<Seq<char>>,
    pub authors: Option<Seq<Seq<char>>>,
    pub description: Option<Seq<char>>,
}

pub struct WebModel {
    pub title: Option<Seq<char>>,
    pub favicon: Option<Seq<char>>,
    pub base_path: Option<Seq<char>>,
    pub index_template: Option<Seq<char>>,
    pub public_dir: Option<Seq<char>>,
    pub assets_dir: Option<Seq<char>>,
}

pub struct BuildModel {
    pub target_dir: Option<Seq<char>>,
    pub out_dir: Option<Seq<char>>,
    pub release: Option<bool>,
    pub features: Option<Seq<Seq<char>>>,
    pub target: Option<Seq<char>>,
    pub environment: Option<Seq<(Seq<char>, Seq<char>)>>,
}

pub struct ServeModel {
    pub host: Option<Seq<char>>,
    pub port: Option<u16>,
    pub static_dir: Option<Seq<char>>,
    pub cors: Option<bool>,
}

pub struct HotReloadModel {
    pub enabled: Option<bool>,
    pub watch_paths: Option<Seq<Seq<char>>>,
    pub ignore_paths: Option<Seq<Seq<char>>>,
    pub poll_interval: Option<u64>,
    pub debounce_ms: Option<u64>,
    pub reload_css: Option<bool>,
    pub reload_js: Option<bool>,
}

pub struct WorkspaceModel {
    pub members: Option<Seq<Seq<char>>>,
    pub exclude: Option<Seq<Seq<char>>>,
    pub default_members: Option<Seq<Seq<char>>>,
}

pub struct ConfigModel {
    pub application: ApplicationModel,
    pub web: Option<WebModel>,
    pub build: Option<BuildModel>,
    pub serve: Option<ServeModel>,
    pub hot_reload: Option<HotReloadModel>,
    pub workspace: Option<WorkspaceModel>,
}

/// The texts of a list of string pairs.
pub open spec fn text_pairs(v: Seq<(String, String)>) -> Seq<(Seq<char>, Seq<char>)> {
    v.map_values(|p: (String, String)| (p.0@, p.1@))
}

impl View for ApplicationConfig {
    type V = ApplicationModel;

    open spec fn view(&self) -> ApplicationModel {
        ApplicationModel {
            name: self.name@,
            version: opt_text(self.version),
            default_platform: opt_text(self.default_platform),
            authors: opt_texts(self.authors),
            description: opt_text(self.description),
        }
    }
}

impl View for WebConfig {
    type V = WebModel;

    open spec fn view(&self) -> WebModel {
        WebModel {
            title: opt_text(self.title),
            favicon: opt_text(self.favicon),
            base_path: opt_text(self.base_path),
            index_template: opt_text(self.index_template),
            public_dir: opt_text(self.public_dir),
            assets_dir: opt_text(self.assets_dir),
        }
    }
}

impl View for BuildConfig {
    type V = BuildModel;

    open spec fn view(&self) -> BuildModel {
        BuildModel {
            target_dir: opt_text(self.target_dir),
            out_dir: opt_text(self.out_dir),
            release: self.release,
            features: opt_texts(self.features),
            target: opt_text(self.target),
            environment: match self.environment {
                Some(v) => Some(text_pairs(v@)),
                None => None,
            },
        }
    }
}

impl View for ServeConfig {
    type V = ServeModel;

    open spec fn view(&self) -> ServeModel {
        ServeModel {
            host: opt_text(self.host),
            port: self.port,
            static_dir: opt_text(self.static_dir),
            cors: self.cors,
        }
    }
}

impl View for HotReloadConfig {
    type V = HotReloadModel;

    open spec fn view(&self) -> HotReloadModel {
        HotReloadModel {
            enabled: self.enabled,
            watch_paths: opt_texts(self.watch_paths),
            ignore_paths: opt_texts(self.ignore_paths),
            poll_interval: self.poll_interval,
            debounce_ms: self.debounce_ms,
            reload_css: self.reload_css,
            reload_js: self.reload_js,
        }
    }
}

impl View for WorkspaceConfig {
    type V = WorkspaceModel;

    open spec fn view(&self) -> WorkspaceModel {
        WorkspaceModel {
            members: opt_texts(self.members),
            exclude: opt_texts(self.exclude),
            default_members: opt_texts(self.default_members),
        }
    }
}

impl View for Config {
    type V = ConfigModel;

    open spec fn view(&self) -> ConfigModel {
        ConfigModel {
            application: self.application@,
            web: match self.web {
                Some(w) => Some(w@),
                None => None,
            },
            build: match self.build {
                Some(b) => Some(b@),
                None => None,
            },
            serve: match self.serve {
                Some(s) => Some(s@),
                None => None,
            },
            hot_reload: match self.hot_reload {
                Some(h) => Some(h@),
                None => None,
            },
            workspace: match self.workspace {
                Some(w) => Some(w@),
                None => None,
            },
        }
    }
}

// ----------------------------------------------------------------------------
// Defaults
// ----------------------------------------------------------------------------

/// The application section when none is configured.
pub open spec fn default_application() -> ApplicationModel {
    ApplicationModel {
        name: "shipwright-app"@,
        version: Some("0.1.0"@),
        default_platform: Some("web"@),
        authors: None,
        description: None,
    }
}

/// The web section when none is configured.
pub open spec fn default_web() -> WebModel {
    WebModel {
        title: Some("Shipwright App"@),
        favicon: Some("public/favicon.ico"@),
        base_path: Some("/"@),
        index_template: Some("index.html"@),
        public_dir: Some("public"@),
        assets_dir: Some("assets"@),
    }
}

/// The build section when none is configured.
pub open spec fn default_build() -> BuildModel {
    BuildModel {
        target_dir: Some("target"@),
        out_dir: Some("dist"@),
        release: Some(false),
        features: None,
        target: None,
        environment: None,
    }
}

/// The serve section when none is configured.
pub open spec fn default_serve() -> ServeModel {
    ServeModel {
        host: Some("localhost"@),
        port: Some(8080),
        static_dir: Some("dist"@),
        cors: Some(true),
    }
}

/// The hot reload section when none is configured.
pub open spec fn default_hot_reload() -> HotReloadModel {
    HotReloadModel {
        enabled: Some(true),
        watch_paths: Some(seq!["src"@, "assets"@, "public"@]),
        ignore_paths: Some(seq!["target"@, "dist"@, ".git"@, "node_modules"@]),
        poll_interval: Some(1000),
        debounce_ms: Some(300),
        reload_css: Some(true),
        reload_js: Some(true),
    }
}

/// The workspace section when none is configured.
pub open spec fn default_workspace() -> WorkspaceModel {
    WorkspaceModel { members: None, exclude: None, default_members: None }
}

/// The configuration used when no file is there.
pub open spec fn default_config() -> ConfigModel {
    ConfigModel {
        application: default_application(),
        web: None,
        build: None,
        serve: None,
        hot_reload: None,
        workspace: None,
    }
}

fn some_text(t: &str) -> (r: Option<String>)
    ensures
        opt_text(r) == Some(t@),
{
    Some(t.to_owned())
}

impl Default for Config {
    fn default() -> (r: Self)
        ensures
            r@ == default_config(),
    {
        Config {
            application: ApplicationConfig {
                name: "shipwright-app".to_owned(),
                version: some_text("0.1.0"),
                default_platform: some_text("web"),
                authors: None,
                description: None,
            },
            web: None,
            build: None,
            serve: None,
            hot_reload: None,
            workspace: None,
        }
    }
}

impl Default for WebConfig {
    fn default() -> (r: Self)
        ensures
            r@ == default_web(),
    {
        WebConfig {
            title: some_text("Shipwright App"),
            favicon: some_text("public/favicon.ico"),
            base_path: some_text("/"),
            index_template: some_text("index.html"),
            public_dir: some_text("public"),
            assets_dir: some_text("assets"),
        }
    }
}

impl Default for BuildConfig {
    fn default() -> (r: Self)
        ensures
            r@ == default_build(),
    {
        BuildConfig {
            target_dir: some_text("target"),
            out_dir: some_text("dist"),
            release: Some(false),
            features: None,
            target: None,
            environment: None,
        }
    }
}

impl Default for ServeConfig {
    fn default() -> (r: Self)
        ensures
            r@ == default_serve(),
    {
        ServeConfig {
            host: some_text("localhost"),
            port: Some(8080),
            static_dir: some_text("dist"),
            cors: Some(true),
        }
    }
}

impl Default for HotReloadConfig {
    fn default() -> (r: Self)
        ensures
            r@ == default_hot_reload(),
    {
        let mut watch: Vec<String> = Vec::new();
        watch.push("src".to_owned());
        watch.push("assets".to_owned());
        watch.push("public".to_owned());
        let mut ignore: Vec<String> = Vec::new();
        ignore.push("target".to_owned());
        ignore.push("dist".to_owned());
        ignore.push(".git".to_owned());
        ignore.push("node_modules".to_owned());
        let r = HotReloadConfig {
            enabled: Some(true),
            watch_paths: Some(watch),
            ignore_paths: Some(ignore),
            poll_interval: Some(1000),
            debounce_ms: Some(300),
            reload_css: Some(true),
            reload_js: Some(true),
        };
        assert(texts(watch@) =~= seq!["src"@, "assets"@, "public"@]);
        assert(texts(ignore@) =~= seq!["target"@, "dist"@, ".git"@, "node_modules"@]);
        r
    }
}

impl Default for WorkspaceConfig {
    fn default() -> (r: Self)
        ensures
            r@ == default_workspace(),
    {
        WorkspaceConfig { members: None, exclude: None, default_members: None }
    }
}

// ----------------------------------------------------------------------------
// Copies
// ----------------------------------------------------------------------------

impl WebConfig {
    /// A copy of this section.
    pub fn duplicate(&self) -> (r: Self)
        ensures
            r@ == self@,
    {
        WebConfig {
            title: copy_opt_text(&self.title),
            favicon: copy_opt_text(&self.favicon),
            base_path: copy_opt_text(&self.base_path),
            index_template: copy_opt_text(&self.index_template),
            public_dir: copy_opt_text(&self.public_dir),
            assets_dir: copy_opt_text(&self.assets_dir),
        }
    }
}

/// A copy of a list of string pairs.
fn copy_pairs(v: &Vec<(String, String)>) -> (r: Vec<(String, String)>)
    ensures
        text_pairs(r@) == text_pairs(v@),
{
    let mut r: Vec<(String, String)> = Vec::new();
    let mut i: usize = 0;
    while i < v.len()
        invariant
            i <= v@.len(),
            r@.len() == i,
            forall|j: int|
                0 <= j < i ==> #[trigger] r@[j].0@ == v@[j].0@ && r@[j].1@ == v@[j].1@,
        decreases v@.len() - i,
    {
        let k = v[i].0.clone();
        let x = v[i].1.clone();
        r.push((k, x));
        i = i + 1;
    }
    assert(text_pairs(r@) =~= text_pairs(v@));
    r
}

impl BuildConfig {
    /// A copy of this section.
    pub fn duplicate(&self) -> (r: Self)
        ensures
            r@ == self@,
    {
        BuildConfig {
            target_dir: copy_opt_text(&self.target_dir),
            out_dir: copy_opt_text(&self.out_dir),
            release: self.release,
            features: copy_opt_texts(&self.features),
            target: copy_opt_text(&self.target),
            environment: match &self.environment {
                Some(v) => Some(copy_pairs(v)),
                None => None,
            },
        }
    }
}

impl ServeConfig {
    /// A copy of this section.
    pub fn duplicate(&self) -> (r: Self)
        ensures
            r@ == self@,
    {
        ServeConfig {
            host: copy_opt_text(&self.host),
            port: self.port,
            static_dir: copy_opt_text(&self.static_dir),
            cors: self.cors,
        }
    }
}

impl HotReloadConfig {
    /// A copy of this section.
    pub fn duplicate(&self) -> (r: Self)
        ensures
            r@ == self@,
    {
        HotReloadConfig {
            enabled: self.enabled,
            watch_paths: copy_opt_texts(&self.watch_paths),
            ignore_paths: copy_opt_texts(&self.ignore_paths),
            poll_interval: self.poll_interval,
            debounce_ms: self.debounce_ms,
            reload_css: self.reload_css,
            reload_js: self.reload_js,
        }
    }
}

impl WorkspaceConfig {
    /// A copy of this section.
    pub fn duplicate(&self) -> (r: Self)
        ensures
            r@ == self@,
    {
        WorkspaceConfig {
            members: copy_opt_texts(&self.members),
            exclude: copy_opt_texts(&self.exclude),
            default_members: copy_opt_texts(&self.default_members),
        }
    }
}

// ----------------------------------------------------------------------------
// Sections with their defaults
// ----------------------------------------------------------------------------

impl Config {
    /// Get the web configuration with defaults
    pub fn web(&self) -> (r: WebConfig)
        ensures
            r@ == match self.web {
                Some(w) => w@,
                None => default_web(),
            },
    {
        match &self.web {
            Some(w) => w.duplicate(),
            None => WebConfig::default(),
        }
    }

    /// Get the build configuration with defaults
    pub fn build(&self) -> (r: BuildConfig)
        ensures
            r@ == match self.build {
                Some(b) => b@,
                None => default_build(),
            },
    {
        match &self.build {
            Some(b) => b.duplicate(),
            None => BuildConfig::default(),
        }
    }

    /// Get the serve configuration with defaults
    pub fn serve(&self) -> (r: ServeConfig)
        ensures
            r@ == match self.serve {
                Some(s) => s@,
                None => default_serve(),
            },
    {
        match &self.serve {
            Some(s) => s.duplicate(),
            None => ServeConfig::default(),
        }
    }

    /// Get the hot reload configuration with defaults
    pub fn hot_reload(&self) -> (r: HotReloadConfig)
        ensures
            r@ == match self.hot_reload {
                Some(h) => h@,
                None => default_hot_reload(),
            },
    {
        match &self.hot_reload {
            Some(h) => h.duplicate(),
            None => HotReloadConfig::default(),
        }
    }

    /// Get the workspace configuration with defaults
    pub fn workspace(&self) -> (r: WorkspaceConfig)
        ensures
            r@ == match self.workspace {
                Some(w) => w@,
                None => default_workspace(),
            },
    {
        match &self.workspace {
            Some(w) => w.duplicate(),
            None => WorkspaceConfig::default(),
        }
    }
}

} // verus!
