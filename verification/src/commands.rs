//! The decisions behind the command line tool's commands: which address to
//! serve on, which arguments to hand to cargo and cargo-generate, which
//! template source a name stands for, and which file events call for a
//! rebuild. Running the processes is left to the caller.

use vstd::prelude::*;

use crate::config::{Config, HotReloadConfig, ServeConfig};
use crate::workspace::Workspace;
use crate::paths::{extension, extension_of, path_starts_with, starts_with};
use crate::protocol::opt_text;
use crate::text::{
    copy_opt_text, decimal, has_prefix, push_char, push_decimal, push_str, starts_with_str,
    str_chars, texts,
};

verus! {

// ----------------------------------------------------------------------------
// key=value
// ----------------------------------------------------------------------------

/// Split a template variable written `key=value` at its first `=`.
pub fn parse_key_value(s: &str) -> (r: Result<(String, String), String>)
    ensures
        match r {
            Ok((k, v)) => s@ == k@ + seq!['='] + v@ && !k@.contains('='),
            Err(e) => !s@.contains('=') && e@ == "Invalid key=value: '"@ + s@ + "'"@,
        },
{
    let cs = str_chars(s);
    let mut i: usize = 0;
    while i < cs.len()
        invariant
            cs@ == s@,
            i <= cs@.len(),
            forall|j: int| 0 <= j < i ==> cs@[j] != '=',
        decreases cs@.len() - i,
    {
        if cs[i] == '=' {
            let mut k = String::new();
            let mut j: usize = 0;
            while j < i
                invariant
                    cs@ == s@,
                    j <= i < cs@.len(),
                    k@ == cs@.subrange(0, j as int),
                decreases i - j,
            {
                push_char(&mut k, cs[j]);
                j = j + 1;
            }
            let mut v = String::new();
            let mut m: usize = i + 1;
            while m < cs.len()
                invariant
                    cs@ == s@,
                    i < m <= cs@.len(),
                    v@ == cs@.subrange(i + 1, m as int),
                decreases cs@.len() - m,
            {
                push_char(&mut v, cs[m]);
                m = m + 1;
            }
            proof {
                assert(s@ =~= k@ + seq!['='] + v@);
                if k@.contains('=') {
                    let x = choose|x: int| 0 <= x < k@.len() && k@[x] == '=';
                    assert(cs@[x] == '=');
                }
            }
            return Ok((k, v));
        }
        i = i + 1;
    }
    let mut e = String::new();
    push_str(&mut e, "Invalid key=value: '");
    push_str(&mut e, s);
    push_str(&mut e, "'");
    proof {
        if s@.contains('=') {
            let x = choose|x: int| 0 <= x < s@.len() && s@[x] == '=';
            assert(cs@[x] == '=');
        }
    }
    Err(e)
}

// ----------------------------------------------------------------------------
// Server address
// ----------------------------------------------------------------------------

/// The first text given, from the command line, then the configuration, or
/// else the default.
pub open spec fn first_text(cli: Option<Seq<char>>, configured: Option<Seq<char>>, fallback: Seq<char>) -> Seq<char> {
    match cli {
        Some(t) => t,
        None => match configured {
            Some(t) => t,
            None => fallback,
        },
    }
}

/// The first port given, or 8080.
pub open spec fn first_port(cli: Option<u16>, configured: Option<u16>) -> u16 {
    match cli {
        Some(p) => p,
        None => match configured {
            Some(p) => p,
            None => 8080,
        },
    }
}

/// The address that a server on `host` and `port` is reached at.
pub open spec fn url_of(host: Seq<char>, port: u16) -> Seq<char> {
    "http://"@ + host + ":"@ + decimal(port as nat)
}

/// The first of `cli`, `configured` and `fallback` that is given.
pub(crate) fn pick_text(cli: &Option<String>, configured: &Option<String>, fallback: &str) -> (r: String)
    ensures
        r@ == first_text(opt_text(*cli), opt_text(*configured), fallback@),
{
    match cli {
        Some(t) => t.clone(),
        None => match configured {
            Some(t) => t.clone(),
            None => fallback.to_owned(),
        },
    }
}

/// The first port given, or 8080.
fn pick_port(cli: Option<u16>, configured: Option<u16>) -> (r: u16)
    ensures
        r == first_port(cli, configured),
{
    match cli {
        Some(p) => p,
        None => match configured {
            Some(p) => p,
            None => 8080,
        },
    }
}

/// The address that a server on `host` and `port` is reached at.
pub fn server_url(host: &str, port: u16) -> (r: String)
    ensures
        r@ == url_of(host@, port),
{
    let mut r = String::new();
    push_str(&mut r, "http://");
    push_str(&mut r, host);
    push_str(&mut r, ":");
    push_decimal(&mut r, port as u64);
    r
}

// ----------------------------------------------------------------------------
// Commands
// ----------------------------------------------------------------------------

/// What every command works with: the configuration and the workspace.
pub struct CommandContext {
    pub config: Config,
    pub workspace: Workspace,
}

impl CommandContext {
    /// The context of a configuration and the workspace found for it.
    pub fn new(config: Config, workspace: Workspace) -> (r: Self)
        ensures
            r.config == config,
            r.workspace == workspace,
    {
        CommandContext { config, workspace }
    }
}

/// Start development server with hot reload
pub struct DevCommand {
    /// Host to bind the server to
    pub host: Option<String>,
    /// Port to bind the server to
    pub port: Option<u16>,
    /// Disable hot reload functionality
    pub no_hot_reload: bool,
    /// Enable release mode optimizations
    pub release: bool,
    /// Features to enable during compilation
    pub features: Vec<String>,
    /// Additional arguments to pass to cargo
    pub cargo_args: Vec<String>,
    /// Open browser automatically
    pub open: bool,
    /// Target package to build (for workspaces)
    pub package: Option<String>,
}

/// Start production server
pub struct ServeCommand {
    /// Host to bind the server to
    pub host: Option<String>,
    /// Port to bind the server to
    pub port: Option<u16>,
    /// Directory to serve static files from
    pub static_dir: Option<String>,
    /// Ensure the application is built in release mode
    pub release: bool,
    /// Enable CORS headers
    pub cors: bool,
    /// Enable gzip compression
    pub gzip: bool,
    /// Target package to serve (for workspaces)
    pub package: Option<String>,
}

/// Create a new Shipwright project from a template
pub struct NewCommand {
    /// Project name (will be used as directory name and in generated files)
    pub name: String,
    /// Template to use (default, shipwright, git URL, or GitHub repo)
    pub template: String,
    /// Directory to create the project in (defaults to project name)
    pub directory: Option<String>,
    /// Skip interactive prompts and use defaults
    pub defaults: bool,
    /// Force overwrite if directory already exists
    pub force: bool,
    /// Don't initialize a git repository
    pub no_git: bool,
    /// Additional template variables
    pub variables: Vec<(String, String)>,
}

/// The texts of comma-joined names.
pub open spec fn joined(names: Seq<Seq<char>>) -> Seq<char>
    decreases names.len(),
{
    if names.len() == 0 {
        Seq::empty()
    } else if names.len() == 1 {
        names[0]
    } else {
        joined(names.drop_last()) + ","@ + names.last()
    }
}

/// The names joined with commas.
pub fn join_commas(names: &Vec<String>) -> (r: String)
    ensures
        r@ == joined(texts(names@)),
{
    let mut r = String::new();
    let mut i: usize = 0;
    while i < names.len()
        invariant
            i <= names@.len(),
            r@ == joined(texts(names@.subrange(0, i as int))),
        decreases names@.len() - i,
    {
        let ghost before = texts(names@.subrange(0, i as int));
        if i > 0 {
            push_str(&mut r, ",");
        }
        push_str(&mut r, names[i].as_str());
        proof {
            let after = texts(names@.subrange(0, i + 1));
            assert(after.drop_last() =~= before);
            assert(after.last() == names@[i as int]@);
            if i == 0 {
                assert(after =~= seq![names@[0]@]);
            }
        }
        i = i + 1;
    }
    assert(names@.subrange(0, i as int) =~= names@);
    r
}

/// The arguments of `cargo build`: release mode, the package (the given
/// one, else the workspace's main package), the features joined with commas
/// when there are any, then the extra cargo arguments.
pub open spec fn build_args_of(
    release: bool,
    package: Option<Seq<char>>,
    main_package: Option<Seq<char>>,
    features: Seq<Seq<char>>,
    extra: Seq<Seq<char>>,
) -> Seq<Seq<char>> {
    seq!["build"@] + (if release {
        seq!["--release"@]
    } else {
        Seq::empty()
    }) + match package {
        Some(p) => seq!["--package"@, p],
        None => match main_package {
            Some(m) => seq!["--package"@, m],
            None => Seq::empty(),
        },
    } + (if features.len() > 0 {
        seq!["--features"@, joined(features)]
    } else {
        Seq::empty()
    }) + extra
}

/// Pushes a text.
pub(crate) fn push_arg(args: &mut Vec<String>, a: &str)
    ensures
        texts(final(args)@) == texts(old(args)@).push(a@),
{
    let ghost before = args@;
    args.push(a.to_owned());
    assert(texts(args@) =~= texts(before).push(a@));
}

impl DevCommand {
    /// The host to bind to: the one given, else the configured one, else
    /// `localhost`.
    pub fn server_host(&self, serve: &ServeConfig) -> (r: String)
        ensures
            r@ == first_text(opt_text(self.host), opt_text(serve.host), "localhost"@),
    {
        pick_text(&self.host, &serve.host, "localhost")
    }

    /// The port to bind to: the one given, else the configured one, else
    /// 8080.
    pub fn server_port(&self, serve: &ServeConfig) -> (r: u16)
        ensures
            r == first_port(self.port, serve.port),
    {
        pick_port(self.port, serve.port)
    }

    /// Hot reload runs unless turned off on the command line or in the
    /// configuration.
    pub fn hot_reload_enabled(&self, hot_reload: &HotReloadConfig) -> (r: bool)
        ensures
            r == (!self.no_hot_reload && match hot_reload.enabled {
                Some(e) => e,
                None => true,
            }),
    {
        !self.no_hot_reload && match hot_reload.enabled {
            Some(e) => e,
            None => true,
        }
    }

    /// The arguments of the initial `cargo build`.
    pub fn build_args(&self, main_package: &Option<String>) -> (r: Vec<String>)
        ensures
            texts(r@) == build_args_of(
                self.release,
                opt_text(self.package),
                opt_text(*main_package),
                texts(self.features@),
                texts(self.cargo_args@),
            ),
    {
        let mut args: Vec<String> = Vec::new();
        push_arg(&mut args, "build");
        if self.release {
            push_arg(&mut args, "--release");
        }
        match &self.package {
            Some(p) => {
                push_arg(&mut args, "--package");
                push_arg(&mut args, p.as_str());
            },
            None => match main_package {
                Some(m) => {
                    push_arg(&mut args, "--package");
                    push_arg(&mut args, m.as_str());
                },
                None => {},
            },
        }
        if self.features.len() > 0 {
            push_arg(&mut args, "--features");
            let j = join_commas(&self.features);
            push_arg(&mut args, j.as_str());
        }
        let ghost head = texts(args@);
        let mut i: usize = 0;
        while i < self.cargo_args.len()
            invariant
                i <= self.cargo_args@.len(),
                texts(args@) == head + texts(self.cargo_args@.subrange(0, i as int)),
            decreases self.cargo_args@.len() - i,
        {
            push_arg(&mut args, self.cargo_args[i].as_str());
            assert(texts(self.cargo_args@.subrange(0, i + 1)) =~= texts(
                self.cargo_args@.subrange(0, i as int),
            ).push(self.cargo_args@[i as int]@));
            i = i + 1;
        }
        assert(self.cargo_args@.subrange(0, i as int) =~= self.cargo_args@);
        proof {
            let pk = match opt_text(self.package) {
                Some(p) => seq!["--package"@, p],
                None => match opt_text(*main_package) {
                    Some(m) => seq!["--package"@, m],
                    None => Seq::empty(),
                },
            };
            assert(head =~= seq!["build"@] + (if self.release {
                seq!["--release"@]
            } else {
                Seq::empty()
            }) + pk + (if texts(self.features@).len() > 0 {
                seq!["--features"@, joined(texts(self.features@))]
            } else {
                Seq::empty()
            }));
        }
        args
    }
}

impl ServeCommand {
    /// The host to bind to: the one given, else the configured one, else
    /// `localhost`.
    pub fn server_host(&self, serve: &ServeConfig) -> (r: String)
        ensures
            r@ == first_text(opt_text(self.host), opt_text(serve.host), "localhost"@),
    {
        pick_text(&self.host, &serve.host, "localhost")
    }

    /// The port to bind to: the one given, else the configured one, else
    /// 8080.
    pub fn server_port(&self, serve: &ServeConfig) -> (r: u16)
        ensures
            r == first_port(self.port, serve.port),
    {
        pick_port(self.port, serve.port)
    }

    /// The directory of static files: the one given, else the configured
    /// one, else `dist`.
    pub fn static_dir(&self, serve: &ServeConfig) -> (r: String)
        ensures
            r@ == first_text(opt_text(self.static_dir), opt_text(serve.static_dir), "dist"@),
    {
        pick_text(&self.static_dir, &serve.static_dir, "dist")
    }

    /// The arguments of `cargo build` before serving.
    pub fn build_args(&self, release: bool, main_package: &Option<String>) -> (r: Vec<String>)
        ensures
            texts(r@) == build_args_of(
                release,
                opt_text(self.package),
                opt_text(*main_package),
                Seq::empty(),
                Seq::empty(),
            ),
    {
        let mut args: Vec<String> = Vec::new();
        push_arg(&mut args, "build");
        if release {
            push_arg(&mut args, "--release");
        }
        match &self.package {
            Some(p) => {
                push_arg(&mut args, "--package");
                push_arg(&mut args, p.as_str());
            },
            None => match main_package {
                Some(m) => {
                    push_arg(&mut args, "--package");
                    push_arg(&mut args, m.as_str());
                },
                None => {},
            },
        }
        proof {
            let pk = match opt_text(self.package) {
                Some(p) => seq!["--package"@, p],
                None => match opt_text(*main_package) {
                    Some(m) => seq!["--package"@, m],
                    None => Seq::empty(),
                },
            };
            assert(texts(args@) =~= seq!["build"@] + (if release {
                seq!["--release"@]
            } else {
                Seq::empty()
            }) + pk + Seq::<Seq<char>>::empty() + Seq::<Seq<char>>::empty());
        }
        args
    }
}

// ----------------------------------------------------------------------------
// Creating a project
// ----------------------------------------------------------------------------

/// Where a project template comes from.
pub enum TemplateSource {
    /// A git repository, by URL.
    Git(String),
    /// A template of the Shipwright repository: fetched from its subfolder
    /// of the templates branch, else found locally under its name.
    Builtin { subfolder: String, local_name: String },
    /// A local path, else a local Shipwright template of that name.
    Local,
}

/// The value of a template source.
pub enum SourceModel {
    Git(Seq<char>),
    Builtin { subfolder: Seq<char>, local_name: Seq<char> },
    Local,
}

impl View for TemplateSource {
    type V = SourceModel;

    open spec fn view(&self) -> SourceModel {
        match *self {
            TemplateSource::Git(u) => SourceModel::Git(u@),
            TemplateSource::Builtin { subfolder, local_name } => SourceModel::Builtin {
                subfolder: subfolder@,
                local_name: local_name@,
            },
            TemplateSource::Local => SourceModel::Local,
        }
    }
}

/// The source a template name stands for: URLs as they are, `user/repo` on
/// GitHub when no such local path exists, the two built-in names, and
/// anything else looked up locally.
pub open spec fn source_of(template: Seq<char>, exists_locally: bool) -> SourceModel {
    if has_prefix(template, "http"@) || has_prefix(template, "git@"@) {
        SourceModel::Git(template)
    } else if template.contains('/') && !exists_locally {
        SourceModel::Git("https://github.com/"@ + template)
    } else if template == "default"@ {
        SourceModel::Builtin {
            subfolder: "templates/shipwright-default-template"@,
            local_name: "shipwright-default-template"@,
        }
    } else if template == "shipwright"@ {
        SourceModel::Builtin { subfolder: "templates/shipwright"@, local_name: "shipwright"@ }
    } else {
        SourceModel::Local
    }
}

/// The options every cargo-generate run gets: destination, force, silent
/// mode with commands allowed, the template variables, and no version
/// control when asked.
pub open spec fn generate_options(
    directory: Option<Seq<char>>,
    force: bool,
    variables: Seq<(Seq<char>, Seq<char>)>,
    no_git: bool,
) -> Seq<Seq<char>> {
    (match directory {
        Some(d) => seq!["--destination"@, d],
        None => Seq::empty(),
    }) + (if force {
        seq!["--force"@]
    } else {
        Seq::empty()
    }) + seq!["--silent"@, "--allow-commands"@] + define_args(variables) + (if no_git {
        seq!["--vcs"@, "none"@]
    } else {
        Seq::empty()
    })
}

/// `--define key=value` for each variable.
pub open spec fn define_args(variables: Seq<(Seq<char>, Seq<char>)>) -> Seq<Seq<char>>
    decreases variables.len(),
{
    if variables.len() == 0 {
        Seq::empty()
    } else {
        define_args(variables.drop_last()) + seq![
            "--define"@,
            variables.last().0 + "="@ + variables.last().1,
        ]
    }
}

/// Whether `t` contains `c`.
fn contains_char(t: &str, c: char) -> (r: bool)
    ensures
        r == t@.contains(c),
{
    let cs = str_chars(t);
    let mut i: usize = 0;
    while i < cs.len()
        invariant
            cs@ == t@,
            i <= cs@.len(),
            forall|j: int| 0 <= j < i ==> cs@[j] != c,
        decreases cs@.len() - i,
    {
        if cs[i] == c {
            return true;
        }
        i = i + 1;
    }
    false
}

impl NewCommand {
    /// The texts of the template variables.
    pub open spec fn variables_view(&self) -> Seq<(Seq<char>, Seq<char>)> {
        self.variables@.map_values(|p: (String, String)| (p.0@, p.1@))
    }

    /// The source the template name stands for; `exists_locally` tells
    /// whether a path of that name exists.
    pub fn template_source(&self, exists_locally: bool) -> (r: TemplateSource)
        ensures
            r@ == source_of(self.template@, exists_locally),
    {
        let t = str_chars(self.template.as_str());
        if starts_with_str(t.as_slice(), "http") || starts_with_str(t.as_slice(), "git@") {
            TemplateSource::Git(self.template.clone())
        } else if contains_char(self.template.as_str(), '/') && !exists_locally {
            let mut u = String::new();
            push_str(&mut u, "https://github.com/");
            push_str(&mut u, self.template.as_str());
            TemplateSource::Git(u)
        } else if crate::paths::chars_eq_str(t.as_slice(), "default") {
            TemplateSource::Builtin {
                subfolder: "templates/shipwright-default-template".to_owned(),
                local_name: "shipwright-default-template".to_owned(),
            }
        } else if crate::paths::chars_eq_str(t.as_slice(), "shipwright") {
            TemplateSource::Builtin {
                subfolder: "templates/shipwright".to_owned(),
                local_name: "shipwright".to_owned(),
            }
        } else {
            TemplateSource::Local
        }
    }

    /// The options every cargo-generate run gets.
    fn push_generate_options(&self, args: &mut Vec<String>)
        ensures
            texts(final(args)@) == texts(old(args)@) + generate_options(
                opt_text(self.directory),
                self.force,
                self.variables_view(),
                self.no_git,
            ),
    {
        let ghost start = texts(args@);
        match &self.directory {
            Some(d) => {
                push_arg(args, "--destination");
                push_arg(args, d.as_str());
            },
            None => {},
        }
        if self.force {
            push_arg(args, "--force");
        }
        push_arg(args, "--silent");
        push_arg(args, "--allow-commands");
        let ghost mid = texts(args@);
        let mut i: usize = 0;
        while i < self.variables.len()
            invariant
                i <= self.variables@.len(),
                texts(args@) == mid + define_args(self.variables_view().subrange(0, i as int)),
            decreases self.variables@.len() - i,
        {
            push_arg(args, "--define");
            let mut kv = String::new();
            push_str(&mut kv, self.variables[i].0.as_str());
            push_str(&mut kv, "=");
            push_str(&mut kv, self.variables[i].1.as_str());
            push_arg(args, kv.as_str());
            proof {
                let vs = self.variables_view().subrange(0, i + 1);
                assert(vs.drop_last() =~= self.variables_view().subrange(0, i as int));
            }
            i = i + 1;
        }
        assert(self.variables_view().subrange(0, i as int) =~= self.variables_view());
        if self.no_git {
            push_arg(args, "--vcs");
            push_arg(args, "none");
        }
        proof {
            let d = match opt_text(self.directory) {
                Some(d) => seq!["--destination"@, d],
                None => Seq::<Seq<char>>::empty(),
            };
            let f = if self.force {
                seq!["--force"@]
            } else {
                Seq::<Seq<char>>::empty()
            };
            let g = if self.no_git {
                seq!["--vcs"@, "none"@]
            } else {
                Seq::<Seq<char>>::empty()
            };
            assert(mid =~= start + d + f + seq!["--silent"@, "--allow-commands"@]);
            assert(texts(args@) =~= start + (d + f + seq!["--silent"@, "--allow-commands"@]
                + define_args(self.variables_view()) + g));
        }
    }

    /// The cargo-generate arguments for a git template.
    pub fn generate_args_git(&self, git_url: &str) -> (r: Vec<String>)
        ensures
            texts(r@) == seq!["generate"@, "--git"@, git_url@, "--name"@, self.name@]
                + generate_options(
                opt_text(self.directory),
                self.force,
                self.variables_view(),
                self.no_git,
            ),
    {
        let mut args: Vec<String> = Vec::new();
        push_arg(&mut args, "generate");
        push_arg(&mut args, "--git");
        push_arg(&mut args, git_url);
        push_arg(&mut args, "--name");
        push_arg(&mut args, self.name.as_str());
        let ghost head = texts(args@);
        assert(head =~= seq!["generate"@, "--git"@, git_url@, "--name"@, self.name@]);
        self.push_generate_options(&mut args);
        args
    }

    /// The cargo-generate arguments for a subfolder of a branch of a git
    /// repository.
    pub fn generate_args_subfolder(&self, git_url: &str, subfolder: &str, branch: &str) -> (r:
        Vec<String>)
        ensures
            texts(r@) == seq![
                "generate"@,
                "--git"@,
                git_url@,
                "--branch"@,
                branch@,
                "--subfolder"@,
                subfolder@,
                "--name"@,
                self.name@,
            ] + generate_options(
                opt_text(self.directory),
                self.force,
                self.variables_view(),
                self.no_git,
            ),
    {
        let mut args: Vec<String> = Vec::new();
        push_arg(&mut args, "generate");
        push_arg(&mut args, "--git");
        push_arg(&mut args, git_url);
        push_arg(&mut args, "--branch");
        push_arg(&mut args, branch);
        push_arg(&mut args, "--subfolder");
        push_arg(&mut args, subfolder);
        push_arg(&mut args, "--name");
        push_arg(&mut args, self.name.as_str());
        let ghost head = texts(args@);
        assert(head =~= seq![
            "generate"@,
            "--git"@,
            git_url@,
            "--branch"@,
            branch@,
            "--subfolder"@,
            subfolder@,
            "--name"@,
            self.name@,
        ]);
        self.push_generate_options(&mut args);
        args
    }

    /// The cargo-generate arguments for a template on disk.
    pub fn generate_args_path(&self, path: &str) -> (r: Vec<String>)
        ensures
            texts(r@) == seq!["generate"@, "--path"@, path@, "--name"@, self.name@]
                + generate_options(
                opt_text(self.directory),
                self.force,
                self.variables_view(),
                self.no_git,
            ),
    {
        let mut args: Vec<String> = Vec::new();
        push_arg(&mut args, "generate");
        push_arg(&mut args, "--path");
        push_arg(&mut args, path);
        push_arg(&mut args, "--name");
        push_arg(&mut args, self.name.as_str());
        let ghost head = texts(args@);
        assert(head =~= seq!["generate"@, "--path"@, path@, "--name"@, self.name@]);
        self.push_generate_options(&mut args);
        args
    }

    /// The message when a template is found neither as a path nor among
    /// the local templates.
    pub fn template_not_found(&self) -> (r: String)
        ensures
            r@ == "Template not found: "@ + self.template@
                + ". Available templates: default, shipwright, or specify a git URL"@,
    {
        let mut r = String::new();
        push_str(&mut r, "Template not found: ");
        push_str(&mut r, self.template.as_str());
        push_str(&mut r, ". Available templates: default, shipwright, or specify a git URL");
        r
    }
}

// ----------------------------------------------------------------------------
// Rebuilding on file events
// ----------------------------------------------------------------------------

/// What happened to the files of a watch event.
#[derive(Debug, Clone, Copy, PartialEq, Eq, Structural)]
pub enum WatchEventKind {
    Create,
    Modify,
    Remove,
    Other,
}

/// Extensions of files whose change calls for a rebuild.
pub open spec fn rebuild_extension(e: Option<Seq<char>>) -> bool {
    match e {
        Some(x) => x == "rs"@ || x == "toml"@ || x == "html"@ || x == "css"@ || x == "js"@,
        None => false,
    }
}

/// Some ignored path begins `p`.
pub open spec fn ignored(p: Seq<char>, ignore: Seq<Seq<char>>) -> bool {
    exists|j: int| 0 <= j < ignore.len() && path_starts_with(p, #[trigger] ignore[j])
}

/// The verdict from the paths from position `i` on: the first ignored path
/// settles it against, the first path with a source extension in favour.
pub open spec fn reload_from(paths: Seq<Seq<char>>, ignore: Seq<Seq<char>>, i: int) -> bool
    decreases paths.len() - i,
{
    if i < 0 || i >= paths.len() {
        false
    } else if ignored(paths[i], ignore) {
        false
    } else if rebuild_extension(extension_of(paths[i])) {
        true
    } else {
        reload_from(paths, ignore, i + 1)
    }
}

/// Whether `p` lies under one of `ignore`.
fn is_ignored(p: &str, ignore: &[String]) -> (r: bool)
    ensures
        r == ignored(p@, texts(ignore@)),
{
    let mut j: usize = 0;
    while j < ignore.len()
        invariant
            j <= ignore@.len(),
            forall|k: int| 0 <= k < j ==> !path_starts_with(p@, ignore@[k]@),
        decreases ignore@.len() - j,
    {
        if starts_with(p, ignore[j].as_str()) {
            assert(texts(ignore@)[j as int] == ignore@[j as int]@);
            return true;
        }
        j = j + 1;
    }
    proof {
        if ignored(p@, texts(ignore@)) {
            let k = choose|k: int| 0 <= k < texts(ignore@).len() && path_starts_with(
                p@,
                #[trigger] texts(ignore@)[k],
            );
            assert(texts(ignore@)[k] == ignore@[k]@);
        }
    }
    false
}

/// Whether an extension calls for a rebuild.
fn is_rebuild_extension(e: &Option<Vec<char>>) -> (r: bool)
    ensures
        r == rebuild_extension(match e {
            Some(x) => Some(x@),
            None => None,
        }),
{
    match e {
        Some(x) => crate::paths::chars_eq_str(x.as_slice(), "rs") || crate::paths::chars_eq_str(
            x.as_slice(),
            "toml",
        ) || crate::paths::chars_eq_str(x.as_slice(), "html") || crate::paths::chars_eq_str(
            x.as_slice(),
            "css",
        ) || crate::paths::chars_eq_str(x.as_slice(), "js"),
        None => false,
    }
}

/// Whether a file event should trigger a rebuild: a creation, change or
/// removal whose paths, taken in order, reach one with a source extension
/// before one under an ignored path.
pub fn should_trigger_reload(kind: WatchEventKind, paths: &[String], ignore_paths: &[String]) -> (r:
    bool)
    ensures
        r == (kind != WatchEventKind::Other && reload_from(
            texts(paths@),
            texts(ignore_paths@),
            0,
        )),
{
    match kind {
        WatchEventKind::Other => false,
        _ => {
            let ghost ps = texts(paths@);
            let ghost ig = texts(ignore_paths@);
            let mut i: usize = 0;
            while i < paths.len()
                invariant
                    kind != WatchEventKind::Other,
                    ps == texts(paths@),
                    ig == texts(ignore_paths@),
                    i <= paths@.len(),
                    reload_from(ps, ig, 0) == reload_from(ps, ig, i as int),
                decreases paths@.len() - i,
            {
                assert(ps[i as int] == paths@[i as int]@);
                if is_ignored(paths[i].as_str(), ignore_paths) {
                    return false;
                }
                let e = extension(paths[i].as_str());
                if is_rebuild_extension(&e) {
                    return true;
                }
                i = i + 1;
            }
            false
        },
    }
}

} // verus!
