//! The decisions of the production build: the build mode, the directories,
//! the arguments handed to cargo, the environment of the build, and the
//! rendering of the index page. Running cargo and copying files is left to
//! the caller.

use vstd::prelude::*;

use crate::commands::{first_text, joined, join_commas, pick_text, push_arg};
use crate::config::{BuildConfig, WebConfig};
use crate::keyed::{lemma_put, put, unique_keys};
use crate::protocol::opt_text;
use crate::text::{copy_texts, opt_texts, push_char, push_str, str_chars, texts};
use crate::text_order::{dedup_sorted, dedup_texts, sort_texts, sorted_texts};

verus! {

/// Build application for production
pub struct BuildCommand {
    /// Enable release mode optimizations
    pub release: bool,
    /// Build target (e.g., wasm32-unknown-unknown)
    pub target: Option<String>,
    /// Features to enable during compilation
    pub features: Vec<String>,
    /// Output directory for built assets
    pub out_dir: Option<String>,
    /// Target directory for Cargo build artifacts
    pub target_dir: Option<String>,
    /// Target package to build (for workspaces)
    pub package: Option<String>,
    /// Additional arguments to pass to cargo
    pub cargo_args: Vec<String>,
    /// Clean before building
    pub clean: bool,
    /// Verbose output
    pub verbose: bool,
}

/// The option given on the command line, else the configured one.
pub open spec fn either(cli: Option<Seq<char>>, configured: Option<Seq<char>>) -> Option<Seq<char>> {
    match cli {
        Some(t) => Some(t),
        None => configured,
    }
}

/// A flag and its value, if there is a value.
pub open spec fn flag(name: Seq<char>, value: Option<Seq<char>>) -> Seq<Seq<char>> {
    match value {
        Some(v) => seq![name, v],
        None => Seq::empty(),
    }
}

/// The arguments of `cargo clean`.
pub open spec fn clean_args_of(target_dir: Option<Seq<char>>, package: Option<Seq<char>>) -> Seq<Seq<char>> {
    seq!["clean"@] + flag("--target-dir"@, target_dir) + flag("--package"@, package)
}

/// The arguments of the production `cargo build`.
pub open spec fn production_args_of(
    release: bool,
    target: Option<Seq<char>>,
    target_dir: Option<Seq<char>>,
    package: Option<Seq<char>>,
    features: Seq<Seq<char>>,
    extra: Seq<Seq<char>>,
    verbose: bool,
) -> Seq<Seq<char>> {
    seq!["build"@] + (if release {
        seq!["--release"@]
    } else {
        Seq::empty()
    }) + flag("--target"@, target) + flag("--target-dir"@, target_dir) + flag("--package"@, package)
        + (if features.len() > 0 {
        seq!["--features"@, joined(features)]
    } else {
        Seq::empty()
    }) + extra + (if verbose {
        seq!["--verbose"@]
    } else {
        Seq::empty()
    })
}

/// The features of the command line and of the configuration, sorted, each
/// once.
pub open spec fn features_of(cli: Seq<Seq<char>>, configured: Option<Seq<Seq<char>>>) -> Seq<Seq<char>> {
    dedup_texts(
        sorted_texts(
            cli + match configured {
                Some(f) => f,
                None => Seq::empty(),
            },
        ),
    )
}

/// `p` taken relative to `root`: an absolute `p` stands as it is, otherwise
/// it follows `root` with a separator between them where `root` does not
/// end in one.
pub open spec fn join_path(root: Seq<char>, p: Seq<char>) -> Seq<char> {
    if p.len() > 0 && p[0] == '/' {
        p
    } else if root.len() == 0 || root.last() == '/' {
        root + p
    } else {
        root + "/"@ + p
    }
}

/// The environment of the build: the workspace root, the target directory
/// under it where one is configured, then the configured variables, each
/// name once and later values replacing earlier ones.
pub open spec fn build_env_of(root: Seq<char>, build: crate::config::BuildModel) -> Seq<(Seq<char>, Seq<char>)> {
    let base = put(Seq::empty(), "SHIPWRIGHT_WORKSPACE_ROOT"@, root);
    let with_target = match build.target_dir {
        Some(d) => put(base, "CARGO_TARGET_DIR"@, join_path(root, d)),
        None => base,
    };
    match build.environment {
        Some(vars) => put_all(with_target, vars),
        None => with_target,
    }
}

/// `s` with each of `vars` written in turn.
pub open spec fn put_all(s: Seq<(Seq<char>, Seq<char>)>, vars: Seq<(Seq<char>, Seq<char>)>) -> Seq<(Seq<char>, Seq<char>)>
    decreases vars.len(),
{
    if vars.len() == 0 {
        s
    } else {
        let t = put_all(s, vars.drop_last());
        put(t, vars.last().0, vars.last().1)
    }
}

/// `t` with every match of the non-empty `pat` replaced by `rep`, matches
/// taken from the left without overlapping.
pub open spec fn replaced(t: Seq<char>, pat: Seq<char>, rep: Seq<char>) -> Seq<char>
    decreases t.len(),
{
    if t.len() == 0 || pat.len() == 0 {
        t
    } else if pat.len() <= t.len() && t.subrange(0, pat.len() as int) == pat {
        rep + replaced(t.skip(pat.len() as int), pat, rep)
    } else {
        seq![t[0]] + replaced(t.skip(1), pat, rep)
    }
}

/// The index page: the template with its title, base path and application
/// name filled in; the title defaults to the application name, the base
/// path to `/`.
pub open spec fn index_page(template: Seq<char>, title: Option<Seq<char>>, base_path: Option<Seq<char>>, app_name: Seq<char>) -> Seq<char> {
    replaced(
        replaced(
            replaced(
                template,
                "{{title}}"@,
                match title {
                    Some(t) => t,
                    None => app_name,
                },
            ),
            "{{base_path}}"@,
            match base_path {
                Some(b) => b,
                None => "/"@,
            },
        ),
        "{{app_name}}"@,
        app_name,
    )
}

/// The piece of `t` after its last `::`, the separators found from the left
/// without overlapping, with the piece starting at `start`.
pub open spec fn last_piece_from(t: Seq<char>, i: int, start: int) -> Seq<char>
    decreases t.len() - i,
{
    if i < 0 || i >= t.len() {
        t.skip(start)
    } else if i + 2 <= t.len() && t[i] == ':' && t[i + 1] == ':' {
        last_piece_from(t, i + 2, i + 2)
    } else {
        last_piece_from(t, i + 1, start)
    }
}

/// Whether `pat` occurs in `cs` at `i`.
fn matches_at(cs: &Vec<char>, i: usize, pat: &Vec<char>) -> (r: bool)
    requires
        i <= cs@.len(),
    ensures
        r == (i + pat@.len() <= cs@.len() && cs@.subrange(i as int, i + pat@.len()) == pat@),
{
    if pat.len() > cs.len() - i {
        return false;
    }
    let mut k: usize = 0;
    let n = cs.len();
    while k < pat.len()
        invariant
            n == cs@.len(),
            i + pat@.len() <= n,
            k <= pat@.len(),
            forall|m: int| 0 <= m < k ==> cs@[i + m] == pat@[m],
        decreases pat@.len() - k,
    {
        if cs[i + k] != pat[k] {
            assert(cs@.subrange(i as int, i + pat@.len())[k as int] != pat@[k as int]);
            return false;
        }
        k = k + 1;
    }
    assert(cs@.subrange(i as int, i + pat@.len()) =~= pat@);
    true
}

/// `t` with every match of the non-empty `pat` replaced by `rep`.
pub fn replace_all(t: &str, pat: &str, rep: &str) -> (r: String)
    requires
        pat@.len() > 0,
    ensures
        r@ == replaced(t@, pat@, rep@),
{
    let cs = str_chars(t);
    let ps = str_chars(pat);
    let mut out = String::new();
    let mut i: usize = 0;
    assert(cs@.skip(0) =~= cs@);
    while i < cs.len()
        invariant
            i <= cs@.len(),
            ps@ == pat@,
            ps@.len() > 0,
            out@ + replaced(cs@.skip(i as int), pat@, rep@) == replaced(t@, pat@, rep@),
            cs@ == t@,
        decreases cs@.len() - i,
    {
        let ghost rest = cs@.skip(i as int);
        if matches_at(&cs, i, &ps) {
            proof {
                assert(rest.subrange(0, pat@.len() as int) =~= cs@.subrange(i as int, i + pat@.len()));
                assert(rest.skip(pat@.len() as int) =~= cs@.skip(i + pat@.len()));
            }
            push_str(&mut out, rep);
            i = i + ps.len();
            assert(out@ + replaced(cs@.skip(i as int), pat@, rep@) =~= replaced(t@, pat@, rep@));
        } else {
            proof {
                if pat@.len() <= rest.len() {
                    assert(rest.subrange(0, pat@.len() as int) =~= cs@.subrange(i as int, i + pat@.len()));
                }
                assert(rest.skip(1) =~= cs@.skip(i + 1));
                assert(rest[0] == cs@[i as int]);
            }
            push_char(&mut out, cs[i]);
            i = i + 1;
            assert(out@ + replaced(cs@.skip(i as int), pat@, rep@) =~= replaced(t@, pat@, rep@));
        }
    }
    assert(cs@.skip(i as int) =~= Seq::<char>::empty());
    assert(out@ + replaced(cs@.skip(i as int), pat@, rep@) =~= out@);
    out
}

/// The name of a binary target's file: the part of `name` after its last
/// `::`.
pub fn binary_file_name(name: &str) -> (r: String)
    ensures
        r@ == last_piece_from(name@, 0, 0),
{
    let cs = str_chars(name);
    let mut i: usize = 0;
    let mut start: usize = 0;
    while i < cs.len()
        invariant
            cs@ == name@,
            i <= cs@.len(),
            start <= i,
            last_piece_from(cs@, i as int, start as int) == last_piece_from(name@, 0, 0),
        decreases cs@.len() - i,
    {
        if i + 1 < cs.len() && cs[i] == ':' && cs[i + 1] == ':' {
            i = i + 2;
            start = i;
        } else {
            i = i + 1;
        }
    }
    let mut out = String::new();
    let mut k: usize = start;
    while k < cs.len()
        invariant
            start <= k <= cs@.len(),
            out@ == cs@.subrange(start as int, k as int),
        decreases cs@.len() - k,
    {
        push_char(&mut out, cs[k]);
        assert(cs@.subrange(start as int, k + 1) =~= cs@.subrange(start as int, k as int).push(cs@[k as int]));
        k = k + 1;
    }
    assert(cs@.subrange(start as int, k as int) =~= cs@.skip(start as int));
    out
}

/// `p` taken relative to `root`.
pub fn join_path_exec(root: &str, p: &str) -> (r: String)
    ensures
        r@ == join_path(root@, p@),
{
    let rs = str_chars(root);
    let ps = str_chars(p);
    let mut out = String::new();
    if ps.len() > 0 && ps[0] == '/' {
        push_str(&mut out, p);
        return out;
    }
    push_str(&mut out, root);
    if !(rs.len() == 0 || rs[rs.len() - 1] == '/') {
        push_str(&mut out, "/");
    }
    push_str(&mut out, p);
    out
}

/// Writes `value` under `name`.
fn set_var(env: &mut Vec<(String, String)>, name: &str, value: &str)
    requires
        unique_keys(crate::config::text_pairs(old(env)@)),
    ensures
        unique_keys(crate::config::text_pairs(final(env)@)),
        crate::config::text_pairs(final(env)@) == put(crate::config::text_pairs(old(env)@), name@, value@),
{
    let ghost before = crate::config::text_pairs(env@);
    proof {
        lemma_put(before, name@, value@);
    }
    let key = name.to_owned();
    match crate::keyed::position_of(env, &key) {
        Some(i) => {
            proof {
                assert(before[i as int].0 == name@);
                crate::keyed::lemma_key_pos(before, i as int);
            }
            env.set(i, (key, value.to_owned()));
            assert(crate::config::text_pairs(env@) =~= before.update(i as int, (name@, value@)));
        },
        None => {
            proof {
                if crate::keyed::has_key(before, name@) {
                    let k = crate::keyed::key_pos(before, name@);
                    assert(env@[k].0@ == name@);
                }
            }
            env.push((key, value.to_owned()));
            assert(crate::config::text_pairs(env@) =~= before.push((name@, value@)));
        },
    }
}

/// Pushes the flag `name` and its value, if there is a value.
fn push_flag(args: &mut Vec<String>, name: &str, value: &Option<String>)
    ensures
        texts(final(args)@) == texts(old(args)@) + flag(name@, opt_text(*value)),
{
    let ghost before = texts(args@);
    match value {
        Some(v) => {
            push_arg(args, name);
            push_arg(args, v.as_str());
        },
        None => {},
    }
    assert(texts(args@) =~= before + flag(name@, opt_text(*value)));
}

/// The value given on the command line, else the configured one.
fn either_exec(cli: &Option<String>, configured: &Option<String>) -> (r: Option<String>)
    ensures
        opt_text(r) == either(opt_text(*cli), opt_text(*configured)),
{
    match cli {
        Some(d) => Some(d.clone()),
        None => match configured {
            Some(d) => Some(d.clone()),
            None => None,
        },
    }
}

/// Pushes each of `extra`.
fn push_all(args: &mut Vec<String>, extra: &Vec<String>)
    ensures
        texts(final(args)@) == texts(old(args)@) + texts(extra@),
{
    let ghost head = texts(args@);
    let mut i: usize = 0;
    while i < extra.len()
        invariant
            i <= extra@.len(),
            texts(args@) == head + texts(extra@.subrange(0, i as int)),
        decreases extra@.len() - i,
    {
        push_arg(args, extra[i].as_str());
        assert(texts(extra@.subrange(0, i + 1)) =~= texts(extra@.subrange(0, i as int)).push(extra@[i as int]@));
        i = i + 1;
    }
    assert(extra@.subrange(0, i as int) =~= extra@);
}

impl BuildCommand {
    /// Release mode is on when asked for on the command line or in the
    /// configuration.
    pub fn release_mode(&self, build: &BuildConfig) -> (r: bool)
        ensures
            r == (self.release || build.release == Some(true)),
    {
        self.release || match build.release {
            Some(b) => b,
            None => false,
        }
    }

    /// The output directory: the one given, else the configured one, else
    /// `dist`.
    pub fn output_directory(&self, build: &BuildConfig) -> (r: String)
        ensures
            r@ == first_text(opt_text(self.out_dir), opt_text(build.out_dir), "dist"@),
    {
        pick_text(&self.out_dir, &build.out_dir, "dist")
    }

    /// The target directory: the one given, else the configured one.
    pub fn target_directory(&self, build: &BuildConfig) -> (r: Option<String>)
        ensures
            opt_text(r) == either(opt_text(self.target_dir), opt_text(build.target_dir)),
    {
        either_exec(&self.target_dir, &build.target_dir)
    }

    /// The features to build with: those given and those configured,
    /// sorted, each once.
    pub fn all_features(&self, build: &BuildConfig) -> (r: Vec<String>)
        ensures
            texts(r@) == features_of(texts(self.features@), opt_texts(build.features)),
    {
        let mut all = copy_texts(&self.features);
        let ghost cli = all@;
        match &build.features {
            Some(f) => {
                let mut i: usize = 0;
                while i < f.len()
                    invariant
                        i <= f@.len(),
                        all@ == cli + f@.subrange(0, i as int),
                    decreases f@.len() - i,
                {
                    all.push(f[i].clone());
                    assert(cli + f@.subrange(0, i + 1) =~= (cli + f@.subrange(0, i as int)).push(f@[i as int]));
                    i = i + 1;
                }
                assert(f@.subrange(0, i as int) =~= f@);
                assert(texts(all@) =~= texts(self.features@) + texts(f@));
            },
            None => {
                assert(texts(all@) =~= texts(self.features@) + Seq::<Seq<char>>::empty());
            },
        }
        sort_texts(&mut all);
        dedup_sorted(&all)
    }

    /// The arguments of `cargo clean`.
    pub fn clean_args(&self, build: &BuildConfig) -> (r: Vec<String>)
        ensures
            texts(r@) == clean_args_of(
                either(opt_text(self.target_dir), opt_text(build.target_dir)),
                opt_text(self.package),
            ),
    {
        let mut args: Vec<String> = Vec::new();
        push_arg(&mut args, "clean");
        let target_dir = self.target_directory(build);
        push_flag(&mut args, "--target-dir", &target_dir);
        push_flag(&mut args, "--package", &self.package);
        assert(texts(args@) =~= clean_args_of(
            either(opt_text(self.target_dir), opt_text(build.target_dir)),
            opt_text(self.package),
        ));
        args
    }

    /// The arguments of the production `cargo build`: the target given or
    /// configured, the target directory, the package given or else the
    /// workspace's main package, the features, the extra arguments.
    pub fn cargo_build_args(&self, build: &BuildConfig, main_package: &Option<String>, release: bool) -> (r: Vec<String>)
        ensures
            texts(r@) == production_args_of(
                release,
                either(opt_text(self.target), opt_text(build.target)),
                either(opt_text(self.target_dir), opt_text(build.target_dir)),
                either(opt_text(self.package), opt_text(*main_package)),
                features_of(texts(self.features@), opt_texts(build.features)),
                texts(self.cargo_args@),
                self.verbose,
            ),
    {
        let mut args: Vec<String> = Vec::new();
        push_arg(&mut args, "build");
        if release {
            push_arg(&mut args, "--release");
        }
        let ghost a1 = texts(args@);
        assert(a1 =~= seq!["build"@] + (if release {
            seq!["--release"@]
        } else {
            Seq::empty()
        }));
        let target = either_exec(&self.target, &build.target);
        push_flag(&mut args, "--target", &target);
        let target_dir = self.target_directory(build);
        push_flag(&mut args, "--target-dir", &target_dir);
        let package = either_exec(&self.package, main_package);
        push_flag(&mut args, "--package", &package);
        let ghost a4 = texts(args@);
        let features = self.all_features(build);
        if features.len() > 0 {
            push_arg(&mut args, "--features");
            let j = join_commas(&features);
            push_arg(&mut args, j.as_str());
        }
        let ghost a5 = texts(args@);
        assert(a5 =~= a4 + (if texts(features@).len() > 0 {
            seq!["--features"@, joined(texts(features@))]
        } else {
            Seq::empty()
        }));
        push_all(&mut args, &self.cargo_args);
        let ghost a6 = texts(args@);
        if self.verbose {
            push_arg(&mut args, "--verbose");
        }
        assert(texts(args@) =~= a6 + (if self.verbose {
            seq!["--verbose"@]
        } else {
            Seq::empty()
        }));
        args
    }
}

/// The environment of the build for the workspace at `root`.
pub fn build_env(root: &str, build: &BuildConfig) -> (r: Vec<(String, String)>)
    ensures
        unique_keys(crate::config::text_pairs(r@)),
        crate::config::text_pairs(r@) == build_env_of(root@, build@),
{
    let mut env: Vec<(String, String)> = Vec::new();
    assert(crate::config::text_pairs(env@) =~= Seq::<(Seq<char>, Seq<char>)>::empty());
    set_var(&mut env, "SHIPWRIGHT_WORKSPACE_ROOT", root);
    match &build.target_dir {
        Some(d) => {
            let joined_dir = join_path_exec(root, d.as_str());
            set_var(&mut env, "CARGO_TARGET_DIR", joined_dir.as_str());
        },
        None => {},
    }
    match &build.environment {
        Some(vars) => {
            let ghost start = crate::config::text_pairs(env@);
            let mut i: usize = 0;
            while i < vars.len()
                invariant
                    i <= vars@.len(),
                    unique_keys(crate::config::text_pairs(env@)),
                    crate::config::text_pairs(env@) == put_all(start, crate::config::text_pairs(vars@.subrange(0, i as int))),
                decreases vars@.len() - i,
            {
                proof {
                    let sub = crate::config::text_pairs(vars@.subrange(0, i + 1));
                    assert(sub.drop_last() =~= crate::config::text_pairs(vars@.subrange(0, i as int)));
                    assert(sub.last() == (vars@[i as int].0@, vars@[i as int].1@));
                }
                set_var(&mut env, vars[i].0.as_str(), vars[i].1.as_str());
                i = i + 1;
            }
            assert(vars@.subrange(0, i as int) =~= vars@);
        },
        None => {},
    }
    env
}

/// The index page rendered from `template` for an application named
/// `app_name` with web settings `web`.
pub fn render_index(template: &str, web: &WebConfig, app_name: &str) -> (r: String)
    ensures
        r@ == index_page(template@, opt_text(web.title), opt_text(web.base_path), app_name@),
{
    proof {
        reveal_strlit("{{title}}");
        reveal_strlit("{{base_path}}");
        reveal_strlit("{{app_name}}");
    }
    let title = match &web.title {
        Some(t) => t.clone(),
        None => app_name.to_owned(),
    };
    let base = match &web.base_path {
        Some(b) => b.clone(),
        None => "/".to_owned(),
    };
    let a = replace_all(template, "{{title}}", title.as_str());
    let b = replace_all(a.as_str(), "{{base_path}}", base.as_str());
    replace_all(b.as_str(), "{{app_name}}", app_name)
}

} // verus!
