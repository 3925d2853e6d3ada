//! Build and target configuration, diagnostics policy, and the transitive
//! package resolver.
//!
//! Configuration documents are parsed by the surrounding binary; this module
//! receives their already-extracted fields, validates them, and decides the
//! whole package-staging plan (which directories to create, which
//! repositories to clone, how each dependency target is remapped) from a
//! snapshot of the parsed configurations and the existing directories.

use vstd::prelude::*;
use vstd::string::*;
use crate::strutil::svs;
use crate::strutil::spec_tokens;
use crate::strutil::split_ws;
use crate::strutil::spec_replace;
use crate::strutil::replace_all;
use crate::strutil::spec_after_last;
use crate::strutil::lemma_after_last_at;
use crate::strutil::spec_normalize_path;
use crate::strutil::normalize_path;
use crate::strutil::rfind_char;
use crate::strutil::concat2;
use crate::strutil::concat3;
use crate::strutil::contains_string;
use crate::strutil::clone_string_vec;

verus! {

/// Diagnostic severity, least to most severe.
#[derive(Clone, Copy, Debug, PartialEq, Eq, Structural)]
pub enum LogLevel {
    Debug,
    Info,
    Log,
    Warn,
    Error,
}

impl LogLevel {
    /// Rank in declaration order.
    pub open spec fn spec_rank(self) -> int {
        match self {
            LogLevel::Debug => 0,
            LogLevel::Info => 1,
            LogLevel::Log => 2,
            LogLevel::Warn => 3,
            LogLevel::Error => 4,
        }
    }

    pub fn rank(self) -> (r: u8)
        ensures
            r as int == self.spec_rank(),
    {
        match self {
            LogLevel::Debug => 0,
            LogLevel::Info => 1,
            LogLevel::Log => 2,
            LogLevel::Warn => 3,
            LogLevel::Error => 4,
        }
    }
}

/// Whether a message at `level` is shown under the configured level: the
/// `Debug` setting shows debug, warning and error messages only; any other
/// setting shows every message of at least its own severity.
pub open spec fn spec_should_log(level: LogLevel, configured: LogLevel) -> bool {
    if configured == LogLevel::Debug {
        level == LogLevel::Debug || level == LogLevel::Warn || level == LogLevel::Error
    } else {
        level.spec_rank() >= configured.spec_rank()
    }
}

pub fn should_log(level: LogLevel, configured: LogLevel) -> (r: bool)
    ensures
        r == spec_should_log(level, configured),
{
    if configured == LogLevel::Debug {
        level == LogLevel::Debug || level == LogLevel::Warn || level == LogLevel::Error
    } else {
        level.rank() >= configured.rank()
    }
}

/// The level a configuration string selects; anything unrecognized selects
/// `Log`.
pub open spec fn spec_level_from_name(s: Seq<char>) -> LogLevel {
    if s == "Debug"@ {
        LogLevel::Debug
    } else if s == "Info"@ {
        LogLevel::Info
    } else if s == "Log"@ {
        LogLevel::Log
    } else if s == "Warn"@ {
        LogLevel::Warn
    } else if s == "Error"@ {
        LogLevel::Error
    } else {
        LogLevel::Log
    }
}

pub fn level_from_name(s: &str) -> (r: LogLevel)
    ensures
        r == spec_level_from_name(s@),
{
    if str_eq(s, "Debug") {
        LogLevel::Debug
    } else if str_eq(s, "Info") {
        LogLevel::Info
    } else if str_eq(s, "Log") {
        LogLevel::Log
    } else if str_eq(s, "Warn") {
        LogLevel::Warn
    } else if str_eq(s, "Error") {
        LogLevel::Error
    } else {
        LogLevel::Log
    }
}

fn str_eq(a: &str, b: &str) -> (r: bool)
    ensures
        r == (a@ == b@),
{
    let n = a.unicode_len();
    let m = b.unicode_len();
    if n != m {
        return false;
    }
    let mut i: usize = 0;
    while i < n
        invariant
            i <= n,
            n == a@.len(),
            n == b@.len(),
            forall|j: int| 0 <= j < i ==> a@[j] == b@[j],
        decreases n - i,
    {
        if a.get_char(i) != b.get_char(i) {
            return false;
        }
        i += 1;
    }
    proof {
        assert(a@ =~= b@);
    }
    true
}

/// Output kind of a target, a closed enumeration.
#[derive(Clone, Copy, Debug, PartialEq, Eq, Structural)]
pub enum TargetKind {
    Executable,
    SharedLibrary,
}

/// Project-wide build settings.
#[derive(Debug)]
pub struct BuildConfig {
    pub compiler: String,
    pub build_dir: String,
    pub obj_dir: String,
    pub packages: Vec<String>,
}

/// One buildable target's settings.
#[derive(Debug)]
pub struct TargetConfig {
    pub name: String,
    pub src: String,
    pub include_dir: String,
    pub typ: TargetKind,
    pub cflags: String,
    pub libs: String,
    pub deps: Vec<String>,
}

/// Spec-level image of a `BuildConfig`.
pub struct BcM {
    pub compiler: Seq<char>,
    pub build_dir: Seq<char>,
    pub obj_dir: Seq<char>,
    pub packages: Seq<Seq<char>>,
}

/// Spec-level image of a `TargetConfig`.
pub struct TcM {
    pub name: Seq<char>,
    pub src: Seq<char>,
    pub include_dir: Seq<char>,
    pub typ: TargetKind,
    pub cflags: Seq<char>,
    pub libs: Seq<char>,
    pub deps: Seq<Seq<char>>,
}

pub open spec fn bc_model(c: BuildConfig) -> BcM {
    BcM {
        compiler: c.compiler@,
        build_dir: c.build_dir@,
        obj_dir: c.obj_dir@,
        packages: svs(c.packages@),
    }
}

pub open spec fn tc_model(c: TargetConfig) -> TcM {
    TcM {
        name: c.name@,
        src: c.src@,
        include_dir: c.include_dir@,
        typ: c.typ,
        cflags: c.cflags@,
        libs: c.libs@,
        deps: svs(c.deps@),
    }
}

pub open spec fn tcs_model(s: Seq<TargetConfig>) -> Seq<TcM> {
    Seq::new(s.len(), |i: int| tc_model(s[i]))
}

pub fn clone_build_config(c: &BuildConfig) -> (r: BuildConfig)
    ensures
        bc_model(r) == bc_model(*c),
{
    let r = BuildConfig {
        compiler: c.compiler.clone(),
        build_dir: c.build_dir.clone(),
        obj_dir: c.obj_dir.clone(),
        packages: clone_string_vec(&c.packages),
    };
    proof {
        assert(bc_model(r) =~= bc_model(*c));
    }
    r
}

/// Configuration rejection: a project must declare at least one target and
/// exactly one executable target.
#[derive(Clone, Copy, Debug, PartialEq, Eq, Structural)]
pub enum ConfigError {
    NoTargets,
    ExeCountNotOne,
}

/// How many targets declare executable output.
pub open spec fn spec_count_exes(ts: Seq<TargetConfig>) -> int
    decreases ts.len(),
{
    if ts.len() == 0 {
        0
    } else {
        (if ts[0].typ == TargetKind::Executable {
            1int
        } else {
            0int
        }) + spec_count_exes(ts.drop_first())
    }
}

proof fn lemma_count_exes_bounds(ts: Seq<TargetConfig>)
    ensures
        0 <= spec_count_exes(ts) <= ts.len(),
    decreases ts.len(),
{
    if ts.len() == 0 {
    } else {
        lemma_count_exes_bounds(ts.drop_first());
    }
}

/// Accepts a target list exactly when it is non-empty and declares exactly
/// one executable target; checked before any compilation is attempted.
pub fn validate_targets(ts: &Vec<TargetConfig>) -> (r: Result<(), ConfigError>)
    ensures
        r == Ok::<(), ConfigError>(()) <==> (ts@.len() > 0 && spec_count_exes(ts@) == 1),
        r == Err::<(), ConfigError>(ConfigError::NoTargets) <==> ts@.len() == 0,
        r == Err::<(), ConfigError>(ConfigError::ExeCountNotOne) <==> (ts@.len() > 0
            && spec_count_exes(ts@) != 1),
{
    if ts.len() == 0 {
        return Err(ConfigError::NoTargets);
    }
    let ghost whole = ts@;
    let mut count: usize = 0;
    let mut i: usize = 0;
    proof {
        assert(whole.skip(0) =~= whole);
        lemma_count_exes_bounds(whole);
    }
    while i < ts.len()
        invariant
            i <= ts.len(),
            whole == ts@,
            count <= i,
            spec_count_exes(whole) == count + spec_count_exes(whole.skip(i as int)),
        decreases ts.len() - i,
    {
        proof {
            assert(whole.skip(i as int)[0] == whole[i as int]);
            assert(whole.skip(i as int).drop_first() =~= whole.skip(i + 1 as int));
            lemma_count_exes_bounds(whole.skip(i + 1 as int));
        }
        if ts[i].typ == TargetKind::Executable {
            count += 1;
        }
        i += 1;
    }
    proof {
        assert(whole.skip(ts@.len() as int) =~= Seq::<TargetConfig>::empty());
    }
    if count == 1 {
        Ok(())
    } else {
        Err(ConfigError::ExeCountNotOne)
    }
}

/// A resolved package record: a remote dependency project, its merged
/// build settings and its remapped shared-library targets.
#[derive(Debug)]
pub struct Package {
    pub name: String,
    pub repo: String,
    pub branch: String,
    pub build_config: BuildConfig,
    pub target_configs: Vec<TargetConfig>,
}

/// Spec-level image of a `Package`.
pub struct PkgM {
    pub name: Seq<char>,
    pub repo: Seq<char>,
    pub branch: Seq<char>,
    pub build: BcM,
    pub targets: Seq<TcM>,
}

pub open spec fn pkg_model(p: Package) -> PkgM {
    PkgM {
        name: p.name@,
        repo: p.repo@,
        branch: p.branch@,
        build: bc_model(p.build_config),
        targets: tcs_model(p.target_configs@),
    }
}

pub open spec fn pkgs_model(s: Seq<Package>) -> Seq<PkgM> {
    Seq::new(s.len(), |i: int| pkg_model(s[i]))
}

/// A filesystem or network effect that package staging requires; effects
/// are performed by the surrounding binary, in order.
#[derive(Debug)]
pub enum PkgAction {
    MkdirP(String),
    CloneRepo { url: String, branch: String, dest: String },
    CopyIncludes { from: String, to: String },
}

/// Spec-level image of a `PkgAction`.
pub enum ActM {
    MkdirP(Seq<char>),
    CloneRepo { url: Seq<char>, branch: Seq<char>, dest: Seq<char> },
    CopyIncludes { from: Seq<char>, to: Seq<char> },
}

pub open spec fn act_model(a: PkgAction) -> ActM {
    match a {
        PkgAction::MkdirP(d) => ActM::MkdirP(d@),
        PkgAction::CloneRepo { url, branch, dest } => ActM::CloneRepo {
            url: url@,
            branch: branch@,
            dest: dest@,
        },
        PkgAction::CopyIncludes { from, to } => ActM::CopyIncludes { from: from@, to: to@ },
    }
}

pub open spec fn acts_model(s: Seq<PkgAction>) -> Seq<ActM> {
    Seq::new(s.len(), |i: int| act_model(s[i]))
}

/// Package resolution failure. A malformed declaration or an unreachable
/// configuration blocks downstream target construction and is fatal; a
/// missing configuration tells the caller which file to fetch and parse.
#[derive(Debug)]
pub enum PackageError {
    MalformedDecl(String),
    MissingConfig(String),
    DepthExceeded,
}

/// Spec-level image of a `PackageError`.
pub enum PkgErrM {
    MalformedDecl(Seq<char>),
    MissingConfig(Seq<char>),
    DepthExceeded,
}

pub open spec fn pkg_err_model(e: PackageError) -> PkgErrM {
    match e {
        PackageError::MalformedDecl(d) => PkgErrM::MalformedDecl(d@),
        PackageError::MissingConfig(p) => PkgErrM::MissingConfig(p@),
        PackageError::DepthExceeded => PkgErrM::DepthExceeded,
    }
}

/// One parsed configuration document in the snapshot handed to resolution.
#[derive(Debug)]
pub struct ConfigEntry {
    pub path: String,
    pub build: BuildConfig,
    pub targets: Vec<TargetConfig>,
}

/// Spec-level image of a parsed configuration.
pub struct CfgM {
    pub build: BcM,
    pub targets: Seq<TcM>,
}

pub open spec fn store_model(s: Seq<ConfigEntry>) -> Seq<(Seq<char>, CfgM)> {
    Seq::new(
        s.len(),
        |i: int|
            (
                s[i].path@,
                CfgM { build: bc_model(s[i].build), targets: tcs_model(s[i].targets@) },
            ),
    )
}

pub open spec fn spec_store_lookup(m: Seq<(Seq<char>, CfgM)>, key: Seq<char>) -> Option<CfgM>
    decreases m.len(),
{
    if m.len() == 0 {
        None
    } else if m[0].0 == key {
        Some(m[0].1)
    } else {
        spec_store_lookup(m.drop_first(), key)
    }
}

fn store_lookup<'a>(store: &'a Vec<ConfigEntry>, key: &String) -> (r: Option<&'a ConfigEntry>)
    ensures
        match r {
            Some(e) => spec_store_lookup(store_model(store@), key@) == Some(
                CfgM { build: bc_model(e.build), targets: tcs_model(e.targets@) },
            ),
            None => spec_store_lookup(store_model(store@), key@) is None,
        },
{
    let ghost m = store_model(store@);
    let mut i: usize = 0;
    proof {
        assert(m.skip(0) =~= m);
    }
    while i < store.len()
        invariant
            i <= store.len(),
            m == store_model(store@),
            m.len() == store@.len(),
            spec_store_lookup(m, key@) == spec_store_lookup(m.skip(i as int), key@),
        decreases store.len() - i,
    {
        if store[i].path == *key {
            proof {
                assert(m.skip(i as int)[0] == m[i as int]);
            }
            return Some(&store[i]);
        }
        proof {
            assert(m.skip(i as int)[0] == m[i as int]);
            assert(m.skip(i as int).drop_first() =~= m.skip(i + 1 as int));
        }
        i += 1;
    }
    proof {
        assert(m.skip(store@.len() as int) =~= Seq::<(Seq<char>, CfgM)>::empty());
    }
    None
}

/// A declaration is well formed when it has exactly two whitespace
/// separated tokens: `"<org/repo>, <branch>"`.
pub open spec fn spec_decl_wellformed(d: Seq<char>) -> bool {
    spec_tokens(d).len() == 2
}

/// The repository of a declaration: its first token, commas removed.
pub open spec fn spec_repo_of_decl(d: Seq<char>) -> Seq<char> {
    spec_replace(spec_tokens(d)[0], ","@, ""@)
}

/// The branch of a declaration: its second token.
pub open spec fn spec_branch_of_decl(d: Seq<char>) -> Seq<char> {
    spec_tokens(d)[1]
}

/// A package's local name: the final path segment of its repository.
pub open spec fn spec_name_of_repo(repo: Seq<char>) -> Seq<char> {
    spec_after_last(repo, '/')
}

pub fn name_of_repo(repo: &str) -> (r: String)
    ensures
        r@ == spec_name_of_repo(repo@),
{
    let n = repo.unicode_len();
    match rfind_char(repo, '/') {
        Some(k) => {
            proof {
                lemma_after_last_at(repo@, '/', k as int);
            }
            repo.substring_char(k + 1, n).to_owned()
        },
        None => {
            proof {
                lemma_after_last_at(repo@, '/', -1);
                assert(repo@.skip(0) =~= repo@);
            }
            repo.to_owned()
        },
    }
}

/// Where a package's repository is staged.
pub open spec fn spec_source_dir(name: Seq<char>) -> Seq<char> {
    "./.bld_cpp/sources/"@ + name + "/"@
}

pub fn source_dir_of(name: &str) -> (r: String)
    ensures
        r@ == spec_source_dir(name@),
{
    concat3("./.bld_cpp/sources/", name, "/")
}

/// The clone URL of a repository.
pub open spec fn spec_clone_url(repo: Seq<char>) -> Seq<char> {
    "https://github.com/"@ + repo
}

/// A staged package's configuration document.
pub open spec fn spec_pkg_config_path(sdir: Seq<char>) -> Seq<char> {
    sdir + "/config_linux.toml"@
}

/// The private include staging directory of a package.
pub open spec fn spec_include_stage_dir(name: Seq<char>) -> Seq<char> {
    spec_normalize_path("./.bld_cpp/includes/"@ + name)
}

/// Outcome of staging a package's targets.
pub struct StageResM {
    pub targets: Seq<TcM>,
    pub actions: Seq<ActM>,
    pub created: Seq<Seq<char>>,
}

/// Outcome of resolving a declaration list.
pub struct PkgResM {
    pub result: Result<Seq<PkgM>, PkgErrM>,
    pub actions: Seq<ActM>,
    pub created: Seq<Seq<char>>,
}

/// Stages a dependency's targets: executables are skipped (they cannot be
/// linked as libraries); each shared-library target has its source root
/// rewritten into the staged clone and its include root into the package's
/// private include staging directory, which is created and populated from
/// the dependency's original include tree when first needed.
pub open spec fn spec_stage_targets(
    tgts: Seq<TcM>,
    sdir: Seq<char>,
    name: Seq<char>,
    dirs: Seq<Seq<char>>,
    actions: Seq<ActM>,
    created: Seq<Seq<char>>,
) -> StageResM
    decreases tgts.len(),
{
    if tgts.len() == 0 {
        StageResM { targets: Seq::empty(), actions, created }
    } else {
        let t = tgts[0];
        if t.typ != TargetKind::SharedLibrary {
            spec_stage_targets(tgts.drop_first(), sdir, name, dirs, actions, created)
        } else {
            let src2 = spec_normalize_path(sdir + "/"@ + t.src);
            let incdir = spec_include_stage_dir(name);
            let need = !dirs.contains(incdir) && !created.contains(incdir);
            let from = spec_normalize_path(sdir + "/"@ + t.include_dir);
            let actions1 = if need {
                actions.push(ActM::MkdirP(incdir)).push(ActM::CopyIncludes { from, to: incdir })
            } else {
                actions
            };
            let created1 = if need {
                created.push(incdir)
            } else {
                created
            };
            let t2 = TcM {
                name: t.name,
                src: src2,
                include_dir: incdir,
                typ: t.typ,
                cflags: t.cflags,
                libs: t.libs,
                deps: t.deps,
            };
            let rest = spec_stage_targets(tgts.drop_first(), sdir, name, dirs, actions1, created1);
            StageResM {
                targets: seq![t2] + rest.targets,
                actions: rest.actions,
                created: rest.created,
            }
        }
    }
}

/// Resolves a declaration list depth first: for each declaration, the
/// staging directory is created and the repository cloned only when the
/// directory does not exist yet; the dependency's own declarations are
/// resolved first and their records come ahead of its own; its build
/// settings are overwritten with the root caller's compiler and output
/// directories.
pub open spec fn spec_resolve_decls(
    store: Seq<(Seq<char>, CfgM)>,
    dirs: Seq<Seq<char>>,
    root: BcM,
    decls: Seq<Seq<char>>,
    actions: Seq<ActM>,
    created: Seq<Seq<char>>,
    fuel: nat,
) -> PkgResM
    decreases fuel, decls.len(),
{
    if decls.len() == 0 {
        PkgResM { result: Ok(Seq::empty()), actions, created }
    } else {
        let d = decls[0];
        if !spec_decl_wellformed(d) {
            PkgResM { result: Err(PkgErrM::MalformedDecl(d)), actions, created }
        } else {
            let repo = spec_repo_of_decl(d);
            let branch = spec_branch_of_decl(d);
            let name = spec_name_of_repo(repo);
            let sdir = spec_source_dir(name);
            let need_clone = !dirs.contains(sdir) && !created.contains(sdir);
            let actions1 = if need_clone {
                actions.push(ActM::MkdirP(sdir)).push(
                    ActM::CloneRepo { url: spec_clone_url(repo), branch, dest: sdir },
                )
            } else {
                actions
            };
            let created1 = if need_clone {
                created.push(sdir)
            } else {
                created
            };
            let cfgpath = spec_pkg_config_path(sdir);
            match spec_store_lookup(store, cfgpath) {
                None => PkgResM {
                    result: Err(PkgErrM::MissingConfig(cfgpath)),
                    actions: actions1,
                    created: created1,
                },
                Some(cfg) => {
                    let nested = if cfg.build.packages.len() > 0 {
                        if fuel == 0 {
                            PkgResM {
                                result: Err(PkgErrM::DepthExceeded),
                                actions: actions1,
                                created: created1,
                            }
                        } else {
                            spec_resolve_decls(
                                store,
                                dirs,
                                root,
                                cfg.build.packages,
                                actions1,
                                created1,
                                (fuel - 1) as nat,
                            )
                        }
                    } else {
                        PkgResM { result: Ok(Seq::empty()), actions: actions1, created: created1 }
                    };
                    match nested.result {
                        Err(e) => PkgResM {
                            result: Err(e),
                            actions: nested.actions,
                            created: nested.created,
                        },
                        Ok(nested_pkgs) => {
                            let merged = BcM {
                                compiler: root.compiler,
                                build_dir: root.build_dir,
                                obj_dir: root.obj_dir,
                                packages: cfg.build.packages,
                            };
                            let need_obj = !dirs.contains(root.obj_dir) && !nested.created.contains(
                                root.obj_dir,
                            );
                            let actions2 = if need_obj {
                                nested.actions.push(ActM::MkdirP(root.obj_dir))
                            } else {
                                nested.actions
                            };
                            let created2 = if need_obj {
                                nested.created.push(root.obj_dir)
                            } else {
                                nested.created
                            };
                            let st = spec_stage_targets(
                                cfg.targets,
                                sdir,
                                name,
                                dirs,
                                actions2,
                                created2,
                            );
                            let rec = PkgM { name, repo, branch, build: merged, targets: st.targets };
                            let rest = spec_resolve_decls(
                                store,
                                dirs,
                                root,
                                decls.drop_first(),
                                st.actions,
                                st.created,
                                fuel,
                            );
                            match rest.result {
                                Err(e) => PkgResM {
                                    result: Err(e),
                                    actions: rest.actions,
                                    created: rest.created,
                                },
                                Ok(rest_pkgs) => PkgResM {
                                    result: Ok(nested_pkgs + seq![rec] + rest_pkgs),
                                    actions: rest.actions,
                                    created: rest.created,
                                },
                            }
                        },
                    }
                },
            }
        }
    }
}

/// Resolution from a root configuration: its own build settings are the
/// values merged into every transitively resolved package.
pub open spec fn spec_resolve_packages(
    store: Seq<(Seq<char>, CfgM)>,
    dirs: Seq<Seq<char>>,
    path: Seq<char>,
    fuel: nat,
) -> PkgResM {
    match spec_store_lookup(store, path) {
        None => PkgResM {
            result: Err(PkgErrM::MissingConfig(path)),
            actions: Seq::empty(),
            created: Seq::empty(),
        },
        Some(cfg) => spec_resolve_decls(
            store,
            dirs,
            cfg.build,
            cfg.build.packages,
            Seq::empty(),
            Seq::empty(),
            fuel,
        ),
    }
}

/// `a1` extends `a0` and every action it adds that clones targets a
/// directory absent from `dirs`.
pub open spec fn spec_extends_no_new_clone(dirs: Seq<Seq<char>>, a0: Seq<ActM>, a1: Seq<ActM>) -> bool {
    a1.len() >= a0.len() && (forall|j: int| 0 <= j < a0.len() ==> a1[j] == a0[j]) && (forall|j: int|
        a0.len() <= j < a1.len() ==> ((#[trigger] a1[j]) matches ActM::CloneRepo {
            url,
            branch,
            dest,
        } ==> !dirs.contains(dest)))
}

proof fn lemma_extends_trans(dirs: Seq<Seq<char>>, a: Seq<ActM>, b: Seq<ActM>, c: Seq<ActM>)
    requires
        spec_extends_no_new_clone(dirs, a, b),
        spec_extends_no_new_clone(dirs, b, c),
    ensures
        spec_extends_no_new_clone(dirs, a, c),
{
    assert forall|j: int| 0 <= j < a.len() implies c[j] == a[j] by {
        assert(b[j] == a[j]);
        assert(c[j] == b[j]);
    }
    assert forall|j: int|
        a.len() <= j < c.len() implies ((#[trigger] c[j]) matches ActM::CloneRepo {
        url,
        branch,
        dest,
    } ==> !dirs.contains(dest)) by {
        if j < b.len() {
            assert(c[j] == b[j]);
            assert(b[j] == b[j]);
        }
    }
}

/// Staging a package's targets never clones: it only creates directories
/// and copies include trees, and it keeps the actions already planned.
pub proof fn lemma_stage_actions(
    tgts: Seq<TcM>,
    sdir: Seq<char>,
    name: Seq<char>,
    dirs: Seq<Seq<char>>,
    actions: Seq<ActM>,
    created: Seq<Seq<char>>,
)
    ensures
        spec_extends_no_new_clone(
            dirs,
            actions,
            spec_stage_targets(tgts, sdir, name, dirs, actions, created).actions,
        ),
    decreases tgts.len(),
{
    if tgts.len() == 0 {
    } else {
        let t = tgts[0];
        if t.typ != TargetKind::SharedLibrary {
            lemma_stage_actions(tgts.drop_first(), sdir, name, dirs, actions, created);
        } else {
            let incdir = spec_include_stage_dir(name);
            let need = !dirs.contains(incdir) && !created.contains(incdir);
            let from = spec_normalize_path(sdir + "/"@ + t.include_dir);
            let actions1 = if need {
                actions.push(ActM::MkdirP(incdir)).push(ActM::CopyIncludes { from, to: incdir })
            } else {
                actions
            };
            let created1 = if need {
                created.push(incdir)
            } else {
                created
            };
            assert(spec_extends_no_new_clone(dirs, actions, actions1));
            lemma_stage_actions(tgts.drop_first(), sdir, name, dirs, actions1, created1);
            lemma_extends_trans(
                dirs,
                actions,
                actions1,
                spec_stage_targets(tgts.drop_first(), sdir, name, dirs, actions1, created1).actions,
            );
        }
    }
}

/// Every clone that resolution plans targets a staging directory that did
/// not exist: resolving against an already fully staged filesystem plans
/// no clone at all, and the actions already planned are kept.
pub proof fn lemma_clones_only_for_missing_dirs(
    store: Seq<(Seq<char>, CfgM)>,
    dirs: Seq<Seq<char>>,
    root: BcM,
    decls: Seq<Seq<char>>,
    actions: Seq<ActM>,
    created: Seq<Seq<char>>,
    fuel: nat,
)
    ensures
        spec_extends_no_new_clone(
            dirs,
            actions,
            spec_resolve_decls(store, dirs, root, decls, actions, created, fuel).actions,
        ),
    decreases fuel, decls.len(),
{
    if decls.len() == 0 {
    } else {
        let d = decls[0];
        if !spec_decl_wellformed(d) {
        } else {
            let repo = spec_repo_of_decl(d);
            let name = spec_name_of_repo(repo);
            let sdir = spec_source_dir(name);
            let need_clone = !dirs.contains(sdir) && !created.contains(sdir);
            let actions1 = if need_clone {
                actions.push(ActM::MkdirP(sdir)).push(
                    ActM::CloneRepo {
                        url: spec_clone_url(repo),
                        branch: spec_branch_of_decl(d),
                        dest: sdir,
                    },
                )
            } else {
                actions
            };
            let created1 = if need_clone {
                created.push(sdir)
            } else {
                created
            };
            assert(spec_extends_no_new_clone(dirs, actions, actions1));
            let cfgpath = spec_pkg_config_path(sdir);
            match spec_store_lookup(store, cfgpath) {
                None => {},
                Some(cfg) => {
                    let nested = if cfg.build.packages.len() > 0 {
                        if fuel == 0 {
                            PkgResM {
                                result: Err(PkgErrM::DepthExceeded),
                                actions: actions1,
                                created: created1,
                            }
                        } else {
                            spec_resolve_decls(
                                store,
                                dirs,
                                root,
                                cfg.build.packages,
                                actions1,
                                created1,
                                (fuel - 1) as nat,
                            )
                        }
                    } else {
                        PkgResM { result: Ok(Seq::empty()), actions: actions1, created: created1 }
                    };
                    if cfg.build.packages.len() > 0 && fuel > 0 {
                        lemma_clones_only_for_missing_dirs(
                            store,
                            dirs,
                            root,
                            cfg.build.packages,
                            actions1,
                            created1,
                            (fuel - 1) as nat,
                        );
                    }
                    assert(spec_extends_no_new_clone(dirs, actions1, nested.actions));
                    lemma_extends_trans(dirs, actions, actions1, nested.actions);
                    match nested.result {
                        Err(e) => {},
                        Ok(nested_pkgs) => {
                            let need_obj = !dirs.contains(root.obj_dir) && !nested.created.contains(
                                root.obj_dir,
                            );
                            let actions2 = if need_obj {
                                nested.actions.push(ActM::MkdirP(root.obj_dir))
                            } else {
                                nested.actions
                            };
                            let created2 = if need_obj {
                                nested.created.push(root.obj_dir)
                            } else {
                                nested.created
                            };
                            assert(spec_extends_no_new_clone(dirs, nested.actions, actions2));
                            let st = spec_stage_targets(
                                cfg.targets,
                                sdir,
                                name,
                                dirs,
                                actions2,
                                created2,
                            );
                            lemma_stage_actions(cfg.targets, sdir, name, dirs, actions2, created2);
                            let rest = spec_resolve_decls(
                                store,
                                dirs,
                                root,
                                decls.drop_first(),
                                st.actions,
                                st.created,
                                fuel,
                            );
                            lemma_clones_only_for_missing_dirs(
                                store,
                                dirs,
                                root,
                                decls.drop_first(),
                                st.actions,
                                st.created,
                                fuel,
                            );
                            lemma_extends_trans(dirs, actions, nested.actions, actions2);
                            lemma_extends_trans(dirs, actions, actions2, st.actions);
                            lemma_extends_trans(dirs, actions, st.actions, rest.actions);
                        },
                    }
                },
            }
        }
    }
}

fn stage_targets(
    tgts: &Vec<TargetConfig>,
    j: usize,
    sdir: &String,
    name: &String,
    dirs: &Vec<String>,
    actions: &mut Vec<PkgAction>,
    created: &mut Vec<String>,
) -> (r: Vec<TargetConfig>)
    requires
        j <= tgts@.len(),
    ensures
        ({
            let sr = spec_stage_targets(
                tcs_model(tgts@).skip(j as int),
                sdir@,
                name@,
                svs(dirs@),
                acts_model(old(actions)@),
                svs(old(created)@),
            );
            tcs_model(r@) == sr.targets && acts_model(final(actions)@) == sr.actions && svs(
                final(created)@,
            ) == sr.created
        }),
    decreases tgts@.len() - j,
{
    let ghost rest0 = tcs_model(tgts@).skip(j as int);
    if j == tgts.len() {
        let r: Vec<TargetConfig> = Vec::new();
        proof {
            assert(rest0 =~= Seq::<TcM>::empty());
            assert(tcs_model(r@) =~= Seq::<TcM>::empty());
        }
        return r;
    }
    proof {
        assert(rest0[0] == tcs_model(tgts@)[j as int]);
        assert(rest0.drop_first() =~= tcs_model(tgts@).skip(j + 1 as int));
    }
    let t = &tgts[j];
    if t.typ == TargetKind::SharedLibrary {
        let src2 = normalize_path(concat3(sdir.as_str(), "/", t.src.as_str()).as_str());
        let incdir = normalize_path(concat2("./.bld_cpp/includes/", name.as_str()).as_str());
        let in_dirs = contains_string(dirs, &incdir);
        let in_created = contains_string(created, &incdir);
        if !in_dirs && !in_created {
            let from = normalize_path(concat3(sdir.as_str(), "/", t.include_dir.as_str()).as_str());
            let ghost am0 = acts_model(actions@);
            actions.push(PkgAction::MkdirP(incdir.clone()));
            proof {
                assert(acts_model(actions@) =~= am0.push(ActM::MkdirP(incdir@)));
            }
            let ghost am1 = acts_model(actions@);
            actions.push(PkgAction::CopyIncludes { from, to: incdir.clone() });
            proof {
                assert(acts_model(actions@) =~= am1.push(
                    ActM::CopyIncludes {
                        from: spec_normalize_path(sdir@ + "/"@ + tgts@[j as int].include_dir@),
                        to: incdir@,
                    },
                ));
            }
            let ghost cm0 = svs(created@);
            created.push(incdir.clone());
            proof {
                assert(svs(created@) =~= cm0.push(incdir@));
            }
        }
        let t2 = TargetConfig {
            name: t.name.clone(),
            src: src2,
            include_dir: incdir,
            typ: t.typ,
            cflags: t.cflags.clone(),
            libs: t.libs.clone(),
            deps: clone_string_vec(&t.deps),
        };
        let mut rest = stage_targets(tgts, j + 1, sdir, name, dirs, actions, created);
        let mut out: Vec<TargetConfig> = Vec::new();
        out.push(t2);
        let ghost head = tcs_model(out@);
        let ghost tailm = tcs_model(rest@);
        out.append(&mut rest);
        proof {
            assert(tcs_model(out@) =~= head + tailm);
            assert(head =~= seq![
                TcM {
                    name: tgts@[j as int].name@,
                    src: spec_normalize_path(sdir@ + "/"@ + tgts@[j as int].src@),
                    include_dir: spec_include_stage_dir(name@),
                    typ: tgts@[j as int].typ,
                    cflags: tgts@[j as int].cflags@,
                    libs: tgts@[j as int].libs@,
                    deps: svs(tgts@[j as int].deps@),
                },
            ]);
        }
        out
    } else {
        stage_targets(tgts, j + 1, sdir, name, dirs, actions, created)
    }
}

impl Package {
    /// Bundles the parts of a resolved package record.
    pub fn new(
        name: String,
        repo: String,
        branch: String,
        build_config: BuildConfig,
        target_configs: Vec<TargetConfig>,
    ) -> (r: Package)
        ensures
            pkg_model(r) == (PkgM {
                name: name@,
                repo: repo@,
                branch: branch@,
                build: bc_model(build_config),
                targets: tcs_model(target_configs@),
            }),
    {
        Package { name, repo, branch, build_config, target_configs }
    }

    /// Resolves every package declared by the configuration at `path`,
    /// transitively and depth first, against a snapshot of parsed
    /// configurations (`store`) and existing directories (`dirs`). Returns
    /// the flattened records together with the filesystem and network
    /// effects the staging requires, in order. A missing configuration is
    /// reported so the caller can clone and parse it and retry.
    pub fn parse_packages(store: &Vec<ConfigEntry>, dirs: &Vec<String>, path: &String) -> (r: (
        Result<Vec<Package>, PackageError>,
        Vec<PkgAction>,
    ))
        requires
            store@.len() < usize::MAX,
        ensures
            ({
                let sr = spec_resolve_packages(
                    store_model(store@),
                    svs(dirs@),
                    path@,
                    store@.len() + 1,
                );
                acts_model(r.1@) == sr.actions && (match r.0 {
                    Ok(v) => sr.result == Ok::<Seq<PkgM>, PkgErrM>(pkgs_model(v@)),
                    Err(e) => sr.result is Err && pkg_err_model(e) == sr.result->Err_0,
                })
            }),
    {
        let fuel = store.len() + 1;
        let mut actions: Vec<PkgAction> = Vec::new();
        let mut created: Vec<String> = Vec::new();
        proof {
            assert(acts_model(actions@) =~= Seq::<ActM>::empty());
            assert(svs(created@) =~= Seq::<Seq<char>>::empty());
        }
        match store_lookup(store, path) {
            None => (Err(PackageError::MissingConfig(path.clone())), actions),
            Some(entry) => {
                let root = clone_build_config(&entry.build);
                let ghost decls0 = svs(entry.build.packages@);
                let r = resolve_decls(
                    store,
                    dirs,
                    &root,
                    &entry.build.packages,
                    0,
                    &mut actions,
                    &mut created,
                    fuel,
                );
                proof {
                    assert(decls0.skip(0) =~= decls0);
                }
                (r, actions)
            },
        }
    }
}

fn resolve_decls(
    store: &Vec<ConfigEntry>,
    dirs: &Vec<String>,
    root: &BuildConfig,
    decls: &Vec<String>,
    k: usize,
    actions: &mut Vec<PkgAction>,
    created: &mut Vec<String>,
    fuel: usize,
) -> (r: Result<Vec<Package>, PackageError>)
    requires
        k <= decls@.len(),
    ensures
        ({
            let sr = spec_resolve_decls(
                store_model(store@),
                svs(dirs@),
                bc_model(*root),
                svs(decls@).skip(k as int),
                acts_model(old(actions)@),
                svs(old(created)@),
                fuel as nat,
            );
            acts_model(final(actions)@) == sr.actions && svs(final(created)@) == sr.created
                && (match r {
                Ok(v) => sr.result == Ok::<Seq<PkgM>, PkgErrM>(pkgs_model(v@)),
                Err(e) => sr.result is Err && pkg_err_model(e) == sr.result->Err_0,
            })
        }),
    decreases fuel, decls@.len() - k,
{
    let ghost rest0 = svs(decls@).skip(k as int);
    if k == decls.len() {
        let r: Vec<Package> = Vec::new();
        proof {
            assert(rest0 =~= Seq::<Seq<char>>::empty());
            assert(pkgs_model(r@) =~= Seq::<PkgM>::empty());
        }
        return Ok(r);
    }
    proof {
        assert(rest0[0] == svs(decls@)[k as int]);
        assert(rest0.drop_first() =~= svs(decls@).skip(k + 1 as int));
    }
    let d = &decls[k];
    let toks = split_ws(d.as_str());
    if toks.len() != 2 {
        return Err(PackageError::MalformedDecl(d.clone()));
    }
    proof {
        reveal_strlit(",");
        assert(svs(toks@)[0] == toks@[0]@);
        assert(svs(toks@)[1] == toks@[1]@);
    }
    let repo = replace_all(toks[0].as_str(), ",", "");
    let branch = toks[1].clone();
    let name = name_of_repo(repo.as_str());
    let sdir = source_dir_of(name.as_str());
    let in_dirs = contains_string(dirs, &sdir);
    let in_created = contains_string(created, &sdir);
    if !in_dirs && !in_created {
        let ghost am0 = acts_model(actions@);
        actions.push(PkgAction::MkdirP(sdir.clone()));
        proof {
            assert(acts_model(actions@) =~= am0.push(ActM::MkdirP(sdir@)));
        }
        let url = concat2("https://github.com/", repo.as_str());
        let ghost am1 = acts_model(actions@);
        actions.push(PkgAction::CloneRepo { url, branch: branch.clone(), dest: sdir.clone() });
        proof {
            assert(acts_model(actions@) =~= am1.push(
                ActM::CloneRepo {
                    url: spec_clone_url(repo@),
                    branch: branch@,
                    dest: sdir@,
                },
            ));
        }
        let ghost cm0 = svs(created@);
        created.push(sdir.clone());
        proof {
            assert(svs(created@) =~= cm0.push(sdir@));
        }
    }
    let cfgpath = concat2(sdir.as_str(), "/config_linux.toml");
    match store_lookup(store, &cfgpath) {
        None => Err(PackageError::MissingConfig(cfgpath)),
        Some(entry) => {
            let mut nested_pkgs: Vec<Package> = Vec::new();
            let has_nested = entry.build.packages.len() > 0;
            if has_nested {
                if fuel == 0 {
                    return Err(PackageError::DepthExceeded);
                }
                let ghost nd = svs(entry.build.packages@);
                proof {
                    assert(nd.skip(0) =~= nd);
                }
                match resolve_decls(
                    store,
                    dirs,
                    root,
                    &entry.build.packages,
                    0,
                    actions,
                    created,
                    fuel - 1,
                ) {
                    Err(e) => {
                        return Err(e);
                    },
                    Ok(v) => {
                        nested_pkgs = v;
                    },
                }
            } else {
                proof {
                    assert(pkgs_model(nested_pkgs@) =~= Seq::<PkgM>::empty());
                }
            }
            let merged = BuildConfig {
                compiler: root.compiler.clone(),
                build_dir: root.build_dir.clone(),
                obj_dir: root.obj_dir.clone(),
                packages: clone_string_vec(&entry.build.packages),
            };
            let obj_in_dirs = contains_string(dirs, &root.obj_dir);
            let obj_in_created = contains_string(created, &root.obj_dir);
            if !obj_in_dirs && !obj_in_created {
                let ghost am2 = acts_model(actions@);
                actions.push(PkgAction::MkdirP(root.obj_dir.clone()));
                proof {
                    assert(acts_model(actions@) =~= am2.push(ActM::MkdirP(root.obj_dir@)));
                }
                let ghost cm1 = svs(created@);
                created.push(root.obj_dir.clone());
                proof {
                    assert(svs(created@) =~= cm1.push(root.obj_dir@));
                }
            }
            let ghost tg0 = tcs_model(entry.targets@);
            proof {
                assert(tg0.skip(0) =~= tg0);
            }
            let staged = stage_targets(&entry.targets, 0, &sdir, &name, dirs, actions, created);
            let rec = Package::new(name, repo, branch, merged, staged);
            match resolve_decls(store, dirs, root, decls, k + 1, actions, created, fuel) {
                Err(e) => Err(e),
                Ok(rest_pkgs) => {
                    let mut out = nested_pkgs;
                    let ghost nm = pkgs_model(out@);
                    out.push(rec);
                    proof {
                        assert(pkgs_model(out@) =~= nm.push(pkg_model(rec)));
                    }
                    let ghost withrec = pkgs_model(out@);
                    let mut rest_pkgs = rest_pkgs;
                    let ghost rm = pkgs_model(rest_pkgs@);
                    out.append(&mut rest_pkgs);
                    proof {
                        assert(pkgs_model(out@) =~= withrec + rm);
                        assert(nm.push(pkg_model(rec)) =~= nm + seq![pkg_model(rec)]);
                    }
                    Ok(out)
                },
            }
        },
    }
}

} // verus!
