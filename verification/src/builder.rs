//! The target model: source discovery, per-source staleness, and the
//! compile and link command lines.
//!
//! The surrounding binary walks the source tree, records modification
//! times, and runs the produced commands; every decision about what to
//! compile and how is made here.

use vstd::prelude::*;
use vstd::string::*;
use crate::strutil::svs;
use crate::strutil::spec_ends_with;
use crate::strutil::str_ends_with;
use crate::strutil::spec_replace;
use crate::strutil::replace_all;
use crate::strutil::spec_file_stem;
use crate::strutil::file_stem;
use crate::includes::FileEntry;
use crate::includes::CacheEntry;
use crate::includes::ResolveError;
use crate::includes::ResolveErrM;
use crate::includes::err_model;
use crate::includes::fs_model;
use crate::includes::cache_model;
use crate::includes::spec_resolve_source;
use crate::includes::resolve_source;
use crate::stale::MtimeEntry;
use crate::stale::mt_model;
use crate::stale::spec_mtime_lookup;
use crate::stale::mtime_lookup;
use crate::stale::spec_needs_rebuild;
use crate::utils::BuildConfig;
use crate::utils::TargetConfig;
use crate::utils::TargetKind;

verus! {

/// A single C or C++ source file of a target.
#[derive(Debug)]
pub struct Src {
    pub path: String,
    pub name: String,
    pub obj_name: String,
    pub dependant_includes: Vec<String>,
}

/// Spec-level image of a `Src`.
pub struct SrcM {
    pub path: Seq<char>,
    pub name: Seq<char>,
    pub obj_name: Seq<char>,
    pub dependant_includes: Seq<Seq<char>>,
}

pub open spec fn src_model(s: Src) -> SrcM {
    SrcM {
        path: s.path@,
        name: s.name@,
        obj_name: s.obj_name@,
        dependant_includes: svs(s.dependant_includes@),
    }
}

pub open spec fn srcs_model(s: Seq<Src>) -> Seq<SrcM> {
    Seq::new(s.len(), |i: int| src_model(s[i]))
}

impl Src {
    /// Bundles a discovered source file's parts.
    pub fn new(path: String, name: String, obj_name: String, dependant_includes: Vec<String>) -> (r:
        Src)
        ensures
            src_model(r) == (SrcM {
                path: path@,
                name: name@,
                obj_name: obj_name@,
                dependant_includes: svs(dependant_includes@),
            }),
    {
        Src { path, name, obj_name, dependant_includes }
    }

    /// The toolchain invocation that compiles this source to its object:
    /// `<compiler> -c <path> -o <obj> -I<include_dir> <cflags>`, with
    /// ` -fPIC -shared` appended for a shared-library target.
    pub fn compile_command(&self, build_config: &BuildConfig, target_config: &TargetConfig) -> (r:
        String)
        ensures
            r@ == spec_compile_command(
                build_config.compiler@,
                src_model(*self),
                target_config.include_dir@,
                target_config.cflags@,
                target_config.typ,
            ),
    {
        let mut cmd = build_config.compiler.clone();
        cmd.append(" -c ");
        cmd.append(self.path.as_str());
        cmd.append(" -o ");
        cmd.append(self.obj_name.as_str());
        cmd.append(" -I");
        cmd.append(target_config.include_dir.as_str());
        cmd.append(" ");
        cmd.append(target_config.cflags.as_str());
        if target_config.typ == TargetKind::SharedLibrary {
            cmd.append(" -fPIC -shared");
        }
        cmd
    }

    /// Whether this source must be recompiled, from the recorded mtimes:
    /// an absent artifact, an artifact older than the source, or an
    /// artifact older than any transitive header. A source or header
    /// without a recorded mtime fails, naming the file.
    pub fn to_build(&self, meta: &Vec<MtimeEntry>) -> (r: Result<bool, String>)
        ensures
            ({
                let sr = spec_src_to_build(mt_model(meta@), src_model(*self));
                match r {
                    Ok(b) => sr == Ok::<bool, Seq<char>>(b),
                    Err(p) => sr == Err::<bool, Seq<char>>(p@),
                }
            }),
    {
        match mtime_lookup(meta, &self.obj_name) {
            None => Ok(true),
            Some(objm) => {
                match mtime_lookup(meta, &self.path) {
                    None => Err(self.path.clone()),
                    Some(srcm) => {
                        if objm < srcm {
                            Ok(true)
                        } else {
                            proof {
                                assert(svs(self.dependant_includes@).skip(0) =~= svs(
                                    self.dependant_includes@,
                                ));
                            }
                            hdrs_check(meta, &self.dependant_includes, 0, objm)
                        }
                    },
                }
            },
        }
    }
}

/// The compile command for one source.
pub open spec fn spec_compile_command(
    compiler: Seq<char>,
    s: SrcM,
    include_dir: Seq<char>,
    cflags: Seq<char>,
    typ: TargetKind,
) -> Seq<char> {
    let base = compiler + " -c "@ + s.path + " -o "@ + s.obj_name + " -I"@ + include_dir + " "@
        + cflags;
    if typ == TargetKind::SharedLibrary {
        base + " -fPIC -shared"@
    } else {
        base
    }
}

/// Checks the headers in order against the artifact's mtime: the first
/// header without a recorded mtime fails; the first one newer than the
/// artifact forces a rebuild.
pub open spec fn spec_hdrs_check(
    meta: Seq<(Seq<char>, u64)>,
    hdrs: Seq<Seq<char>>,
    objm: u64,
) -> Result<bool, Seq<char>>
    decreases hdrs.len(),
{
    if hdrs.len() == 0 {
        Ok(false)
    } else {
        match spec_mtime_lookup(meta, hdrs[0]) {
            None => Err(hdrs[0]),
            Some(hm) => {
                if objm < hm {
                    Ok(true)
                } else {
                    spec_hdrs_check(meta, hdrs.drop_first(), objm)
                }
            },
        }
    }
}

/// Staleness of one source, conditions decided in order: artifact absent;
/// artifact older than source; artifact older than a transitive header.
pub open spec fn spec_src_to_build(meta: Seq<(Seq<char>, u64)>, s: SrcM) -> Result<
    bool,
    Seq<char>,
> {
    match spec_mtime_lookup(meta, s.obj_name) {
        None => Ok(true),
        Some(objm) => match spec_mtime_lookup(meta, s.path) {
            None => Err(s.path),
            Some(srcm) => {
                if objm < srcm {
                    Ok(true)
                } else {
                    spec_hdrs_check(meta, s.dependant_includes, objm)
                }
            },
        },
    }
}

/// With an empty header set, staleness depends on the artifact and source
/// mtimes alone: an absent artifact forces a rebuild; an artifact at least
/// as new as the source suppresses it.
pub proof fn lemma_src_staleness_empty_headers(meta: Seq<(Seq<char>, u64)>, s: SrcM)
    requires
        s.dependant_includes.len() == 0,
    ensures
        spec_mtime_lookup(meta, s.obj_name) is None ==> spec_src_to_build(meta, s) == Ok::<
            bool,
            Seq<char>,
        >(true),
        forall|o: u64, sm: u64|
            spec_mtime_lookup(meta, s.obj_name) == Some(o) && spec_mtime_lookup(meta, s.path)
                == Some(sm) ==> spec_src_to_build(meta, s) == Ok::<bool, Seq<char>>(o < sm),
{
}

/// The recorded mtime of each header, where all are recorded.
pub open spec fn spec_hdr_times(meta: Seq<(Seq<char>, u64)>, hdrs: Seq<Seq<char>>) -> Seq<u64> {
    Seq::new(hdrs.len(), |i: int| spec_mtime_lookup(meta, hdrs[i]).unwrap())
}

/// The ordered header walk decides exactly what the staleness evaluator's
/// header clause says, when every header has a recorded mtime.
pub proof fn lemma_hdrs_check_agrees(meta: Seq<(Seq<char>, u64)>, hdrs: Seq<Seq<char>>, objm: u64)
    requires
        forall|i: int|
            0 <= i < hdrs.len() ==> (#[trigger] spec_mtime_lookup(meta, hdrs[i])) is Some,
    ensures
        spec_hdrs_check(meta, hdrs, objm) == Ok::<bool, Seq<char>>(
            exists|i: int| 0 <= i < hdrs.len() && objm < spec_hdr_times(meta, hdrs)[i],
        ),
    decreases hdrs.len(),
{
    if hdrs.len() == 0 {
    } else {
        assert(spec_mtime_lookup(meta, hdrs[0]) is Some);
        let hm = spec_mtime_lookup(meta, hdrs[0]).unwrap();
        if objm < hm {
            assert(spec_hdr_times(meta, hdrs)[0] == hm);
            assert(exists|i: int| 0 <= i < hdrs.len() && objm < spec_hdr_times(meta, hdrs)[i]);
        } else {
            let tail = hdrs.drop_first();
            assert forall|i: int| 0 <= i < tail.len() implies (#[trigger] spec_mtime_lookup(
                meta,
                tail[i],
            )) is Some by {
                assert(tail[i] == hdrs[i + 1]);
            }
            lemma_hdrs_check_agrees(meta, tail, objm);
            assert forall|i: int| 0 <= i < tail.len() implies spec_hdr_times(meta, tail)[i]
                == spec_hdr_times(meta, hdrs)[i + 1] by {
                assert(tail[i] == hdrs[i + 1]);
            }
            if exists|i: int| 0 <= i < tail.len() && objm < spec_hdr_times(meta, tail)[i] {
                let j = choose|i: int| 0 <= i < tail.len() && objm < spec_hdr_times(meta, tail)[i];
                assert(objm < spec_hdr_times(meta, hdrs)[j + 1]);
            }
            if exists|i: int| 0 <= i < hdrs.len() && objm < spec_hdr_times(meta, hdrs)[i] {
                let j = choose|i: int|
                    0 <= i < hdrs.len() && objm < spec_hdr_times(meta, hdrs)[i];
                if j > 0 {
                    assert(objm < spec_hdr_times(meta, tail)[j - 1]);
                }
            }
        }
    }
}

/// When the source and every header have recorded mtimes, per-source
/// staleness decides exactly what the staleness evaluator says of the
/// artifact, source and header times.
pub proof fn lemma_to_build_agrees_with_evaluator(meta: Seq<(Seq<char>, u64)>, s: SrcM)
    requires
        spec_mtime_lookup(meta, s.path) is Some,
        forall|i: int|
            0 <= i < s.dependant_includes.len() ==> (#[trigger] spec_mtime_lookup(
                meta,
                s.dependant_includes[i],
            )) is Some,
    ensures
        spec_src_to_build(meta, s) == Ok::<bool, Seq<char>>(
            spec_needs_rebuild(
                spec_mtime_lookup(meta, s.obj_name),
                spec_mtime_lookup(meta, s.path).unwrap(),
                spec_hdr_times(meta, s.dependant_includes),
            ),
        ),
{
    match spec_mtime_lookup(meta, s.obj_name) {
        None => {},
        Some(objm) => {
            let srcm = spec_mtime_lookup(meta, s.path).unwrap();
            if objm < srcm {
            } else {
                lemma_hdrs_check_agrees(meta, s.dependant_includes, objm);
            }
        },
    }
}

/// Source discovery and staleness are functions of the snapshot and the
/// recorded mtimes alone: run twice against an unchanged filesystem they
/// yield identical header sets and staleness verdicts.
pub proof fn lemma_discovery_idempotent(
    fs: Seq<(Seq<char>, Seq<Seq<char>>)>,
    inc_dir: Seq<char>,
    obj_dir: Seq<char>,
    files: Seq<Seq<char>>,
    cache: Seq<(Seq<char>, Seq<Seq<char>>)>,
    fuel: nat,
    meta: Seq<(Seq<char>, u64)>,
    s: SrcM,
)
    ensures
        spec_build_srcs(fs, inc_dir, obj_dir, files, cache, fuel) == spec_build_srcs(
            fs,
            inc_dir,
            obj_dir,
            files,
            cache,
            fuel,
        ),
        spec_src_to_build(meta, s) == spec_src_to_build(meta, s),
{
}

fn hdrs_check(meta: &Vec<MtimeEntry>, hdrs: &Vec<String>, k: usize, objm: u64) -> (r: Result<
    bool,
    String,
>)
    requires
        k <= hdrs@.len(),
    ensures
        ({
            let sr = spec_hdrs_check(mt_model(meta@), svs(hdrs@).skip(k as int), objm);
            match r {
                Ok(b) => sr == Ok::<bool, Seq<char>>(b),
                Err(p) => sr == Err::<bool, Seq<char>>(p@),
            }
        }),
    decreases hdrs@.len() - k,
{
    let ghost rest = svs(hdrs@).skip(k as int);
    if k == hdrs.len() {
        proof {
            assert(rest =~= Seq::<Seq<char>>::empty());
        }
        return Ok(false);
    }
    proof {
        assert(rest[0] == svs(hdrs@)[k as int]);
        assert(rest.drop_first() =~= svs(hdrs@).skip(k + 1 as int));
    }
    match mtime_lookup(meta, &hdrs[k]) {
        None => Err(hdrs[k].clone()),
        Some(hm) => {
            if objm < hm {
                Ok(true)
            } else {
                hdrs_check(meta, hdrs, k + 1, objm)
            }
        },
    }
}

/// A buildable target: its sources, its configuration, and the include
/// cache shared by its sources' resolutions.
#[derive(Debug)]
pub struct Target {
    pub srcs: Vec<Src>,
    pub build_config: BuildConfig,
    pub target_config: TargetConfig,
    pub dependant_includes: Vec<CacheEntry>,
}

/// Whether a walked file is a translation unit.
pub open spec fn spec_keep_source(p: Seq<char>) -> bool {
    spec_ends_with(p, ".cpp"@) || spec_ends_with(p, ".c"@)
}

/// Builds the sources of a target from the walked files: `.c`/`.cpp`
/// files are kept in walk order, backslashes are turned to slashes, and
/// each source gets its stem-derived object path and its transitive
/// headers, resolved against the snapshot through the shared cache.
pub open spec fn spec_build_srcs(
    fs: Seq<(Seq<char>, Seq<Seq<char>>)>,
    inc_dir: Seq<char>,
    obj_dir: Seq<char>,
    files: Seq<Seq<char>>,
    cache: Seq<(Seq<char>, Seq<Seq<char>>)>,
    fuel: nat,
) -> (Result<Seq<SrcM>, ResolveErrM>, Seq<(Seq<char>, Seq<Seq<char>>)>)
    decreases files.len(),
{
    if files.len() == 0 {
        (Ok(Seq::empty()), cache)
    } else {
        let p = files[0];
        if !spec_keep_source(p) {
            spec_build_srcs(fs, inc_dir, obj_dir, files.drop_first(), cache, fuel)
        } else {
            let path = spec_replace(p, "\\"@, "/"@);
            let name = spec_file_stem(path);
            let obj = obj_dir + "/"@ + name + ".o"@;
            let r = spec_resolve_source(fs, inc_dir, path, cache, fuel);
            match r.0 {
                Err(e) => (Err(e), r.1),
                Ok(hdrs) => {
                    let rest = spec_build_srcs(fs, inc_dir, obj_dir, files.drop_first(), r.1, fuel);
                    match rest.0 {
                        Err(e) => (Err(e), rest.1),
                        Ok(srcs) => (
                            Ok(
                                seq![
                                    SrcM {
                                        path,
                                        name,
                                        obj_name: obj,
                                        dependant_includes: hdrs,
                                    },
                                ] + srcs,
                            ),
                            rest.1,
                        ),
                    }
                },
            }
        }
    }
}

/// The part of the link line naming every object, each preceded by a
/// space.
pub open spec fn spec_objs_part(objs: Seq<Seq<char>>) -> Seq<char>
    decreases objs.len(),
{
    if objs.len() == 0 {
        Seq::empty()
    } else {
        " "@ + objs[0] + spec_objs_part(objs.drop_first())
    }
}

pub open spec fn spec_obj_names(srcs: Seq<SrcM>) -> Seq<Seq<char>> {
    Seq::new(srcs.len(), |i: int| srcs[i].obj_name)
}

/// The link invocation over the full object list:
/// `<compiler> -o <build_dir>/<name>` — a shared library gets the `.so`
/// suffix and the shared flag, an executable no suffix — then every
/// object, the target's cflags and its libs.
pub open spec fn spec_link_command(
    compiler: Seq<char>,
    build_dir: Seq<char>,
    name: Seq<char>,
    typ: TargetKind,
    objs: Seq<Seq<char>>,
    cflags: Seq<char>,
    libs: Seq<char>,
) -> Seq<char> {
    let base = compiler + " -o "@ + build_dir + "/"@ + name + (if typ == TargetKind::SharedLibrary {
        ".so"@ + " -shared "@
    } else {
        Seq::<char>::empty()
    });
    base + spec_objs_part(objs) + " "@ + cflags + " "@ + libs
}

/// What a build run must do: compile exactly the stale sources,
/// independently, then link once over the full object list.
#[derive(Debug)]
pub struct BuildPlan {
    pub compile_cmds: Vec<String>,
    pub link_cmd: String,
}

/// The compile commands of exactly the stale sources, in source order.
pub open spec fn spec_stale_compiles(
    meta: Seq<(Seq<char>, u64)>,
    srcs: Seq<SrcM>,
    compiler: Seq<char>,
    include_dir: Seq<char>,
    cflags: Seq<char>,
    typ: TargetKind,
) -> Result<Seq<Seq<char>>, Seq<char>>
    decreases srcs.len(),
{
    if srcs.len() == 0 {
        Ok(Seq::empty())
    } else {
        match spec_src_to_build(meta, srcs[0]) {
            Err(p) => Err(p),
            Ok(b) => {
                match spec_stale_compiles(meta, srcs.drop_first(), compiler, include_dir, cflags, typ) {
                    Err(p) => Err(p),
                    Ok(cs) => {
                        if b {
                            Ok(
                                seq![spec_compile_command(compiler, srcs[0], include_dir, cflags, typ)]
                                    + cs,
                            )
                        } else {
                            Ok(cs)
                        }
                    },
                }
            },
        }
    }
}

impl Target {
    /// Builds a target from its configuration, the files walked under its
    /// source root (in walk order) and the snapshot of inspected files'
    /// direct includes.
    pub fn new(
        build_config: BuildConfig,
        target_config: TargetConfig,
        files: &Vec<String>,
        index: &Vec<FileEntry>,
    ) -> (r: Result<Target, ResolveError>)
        requires
            index@.len() < usize::MAX,
        ensures
            ({
                let br = spec_build_srcs(
                    fs_model(index@),
                    target_config.include_dir@,
                    build_config.obj_dir@,
                    svs(files@),
                    Seq::empty(),
                    (index@.len() + 1) as nat,
                );
                match r {
                    Ok(t) => br.0 == Ok::<Seq<SrcM>, ResolveErrM>(srcs_model(t.srcs@))
                        && cache_model(t.dependant_includes@) == br.1 && t.build_config
                        == build_config && t.target_config == target_config,
                    Err(e) => br.0 is Err && err_model(e) == br.0->Err_0,
                }
            }),
    {
        let mut t = Target {
            srcs: Vec::new(),
            build_config,
            target_config,
            dependant_includes: Vec::new(),
        };
        proof {
            assert(srcs_model(t.srcs@) =~= Seq::<SrcM>::empty());
            assert(cache_model(t.dependant_includes@) =~= Seq::<(Seq<char>, Seq<Seq<char>>)>::empty());
            assert(svs(files@).skip(0) =~= svs(files@));
        }
        match t.fill_srcs(files, 0, index) {
            Err(e) => Err(e),
            Ok(()) => {
                proof {
                    assert(Seq::<SrcM>::empty() + srcs_model(t.srcs@) =~= srcs_model(t.srcs@));
                }
                Ok(t)
            },
        }
    }

    fn fill_srcs(&mut self, files: &Vec<String>, i: usize, index: &Vec<FileEntry>) -> (r: Result<
        (),
        ResolveError,
    >)
        requires
            i <= files@.len(),
            index@.len() < usize::MAX,
        ensures
            ({
                let br = spec_build_srcs(
                    fs_model(index@),
                    old(self).target_config.include_dir@,
                    old(self).build_config.obj_dir@,
                    svs(files@).skip(i as int),
                    cache_model(old(self).dependant_includes@),
                    (index@.len() + 1) as nat,
                );
                final(self).build_config == old(self).build_config && final(self).target_config
                    == old(self).target_config && (match r {
                    Ok(()) => br.0 is Ok && srcs_model(final(self).srcs@) == srcs_model(
                        old(self).srcs@,
                    ) + br.0->Ok_0 && cache_model(final(self).dependant_includes@) == br.1,
                    Err(e) => br.0 is Err && err_model(e) == br.0->Err_0,
                })
            }),
        decreases files@.len() - i,
    {
        let ghost rest = svs(files@).skip(i as int);
        if i == files.len() {
            proof {
                assert(rest =~= Seq::<Seq<char>>::empty());
                assert(srcs_model(self.srcs@) + Seq::<SrcM>::empty() =~= srcs_model(self.srcs@));
            }
            return Ok(());
        }
        proof {
            assert(rest[0] == svs(files@)[i as int]);
            assert(rest.drop_first() =~= svs(files@).skip(i + 1 as int));
        }
        let p = &files[i];
        let keep = str_ends_with(p.as_str(), ".cpp") || str_ends_with(p.as_str(), ".c");
        if !keep {
            return self.fill_srcs(files, i + 1, index);
        }
        proof {
            reveal_strlit("\\");
        }
        let path = replace_all(p.as_str(), "\\", "/");
        match self.add_src(path, index) {
            Err(e) => Err(e),
            Ok(()) => {
                match self.fill_srcs(files, i + 1, index) {
                    Err(e) => Err(e),
                    Ok(()) => {
                        proof {
                            let br = spec_build_srcs(
                                fs_model(index@),
                                old(self).target_config.include_dir@,
                                old(self).build_config.obj_dir@,
                                svs(files@).skip(i as int),
                                cache_model(old(self).dependant_includes@),
                                (index@.len() + 1) as nat,
                            );
                            assert(srcs_model(self.srcs@) =~= srcs_model(old(self).srcs@)
                                + br.0->Ok_0);
                        }
                        Ok(())
                    },
                }
            },
        }
    }

    /// Adds one source file: stem-derived name and object path, transitive
    /// headers resolved through the target's shared include cache.
    pub fn add_src(&mut self, path: String, index: &Vec<FileEntry>) -> (r: Result<
        (),
        ResolveError,
    >)
        requires
            index@.len() < usize::MAX,
        ensures
            ({
                let sr = spec_resolve_source(
                    fs_model(index@),
                    old(self).target_config.include_dir@,
                    path@,
                    cache_model(old(self).dependant_includes@),
                    (index@.len() + 1) as nat,
                );
                final(self).build_config == old(self).build_config && final(self).target_config
                    == old(self).target_config && cache_model(final(self).dependant_includes@)
                    == sr.1 && (match r {
                    Ok(()) => sr.0 is Ok && srcs_model(final(self).srcs@) == srcs_model(
                        old(self).srcs@,
                    ).push(
                        SrcM {
                            path: path@,
                            name: spec_file_stem(path@),
                            obj_name: old(self).build_config.obj_dir@ + "/"@ + spec_file_stem(path@)
                                + ".o"@,
                            dependant_includes: sr.0->Ok_0,
                        },
                    ),
                    Err(e) => sr.0 is Err && err_model(e) == sr.0->Err_0 && final(self).srcs == old(
                        self,
                    ).srcs,
                })
            }),
    {
        let name = Target::get_src_name(path.as_str());
        let obj_name = self.get_src_obj_name(name.as_str());
        match self.get_dependant_includes(path.as_str(), index) {
            Err(e) => Err(e),
            Ok(dependant_includes) => {
                let ghost sm0 = srcs_model(self.srcs@);
                let src = Src::new(path, name, obj_name, dependant_includes);
                self.srcs.push(src);
                proof {
                    assert(srcs_model(self.srcs@) =~= sm0.push(src_model(src)));
                }
                Ok(())
            },
        }
    }

    /// The file name without extension: the last path component up to its
    /// first dot.
    pub fn get_src_name(path: &str) -> (r: String)
        ensures
            r@ == spec_file_stem(path@),
    {
        file_stem(path)
    }

    /// The object artifact path of a source: `<obj_dir>/<stem>.o`.
    pub fn get_src_obj_name(&self, src_name: &str) -> (r: String)
        ensures
            r@ == self.build_config.obj_dir@ + "/"@ + src_name@ + ".o"@,
    {
        let mut obj_name = self.build_config.obj_dir.clone();
        obj_name.append("/");
        obj_name.append(src_name);
        obj_name.append(".o");
        obj_name
    }

    /// The deduplicated transitive headers a file depends on, resolved
    /// against the snapshot through this target's cache.
    pub fn get_dependant_includes(&mut self, path: &str, index: &Vec<FileEntry>) -> (r: Result<
        Vec<String>,
        ResolveError,
    >)
        requires
            index@.len() < usize::MAX,
        ensures
            ({
                let sr = spec_resolve_source(
                    fs_model(index@),
                    old(self).target_config.include_dir@,
                    path@,
                    cache_model(old(self).dependant_includes@),
                    (index@.len() + 1) as nat,
                );
                final(self).srcs == old(self).srcs && final(self).build_config == old(
                    self,
                ).build_config && final(self).target_config == old(self).target_config
                    && cache_model(final(self).dependant_includes@) == sr.1 && (match r {
                    Ok(v) => sr.0 == Ok::<Seq<Seq<char>>, ResolveErrM>(svs(v@)),
                    Err(e) => sr.0 is Err && err_model(e) == sr.0->Err_0,
                })
            }),
    {
        let key = path.to_owned();
        resolve_source(index, self.target_config.include_dir.as_str(), &key, &mut self.dependant_includes)
    }

    /// The build plan from the recorded mtimes: one compile command per
    /// stale source, in order, and the unconditional link command over the
    /// full object list.
    pub fn build(&self, meta: &Vec<MtimeEntry>) -> (r: Result<BuildPlan, String>)
        ensures
            ({
                let cr = spec_stale_compiles(
                    mt_model(meta@),
                    srcs_model(self.srcs@),
                    self.build_config.compiler@,
                    self.target_config.include_dir@,
                    self.target_config.cflags@,
                    self.target_config.typ,
                );
                match r {
                    Ok(plan) => cr == Ok::<Seq<Seq<char>>, Seq<char>>(svs(plan.compile_cmds@))
                        && plan.link_cmd@ == spec_link_command(
                        self.build_config.compiler@,
                        self.build_config.build_dir@,
                        self.target_config.name@,
                        self.target_config.typ,
                        spec_obj_names(srcs_model(self.srcs@)),
                        self.target_config.cflags@,
                        self.target_config.libs@,
                    ),
                    Err(p) => cr == Err::<Seq<Seq<char>>, Seq<char>>(p@),
                }
            }),
    {
        proof {
            assert(srcs_model(self.srcs@).skip(0) =~= srcs_model(self.srcs@));
        }
        match self.stale_compiles(meta, 0) {
            Err(p) => Err(p),
            Ok(compile_cmds) => Ok(BuildPlan { compile_cmds, link_cmd: self.link() }),
        }
    }

    fn stale_compiles(&self, meta: &Vec<MtimeEntry>, k: usize) -> (r: Result<Vec<String>, String>)
        requires
            k <= self.srcs@.len(),
        ensures
            ({
                let cr = spec_stale_compiles(
                    mt_model(meta@),
                    srcs_model(self.srcs@).skip(k as int),
                    self.build_config.compiler@,
                    self.target_config.include_dir@,
                    self.target_config.cflags@,
                    self.target_config.typ,
                );
                match r {
                    Ok(v) => cr == Ok::<Seq<Seq<char>>, Seq<char>>(svs(v@)),
                    Err(p) => cr == Err::<Seq<Seq<char>>, Seq<char>>(p@),
                }
            }),
        decreases self.srcs@.len() - k,
    {
        let ghost rest = srcs_model(self.srcs@).skip(k as int);
        if k == self.srcs.len() {
            let r: Vec<String> = Vec::new();
            proof {
                assert(rest =~= Seq::<SrcM>::empty());
                assert(svs(r@) =~= Seq::<Seq<char>>::empty());
            }
            return Ok(r);
        }
        proof {
            assert(rest[0] == srcs_model(self.srcs@)[k as int]);
            assert(rest.drop_first() =~= srcs_model(self.srcs@).skip(k + 1 as int));
        }
        let stale = match self.srcs[k].to_build(meta) {
            Err(p) => {
                return Err(p);
            },
            Ok(b) => b,
        };
        match self.stale_compiles(meta, k + 1) {
            Err(p) => Err(p),
            Ok(cs) => {
                if stale {
                    let cmd = self.srcs[k].compile_command(&self.build_config, &self.target_config);
                    let mut out: Vec<String> = Vec::new();
                    out.push(cmd);
                    let ghost head = svs(out@);
                    let ghost tail = svs(cs@);
                    let mut cs = cs;
                    out.append(&mut cs);
                    proof {
                        assert(svs(out@) =~= head + tail);
                        assert(head =~= seq![
                            spec_compile_command(
                                self.build_config.compiler@,
                                srcs_model(self.srcs@)[k as int],
                                self.target_config.include_dir@,
                                self.target_config.cflags@,
                                self.target_config.typ,
                            ),
                        ]);
                    }
                    Ok(out)
                } else {
                    Ok(cs)
                }
            },
        }
    }

    /// The link invocation over the target's full object list; linking is
    /// performed unconditionally after the compile phase.
    pub fn link(&self) -> (r: String)
        ensures
            r@ == spec_link_command(
                self.build_config.compiler@,
                self.build_config.build_dir@,
                self.target_config.name@,
                self.target_config.typ,
                spec_obj_names(srcs_model(self.srcs@)),
                self.target_config.cflags@,
                self.target_config.libs@,
            ),
    {
        let mut cmd = self.build_config.compiler.clone();
        cmd.append(" -o ");
        cmd.append(self.build_config.build_dir.as_str());
        cmd.append("/");
        cmd.append(self.target_config.name.as_str());
        if self.target_config.typ == TargetKind::SharedLibrary {
            cmd.append(".so");
            cmd.append(" -shared ");
        }
        let ghost base = cmd@;
        let ghost objs = spec_obj_names(srcs_model(self.srcs@));
        proof {
            if self.target_config.typ == TargetKind::SharedLibrary {
            } else {
                assert(base + Seq::<char>::empty() =~= base);
            }
            assert(objs.skip(0) =~= objs);
        }
        let mut i: usize = 0;
        while i < self.srcs.len()
            invariant
                i <= self.srcs@.len(),
                objs == spec_obj_names(srcs_model(self.srcs@)),
                objs.len() == self.srcs@.len(),
                cmd@ + spec_objs_part(objs.skip(i as int)) == base + spec_objs_part(objs),
            decreases self.srcs@.len() - i,
        {
            proof {
                assert(objs.skip(i as int)[0] == objs[i as int]);
                assert(objs.skip(i as int).drop_first() =~= objs.skip(i + 1 as int));
            }
            cmd.append(" ");
            cmd.append(self.srcs[i].obj_name.as_str());
            i += 1;
        }
        proof {
            assert(objs.skip(objs.len() as int) =~= Seq::<Seq<char>>::empty());
            assert(cmd@ =~= base + spec_objs_part(objs));
        }
        cmd.append(" ");
        cmd.append(self.target_config.cflags.as_str());
        cmd.append(" ");
        cmd.append(self.target_config.libs.as_str());
        cmd
    }
}

} // verus!
