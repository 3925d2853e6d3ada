use builder_cpp::builder::Target;
use builder_cpp::includes::FileEntry;
use builder_cpp::stale::MtimeEntry;
use builder_cpp::utils::{BuildConfig, TargetConfig, TargetKind};

fn bc() -> BuildConfig {
    BuildConfig {
        compiler: "gcc".to_string(),
        build_dir: "build".to_string(),
        obj_dir: "obj".to_string(),
        packages: vec![],
    }
}

fn tc(typ: TargetKind) -> TargetConfig {
    TargetConfig {
        name: "app".to_string(),
        src: "srcdir".to_string(),
        include_dir: "inc".to_string(),
        typ,
        cflags: "-O2".to_string(),
        libs: "-lm".to_string(),
        deps: vec![],
    }
}

fn entry(path: &str, includes: &[&str]) -> FileEntry {
    FileEntry {
        path: path.to_string(),
        includes: includes.iter().map(|s| s.to_string()).collect(),
    }
}

fn meta(entries: &[(&str, u64)]) -> Vec<MtimeEntry> {
    entries
        .iter()
        .map(|(p, t)| MtimeEntry { path: p.to_string(), mtime: *t })
        .collect()
}

fn two_file_target() -> Target {
    let files = vec!["srcdir/a.c".to_string(), "srcdir/b.c".to_string()];
    let index = vec![entry("srcdir/a.c", &[]), entry("srcdir/b.c", &[])];
    Target::new(bc(), tc(TargetKind::Executable), &files, &index).unwrap()
}

#[test]
fn discovery_keeps_only_translation_units() {
    let files = vec![
        "srcdir/a.c".to_string(),
        "srcdir/readme.md".to_string(),
        "srcdir/b.cpp".to_string(),
        "srcdir/x.h".to_string(),
    ];
    let index = vec![entry("srcdir/a.c", &[]), entry("srcdir/b.cpp", &[])];
    let t = Target::new(bc(), tc(TargetKind::Executable), &files, &index).unwrap();
    assert_eq!(t.srcs.len(), 2);
    assert_eq!(t.srcs[0].path, "srcdir/a.c");
    assert_eq!(t.srcs[0].name, "a");
    assert_eq!(t.srcs[0].obj_name, "obj/a.o");
    assert_eq!(t.srcs[1].path, "srcdir/b.cpp");
    assert_eq!(t.srcs[1].obj_name, "obj/b.o");
}

#[test]
fn first_build_compiles_both_and_links() {
    // Scenario: two `.c` files, no headers, no artifacts yet.
    let t = two_file_target();
    let m = meta(&[("srcdir/a.c", 100), ("srcdir/b.c", 100)]);
    let plan = t.build(&m).unwrap();
    assert_eq!(
        plan.compile_cmds,
        vec![
            "gcc -c srcdir/a.c -o obj/a.o -Iinc -O2".to_string(),
            "gcc -c srcdir/b.c -o obj/b.o -Iinc -O2".to_string(),
        ]
    );
    assert_eq!(plan.link_cmd, "gcc -o build/app obj/a.o obj/b.o -O2 -lm");
}

#[test]
fn unchanged_filesystem_recompiles_nothing_but_still_links() {
    let t = two_file_target();
    let m = meta(&[
        ("srcdir/a.c", 100),
        ("srcdir/b.c", 100),
        ("obj/a.o", 200),
        ("obj/b.o", 200),
    ]);
    let plan1 = t.build(&m).unwrap();
    assert_eq!(plan1.compile_cmds, Vec::<String>::new());
    let plan2 = t.build(&m).unwrap();
    assert_eq!(plan1.link_cmd, plan2.link_cmd);
    assert_eq!(plan1.link_cmd, "gcc -o build/app obj/a.o obj/b.o -O2 -lm");
}

#[test]
fn touched_header_recompiles_exactly_its_includer() {
    // x.h is included by a.c only; touching it leaves b.c fresh.
    let files = vec!["srcdir/a.c".to_string(), "srcdir/b.c".to_string()];
    let index = vec![
        entry("srcdir/a.c", &["x.h"]),
        entry("srcdir/b.c", &[]),
        entry("inc/x.h", &[]),
    ];
    let t = Target::new(bc(), tc(TargetKind::Executable), &files, &index).unwrap();
    assert_eq!(t.srcs[0].dependant_includes, vec!["inc/x.h".to_string()]);
    assert_eq!(t.srcs[1].dependant_includes, Vec::<String>::new());
    let m = meta(&[
        ("srcdir/a.c", 100),
        ("srcdir/b.c", 100),
        ("obj/a.o", 200),
        ("obj/b.o", 200),
        ("inc/x.h", 300),
    ]);
    let plan = t.build(&m).unwrap();
    assert_eq!(
        plan.compile_cmds,
        vec!["gcc -c srcdir/a.c -o obj/a.o -Iinc -O2".to_string()]
    );
}

#[test]
fn missing_source_metadata_is_fatal() {
    let t = two_file_target();
    let m = meta(&[("srcdir/a.c", 100), ("obj/a.o", 200), ("obj/b.o", 200)]);
    // b.c has an artifact but no recorded mtime of its own
    match t.build(&m) {
        Err(p) => assert_eq!(p, "srcdir/b.c"),
        Ok(_) => panic!("expected a metadata failure"),
    }
}

#[test]
fn shared_library_gets_pic_flag_and_so_suffix() {
    let files = vec!["srcdir/a.c".to_string()];
    let index = vec![entry("srcdir/a.c", &[])];
    let t = Target::new(bc(), tc(TargetKind::SharedLibrary), &files, &index).unwrap();
    let m = meta(&[("srcdir/a.c", 100)]);
    let plan = t.build(&m).unwrap();
    assert_eq!(
        plan.compile_cmds,
        vec!["gcc -c srcdir/a.c -o obj/a.o -Iinc -O2 -fPIC -shared".to_string()]
    );
    assert_eq!(plan.link_cmd, "gcc -o build/app.so -shared  obj/a.o -O2 -lm");
}

#[test]
fn discovery_twice_yields_identical_targets() {
    let files = vec!["srcdir/a.c".to_string(), "srcdir/b.c".to_string()];
    let index = vec![
        entry("srcdir/a.c", &["x.h"]),
        entry("srcdir/b.c", &["x.h"]),
        entry("inc/x.h", &[]),
    ];
    let t1 = Target::new(bc(), tc(TargetKind::Executable), &files, &index).unwrap();
    let t2 = Target::new(bc(), tc(TargetKind::Executable), &files, &index).unwrap();
    assert_eq!(t1.srcs.len(), t2.srcs.len());
    for (a, b) in t1.srcs.iter().zip(t2.srcs.iter()) {
        assert_eq!(a.path, b.path);
        assert_eq!(a.obj_name, b.obj_name);
        assert_eq!(a.dependant_includes, b.dependant_includes);
    }
    let m = meta(&[
        ("srcdir/a.c", 100),
        ("srcdir/b.c", 100),
        ("obj/a.o", 50),
        ("obj/b.o", 200),
        ("inc/x.h", 100),
    ]);
    let p1 = t1.build(&m).unwrap();
    let p2 = t2.build(&m).unwrap();
    assert_eq!(p1.compile_cmds, p2.compile_cmds);
    assert_eq!(p1.link_cmd, p2.link_cmd);
}

#[test]
fn backslashes_in_walked_paths_are_normalized() {
    let files = vec!["srcdir\\a.c".to_string()];
    let index = vec![entry("srcdir/a.c", &[])];
    let t = Target::new(bc(), tc(TargetKind::Executable), &files, &index).unwrap();
    assert_eq!(t.srcs[0].path, "srcdir/a.c");
}
