use builder_cpp::includes::{extract_includes, resolve_source, FileEntry, ResolveError};

fn entry(path: &str, includes: &[&str]) -> FileEntry {
    FileEntry {
        path: path.to_string(),
        includes: includes.iter().map(|s| s.to_string()).collect(),
    }
}

#[test]
fn extracts_quote_includes_in_order() {
    let text = "#include \"a.h\"\n#include <sys.h>\nint x;\n#include \"b/c.h\"\n";
    let incs = extract_includes(text);
    assert_eq!(incs, vec!["a.h".to_string(), "b/c.h".to_string()]);
}

#[test]
fn extract_handles_crlf_and_missing_close_quote() {
    let text = "#include \"a.h\"\r\n#include \"open\n";
    let incs = extract_includes(text);
    assert_eq!(incs, vec!["a.h".to_string(), "open".to_string()]);
}

#[test]
fn extract_empty_text_is_empty() {
    assert_eq!(extract_includes(""), Vec::<String>::new());
}

#[test]
fn extract_requires_line_start() {
    let text = "  #include \"a.h\"\nx #include \"b.h\"\n";
    assert_eq!(extract_includes(text), Vec::<String>::new());
}

#[test]
fn diamond_header_appears_exactly_once() {
    // src -> a.h, b.h; both a.h and b.h -> c.h
    let fs = vec![
        entry("src.c", &["a.h", "b.h"]),
        entry("inc/a.h", &["c.h"]),
        entry("inc/b.h", &["c.h"]),
        entry("inc/c.h", &[]),
    ];
    let mut cache = Vec::new();
    let r = resolve_source(&fs, "inc", &"src.c".to_string(), &mut cache).unwrap();
    assert_eq!(
        r,
        vec!["inc/c.h".to_string(), "inc/a.h".to_string(), "inc/b.h".to_string()]
    );
}

#[test]
fn mutual_includes_terminate() {
    let fs = vec![
        entry("src.c", &["a.h"]),
        entry("inc/a.h", &["b.h"]),
        entry("inc/b.h", &["a.h"]),
    ];
    let mut cache = Vec::new();
    let r = resolve_source(&fs, "inc", &"src.c".to_string(), &mut cache).unwrap();
    assert_eq!(r, vec!["inc/b.h".to_string(), "inc/a.h".to_string()]);
}

#[test]
fn missing_header_is_fatal() {
    let fs = vec![entry("src.c", &["gone.h"])];
    let mut cache = Vec::new();
    let r = resolve_source(&fs, "inc", &"src.c".to_string(), &mut cache);
    match r {
        Err(ResolveError::MissingFile(p)) => assert_eq!(p, "inc/gone.h"),
        _ => panic!("expected a missing-file failure"),
    }
}

#[test]
fn missing_source_is_fatal() {
    let fs = vec![entry("other.c", &[])];
    let mut cache = Vec::new();
    let r = resolve_source(&fs, "inc", &"src.c".to_string(), &mut cache);
    match r {
        Err(ResolveError::MissingFile(p)) => assert_eq!(p, "src.c"),
        _ => panic!("expected a missing-file failure"),
    }
}

#[test]
fn resolving_twice_yields_identical_sets() {
    let fs = vec![
        entry("src.c", &["a.h", "b.h"]),
        entry("inc/a.h", &["c.h"]),
        entry("inc/b.h", &["c.h"]),
        entry("inc/c.h", &[]),
    ];
    let mut cache1 = Vec::new();
    let r1 = resolve_source(&fs, "inc", &"src.c".to_string(), &mut cache1).unwrap();
    let mut cache2 = Vec::new();
    let r2 = resolve_source(&fs, "inc", &"src.c".to_string(), &mut cache2).unwrap();
    assert_eq!(r1, r2);
    // a second resolution through the warm cache of the same target
    let r3 = resolve_source(&fs, "inc", &"src.c".to_string(), &mut cache1).unwrap();
    assert_eq!(r1, r3);
}
