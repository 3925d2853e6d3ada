use builder_cpp::strutil::{
    concat2, concat3, file_stem, normalize_path, replace_all, split_ws, str_ends_with,
    str_starts_with,
};
use builder_cpp::utils::{level_from_name, name_of_repo, should_log, source_dir_of, LogLevel};

#[test]
fn concat_builds_strings() {
    assert_eq!(concat2("ab", "cd"), "abcd");
    assert_eq!(concat3("a", "/", "b"), "a/b");
}

#[test]
fn prefix_and_suffix_tests() {
    assert!(str_starts_with("#include \"x.h\"", "#include \""));
    assert!(!str_starts_with(" #include \"", "#include \""));
    assert!(str_ends_with("main.cpp", ".cpp"));
    assert!(str_ends_with("main.c", ".c"));
    assert!(!str_ends_with("main.h", ".c"));
    assert!(!str_ends_with("c", ".c"));
}

#[test]
fn file_stem_takes_last_component_before_first_dot() {
    assert_eq!(file_stem("src/deep/name.test.c"), "name");
    assert_eq!(file_stem("plain.c"), "plain");
    assert_eq!(file_stem("noext"), "noext");
}

#[test]
fn split_ws_splits_on_runs_of_whitespace() {
    let toks = split_ws("  org/repo,\t main \r\n");
    assert_eq!(toks, vec!["org/repo,".to_string(), "main".to_string()]);
    assert_eq!(split_ws("   "), Vec::<String>::new());
    assert_eq!(split_ws("one"), vec!["one".to_string()]);
}

#[test]
fn replace_all_is_left_to_right_and_non_overlapping() {
    assert_eq!(replace_all("a,b,,c", ",", ""), "abc");
    assert_eq!(replace_all("///", "//", "/"), "//");
}

#[test]
fn normalize_path_collapses_separators() {
    assert_eq!(normalize_path("a\\b//c/./d"), "a/b/c/d");
    assert_eq!(
        normalize_path("./.bld_cpp/sources/p1//src"),
        "./.bld_cpp/sources/p1/src"
    );
}

#[test]
fn repo_names_and_staging_dirs() {
    assert_eq!(name_of_repo("org/repo"), "repo");
    assert_eq!(name_of_repo("deep/org/repo"), "repo");
    assert_eq!(name_of_repo("plain"), "plain");
    assert_eq!(source_dir_of("repo"), "./.bld_cpp/sources/repo/");
}

#[test]
fn log_levels_follow_the_configured_threshold() {
    assert!(should_log(LogLevel::Error, LogLevel::Warn));
    assert!(should_log(LogLevel::Warn, LogLevel::Warn));
    assert!(!should_log(LogLevel::Log, LogLevel::Warn));
    // the Debug setting shows debug, warnings and errors only
    assert!(should_log(LogLevel::Debug, LogLevel::Debug));
    assert!(should_log(LogLevel::Warn, LogLevel::Debug));
    assert!(should_log(LogLevel::Error, LogLevel::Debug));
    assert!(!should_log(LogLevel::Info, LogLevel::Debug));
    assert!(!should_log(LogLevel::Log, LogLevel::Debug));
}

#[test]
fn level_names_parse_with_log_fallback() {
    assert_eq!(level_from_name("Debug"), LogLevel::Debug);
    assert_eq!(level_from_name("Info"), LogLevel::Info);
    assert_eq!(level_from_name("Log"), LogLevel::Log);
    assert_eq!(level_from_name("Warn"), LogLevel::Warn);
    assert_eq!(level_from_name("Error"), LogLevel::Error);
    assert_eq!(level_from_name("whatever"), LogLevel::Log);
}
