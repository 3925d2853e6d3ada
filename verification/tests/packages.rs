use builder_cpp::utils::{
    validate_targets, BuildConfig, ConfigError, ConfigEntry, Package, PackageError, PkgAction,
    TargetConfig, TargetKind,
};

fn bc(packages: &[&str]) -> BuildConfig {
    BuildConfig {
        compiler: "gcc".to_string(),
        build_dir: "build".to_string(),
        obj_dir: "obj".to_string(),
        packages: packages.iter().map(|s| s.to_string()).collect(),
    }
}

fn tc(name: &str, typ: TargetKind) -> TargetConfig {
    TargetConfig {
        name: name.to_string(),
        src: "src".to_string(),
        include_dir: "include".to_string(),
        typ,
        cflags: "".to_string(),
        libs: "".to_string(),
        deps: vec![],
    }
}

fn cfg(path: &str, build: BuildConfig, targets: Vec<TargetConfig>) -> ConfigEntry {
    ConfigEntry { path: path.to_string(), build, targets }
}

fn pkg_cfg_path(name: &str) -> String {
    format!("./.bld_cpp/sources/{}//config_linux.toml", name)
}

fn three_package_store() -> Vec<ConfigEntry> {
    vec![
        cfg("config_linux.toml", bc(&["org/p1, main", "org/p2, main"]), vec![]),
        cfg(
            &pkg_cfg_path("p1"),
            BuildConfig {
                compiler: "clang".to_string(),
                build_dir: "p1build".to_string(),
                obj_dir: "p1obj".to_string(),
                packages: vec!["org/p3, main".to_string()],
            },
            vec![tc("p1lib", TargetKind::SharedLibrary), tc("p1tool", TargetKind::Executable)],
        ),
        cfg(&pkg_cfg_path("p2"), bc(&[]), vec![tc("p2lib", TargetKind::SharedLibrary)]),
        cfg(&pkg_cfg_path("p3"), bc(&[]), vec![]),
    ]
}

#[test]
fn exactly_one_executable_is_required() {
    let two_exes = vec![tc("a", TargetKind::Executable), tc("b", TargetKind::Executable)];
    assert_eq!(validate_targets(&two_exes), Err(ConfigError::ExeCountNotOne));
    let none: Vec<TargetConfig> = vec![];
    assert_eq!(validate_targets(&none), Err(ConfigError::NoTargets));
    let only_libs = vec![tc("a", TargetKind::SharedLibrary)];
    assert_eq!(validate_targets(&only_libs), Err(ConfigError::ExeCountNotOne));
    let good = vec![tc("a", TargetKind::Executable), tc("b", TargetKind::SharedLibrary)];
    assert_eq!(validate_targets(&good), Ok(()));
}

#[test]
fn dependencies_come_before_dependents() {
    // root declares [p1, p2]; p1 declares [p3]: flattened as p3, p1, p2.
    let store = three_package_store();
    let dirs: Vec<String> = vec![];
    let (result, _actions) =
        Package::parse_packages(&store, &dirs, &"config_linux.toml".to_string());
    let pkgs = result.unwrap();
    let names: Vec<&str> = pkgs.iter().map(|p| p.name.as_str()).collect();
    assert_eq!(names, vec!["p3", "p1", "p2"]);
    assert_eq!(pkgs[1].repo, "org/p1");
    assert_eq!(pkgs[1].branch, "main");
}

#[test]
fn merged_settings_take_the_root_toolchain() {
    let store = three_package_store();
    let dirs: Vec<String> = vec![];
    let (result, _) = Package::parse_packages(&store, &dirs, &"config_linux.toml".to_string());
    let pkgs = result.unwrap();
    // p1's own compiler (clang) is overwritten with the root's values
    assert_eq!(pkgs[1].build_config.compiler, "gcc");
    assert_eq!(pkgs[1].build_config.build_dir, "build");
    assert_eq!(pkgs[1].build_config.obj_dir, "obj");
    assert_eq!(pkgs[1].build_config.packages, vec!["org/p3, main".to_string()]);
}

#[test]
fn executables_of_dependencies_are_skipped_and_dlls_remapped() {
    let store = three_package_store();
    let dirs: Vec<String> = vec![];
    let (result, _) = Package::parse_packages(&store, &dirs, &"config_linux.toml".to_string());
    let pkgs = result.unwrap();
    // p1 exposes only its shared library, with rewritten roots
    assert_eq!(pkgs[1].target_configs.len(), 1);
    let lib = &pkgs[1].target_configs[0];
    assert_eq!(lib.name, "p1lib");
    assert_eq!(lib.src, "./.bld_cpp/sources/p1/src");
    assert_eq!(lib.include_dir, "./.bld_cpp/includes/p1");
    assert_eq!(lib.typ, TargetKind::SharedLibrary);
}

#[test]
fn fresh_resolution_plans_mkdir_clone_and_include_staging() {
    let store = three_package_store();
    let dirs: Vec<String> = vec![];
    let (result, actions) =
        Package::parse_packages(&store, &dirs, &"config_linux.toml".to_string());
    assert!(result.is_ok());
    let mut clones = Vec::new();
    for a in &actions {
        if let PkgAction::CloneRepo { url, branch, dest } = a {
            clones.push((url.clone(), branch.clone(), dest.clone()));
        }
    }
    assert_eq!(
        clones,
        vec![
            (
                "https://github.com/org/p1".to_string(),
                "main".to_string(),
                "./.bld_cpp/sources/p1/".to_string()
            ),
            (
                "https://github.com/org/p3".to_string(),
                "main".to_string(),
                "./.bld_cpp/sources/p3/".to_string()
            ),
            (
                "https://github.com/org/p2".to_string(),
                "main".to_string(),
                "./.bld_cpp/sources/p2/".to_string()
            ),
        ]
    );
    let copies: Vec<(String, String)> = actions
        .iter()
        .filter_map(|a| match a {
            PkgAction::CopyIncludes { from, to } => Some((from.clone(), to.clone())),
            _ => None,
        })
        .collect();
    assert_eq!(
        copies,
        vec![
            (
                "./.bld_cpp/sources/p1/include".to_string(),
                "./.bld_cpp/includes/p1".to_string()
            ),
            (
                "./.bld_cpp/sources/p2/include".to_string(),
                "./.bld_cpp/includes/p2".to_string()
            ),
        ]
    );
}

#[test]
fn staged_filesystem_triggers_no_clone_but_reparses_targets() {
    // Scenario: every staging directory already exists.
    let store = three_package_store();
    let dirs: Vec<String> = vec![
        "./.bld_cpp/sources/p1/".to_string(),
        "./.bld_cpp/sources/p2/".to_string(),
        "./.bld_cpp/sources/p3/".to_string(),
        "./.bld_cpp/includes/p1".to_string(),
        "./.bld_cpp/includes/p2".to_string(),
        "obj".to_string(),
    ];
    let (result, actions) =
        Package::parse_packages(&store, &dirs, &"config_linux.toml".to_string());
    let pkgs = result.unwrap();
    assert_eq!(actions.len(), 0);
    // records are still re-appended from the re-parsed configs
    let names: Vec<&str> = pkgs.iter().map(|p| p.name.as_str()).collect();
    assert_eq!(names, vec!["p3", "p1", "p2"]);
    assert_eq!(pkgs[1].target_configs.len(), 1);
}

#[test]
fn malformed_declaration_is_fatal() {
    let store = vec![cfg("config_linux.toml", bc(&["justonetoken"]), vec![])];
    let dirs: Vec<String> = vec![];
    let (result, _) = Package::parse_packages(&store, &dirs, &"config_linux.toml".to_string());
    match result {
        Err(PackageError::MalformedDecl(d)) => assert_eq!(d, "justonetoken"),
        _ => panic!("expected a malformed-declaration failure"),
    }
}

#[test]
fn missing_dependency_config_names_the_file_to_fetch() {
    let store = vec![cfg("config_linux.toml", bc(&["org/px, main"]), vec![])];
    let dirs: Vec<String> = vec![];
    let (result, actions) =
        Package::parse_packages(&store, &dirs, &"config_linux.toml".to_string());
    match result {
        Err(PackageError::MissingConfig(p)) => assert_eq!(p, pkg_cfg_path("px")),
        _ => panic!("expected a missing-config failure"),
    }
    // the planned actions tell the caller how to obtain it
    assert_eq!(actions.len(), 2);
    match &actions[1] {
        PkgAction::CloneRepo { url, branch, dest } => {
            assert_eq!(url, "https://github.com/org/px");
            assert_eq!(branch, "main");
            assert_eq!(dest, "./.bld_cpp/sources/px/");
        },
        _ => panic!("expected a clone action"),
    }
}

#[test]
fn package_new_bundles_its_parts() {
    let p = Package::new(
        "n".to_string(),
        "o/n".to_string(),
        "main".to_string(),
        bc(&[]),
        vec![tc("l", TargetKind::SharedLibrary)],
    );
    assert_eq!(p.name, "n");
    assert_eq!(p.repo, "o/n");
    assert_eq!(p.branch, "main");
    assert_eq!(p.build_config.compiler, "gcc");
    assert_eq!(p.target_configs.len(), 1);
}

#[test]
fn cyclic_package_declarations_are_rejected() {
    // p1 declares p2 and p2 declares p1: resolution terminates with an error
    // instead of recursing forever.
    let store = vec![
        cfg("config_linux.toml", bc(&["org/p1, main"]), vec![]),
        cfg(&pkg_cfg_path("p1"), bc(&["org/p2, main"]), vec![]),
        cfg(&pkg_cfg_path("p2"), bc(&["org/p1, main"]), vec![]),
    ];
    let dirs: Vec<String> = vec![];
    let (result, _) = Package::parse_packages(&store, &dirs, &"config_linux.toml".to_string());
    match result {
        Err(PackageError::DepthExceeded) => {},
        _ => panic!("expected resolution to give up on the cycle"),
    }
}
