use tach::check_int::{
    check, check_import, check_modules, import_matches_interface_members,
    is_top_level_module_import, BoundaryError, ImportCheckError,
};
use tach::config::{DependencyConfig, ModuleConfig};
use tach::imports::{NormalizedImport, SourceFile};
use tach::modules::{ModuleNode, ModuleTree};

fn dep(path: &str, deprecated: bool) -> DependencyConfig {
    DependencyConfig { path: path.to_string(), deprecated }
}

fn module(path: &str, strict: bool, depends_on: Vec<DependencyConfig>, members: &[&str]) -> ModuleConfig {
    ModuleConfig {
        path: path.to_string(),
        depends_on,
        strict,
        interface_members: members.iter().map(|m| m.to_string()).collect(),
    }
}

fn tree_of(modules: Vec<ModuleConfig>) -> ModuleTree {
    let mut tree = ModuleTree::new();
    for config in modules {
        assert!(tree.insert(config).is_ok());
    }
    tree
}

fn node(path: &str, members: &[&str]) -> ModuleNode {
    ModuleNode {
        full_path: path.to_string(),
        config: None,
        interface_members: members.iter().map(|m| m.to_string()).collect(),
    }
}

fn import(path: &str, line_no: usize) -> NormalizedImport {
    NormalizedImport { mod_path: path.to_string(), line_no }
}

fn file(path: &str, mod_path: &str, imports: Vec<NormalizedImport>) -> SourceFile {
    SourceFile {
        file_path: path.to_string(),
        absolute_path: format!("/project/{}", path),
        mod_path: mod_path.to_string(),
        imports: Ok(imports),
    }
}

fn core_and_api() -> ModuleTree {
    tree_of(vec![
        module("core", false, vec![], &[]),
        module("api", true, vec![], &["handler"]),
    ])
}

fn summary(errors: &[BoundaryError]) -> Vec<(String, usize, String, String)> {
    errors
        .iter()
        .map(|e| {
            (
                e.file_path.clone(),
                e.line_number,
                e.import_mod_path.clone(),
                e.error_info.to_pystring(),
            )
        })
        .collect()
}

#[test]
fn external_imports_are_allowed() {
    let tree = core_and_api();
    assert!(check_import(&tree, "requests.api", "core.main", None).is_ok());
    assert!(check_import(&tree, "requests.api", "outside.main", None).is_ok());
}

#[test]
fn importing_file_outside_every_module_is_module_not_found() {
    let tree = core_and_api();
    match check_import(&tree, "core.util", "scripts.run", None) {
        Err(ImportCheckError::ModuleNotFound { file_mod_path }) => {
            assert_eq!(file_mod_path, "scripts.run")
        }
        other => panic!("expected ModuleNotFound, got {:?}", other),
    }
}

#[test]
fn same_module_imports_are_allowed_whatever_is_declared() {
    let tree = tree_of(vec![
        module("core", true, vec![dep("core", true)], &[]),
        module("api", true, vec![], &[]),
    ]);
    assert!(check_import(&tree, "core.internal.deep", "core.main", None).is_ok());
    assert!(check_import(&tree, "api.internal", "api.views", None).is_ok());
    let core = tree.get("core").unwrap();
    assert!(check_import(&tree, "core.internal", "core.main", Some(core)).is_ok());
    assert!(check_import(&tree, "core.internal", "elsewhere", Some(core)).is_ok());
}

#[test]
fn strict_module_admits_itself_and_its_interface_members() {
    let tree = tree_of(vec![
        module("m", true, vec![], &["a", "b"]),
        module("user", false, vec![], &[]),
    ]);
    assert!(check_import(&tree, "m", "user.x", None).is_ok());
    assert!(check_import(&tree, "m.a", "user.x", None).is_ok());
    assert!(check_import(&tree, "m.b", "user.x", None).is_ok());
    match check_import(&tree, "m.c", "user.x", None) {
        Err(ImportCheckError::StrictModeImport {
            import_mod_path,
            import_nearest_module_path,
            file_nearest_module_path,
        }) => {
            assert_eq!(import_mod_path, "m.c");
            assert_eq!(import_nearest_module_path, "m");
            assert_eq!(file_nearest_module_path, "user");
        }
        other => panic!("expected StrictModeImport, got {:?}", other),
    }
    assert!(matches!(
        check_import(&tree, "m.a.deep", "user.x", None),
        Err(ImportCheckError::StrictModeImport { .. })
    ));
}

#[test]
fn interface_of_a_strict_module_decides_alone() {
    let tree = tree_of(vec![
        module("m", true, vec![], &["a"]),
        module("user", false, vec![], &[]),
        module("friend", false, vec![dep("m", false)], &[]),
        module("old_friend", false, vec![dep("m", true)], &[]),
    ]);
    for importer in ["user.x", "friend.x", "old_friend.x"] {
        assert!(check_import(&tree, "m.a", importer, None).is_ok(), "from {}", importer);
        assert!(check_import(&tree, "m", importer, None).is_ok(), "from {}", importer);
        assert!(
            matches!(
                check_import(&tree, "m.hidden", importer, None),
                Err(ImportCheckError::StrictModeImport { .. })
            ),
            "from {}",
            importer
        );
    }
}

#[test]
fn deprecated_dependency_is_a_deprecated_import() {
    let tree = tree_of(vec![
        module("m", false, vec![dep("other", true)], &[]),
        module("other", false, vec![], &[]),
    ]);
    match check_import(&tree, "other.thing", "m.file", None) {
        Err(ImportCheckError::DeprecatedImport { import_mod_path, source_module, invalid_module }) => {
            assert_eq!(import_mod_path, "other.thing");
            assert_eq!(source_module, "m");
            assert_eq!(invalid_module, "other");
        }
        other => panic!("expected DeprecatedImport, got {:?}", other),
    }
}

#[test]
fn dependency_declared_both_ways_is_allowed() {
    let tree = tree_of(vec![
        module("m", false, vec![dep("other", true), dep("other", false)], &[]),
        module("other", false, vec![], &[]),
    ]);
    assert!(check_import(&tree, "other.thing", "m.file", None).is_ok());
}

#[test]
fn undeclared_dependency_is_an_invalid_import() {
    let tree = tree_of(vec![
        module("m", false, vec![dep("third", false), dep("fourth", true)], &[]),
        module("other", false, vec![dep("m", false)], &[]),
    ]);
    match check_import(&tree, "other", "m.file", None) {
        Err(ImportCheckError::InvalidImport { import_mod_path, source_module, invalid_module }) => {
            assert_eq!(import_mod_path, "other");
            assert_eq!(source_module, "m");
            assert_eq!(invalid_module, "other");
        }
        other => panic!("expected InvalidImport, got {:?}", other),
    }
    assert!(check_import(&tree, "m.file", "other.x", None).is_ok());
}

#[test]
fn module_without_configuration_cannot_declare_dependencies() {
    let tree = core_and_api();
    let bare = node("plugins", &[]);
    assert!(matches!(
        check_import(&tree, "core.util", "plugins.x", Some(&bare)),
        Err(ImportCheckError::ModuleConfigNotFound())
    ));
    let core = tree.get("core").unwrap();
    assert!(matches!(
        check_modules("plugins.x", &bare, core),
        Err(ImportCheckError::ModuleConfigNotFound())
    ));
}

#[test]
fn supplied_module_gives_the_verdict_of_the_lookup() {
    let tree = tree_of(vec![
        module("m", false, vec![dep("ok", false), dep("old", true)], &[]),
        module("ok", false, vec![], &[]),
        module("old", false, vec![], &[]),
        module("denied", true, vec![], &["api"]),
    ]);
    let m = tree.find_nearest("m.file").unwrap();
    for path in ["ok.x", "old.x", "denied.api", "denied.other", "m.inner", "external"] {
        let looked_up = check_import(&tree, path, "m.file", None).map_err(|e| e.to_pystring());
        let supplied = check_import(&tree, path, "m.file", Some(m)).map_err(|e| e.to_pystring());
        assert_eq!(looked_up, supplied, "import {}", path);
    }
}

#[test]
fn core_and_api_scenario() {
    let tree = core_and_api();
    assert!(check_import(&tree, "api.handler", "core.service", None).is_ok());
    assert!(matches!(
        check_import(&tree, "api.internal", "core.service", None),
        Err(ImportCheckError::StrictModeImport { .. })
    ));
    match check_import(&tree, "core", "api.views", None) {
        Err(ImportCheckError::InvalidImport { import_mod_path, source_module, invalid_module }) => {
            assert_eq!(import_mod_path, "core");
            assert_eq!(source_module, "api");
            assert_eq!(invalid_module, "core");
        }
        other => panic!("expected InvalidImport, got {:?}", other),
    }
}

#[test]
fn legacy_scenario_gives_one_deprecated_warning_and_no_error() {
    let tree = tree_of(vec![
        module("m", false, vec![dep("legacy", true)], &[]),
        module("legacy", false, vec![], &[]),
    ]);
    let files = vec![file("m/main.py", "m.main", vec![import("legacy", 3)])];
    let diagnostics = check(&tree, &Vec::new(), &files);
    assert_eq!(diagnostics.errors.len(), 0);
    assert_eq!(diagnostics.deprecated_warnings.len(), 1);
    assert_eq!(diagnostics.warnings.len(), 0);
    let warning = &diagnostics.deprecated_warnings[0];
    assert_eq!(warning.file_path, "m/main.py");
    assert_eq!(warning.line_number, 3);
    assert_eq!(warning.import_mod_path, "legacy");
    assert!(warning.error_info.is_deprecated());
    assert!(warning.error_info.is_dependency_error());
}

#[test]
fn check_routes_findings_in_the_order_of_files_and_imports() {
    let tree = tree_of(vec![
        module("a", false, vec![dep("b", false), dep("old", true)], &[]),
        module("b", true, vec![], &["api"]),
        module("old", false, vec![], &[]),
        module("c", false, vec![], &[]),
    ]);
    let files = vec![
        file(
            "a/one.py",
            "a.one",
            vec![import("b.api", 1), import("b.hidden", 2), import("old.x", 3), import("c.x", 4)],
        ),
        file("scripts/run.py", "scripts.run", vec![import("a.one", 1)]),
        file("c/two.py", "c.two", vec![import("a.one", 9), import("old", 10), import("c.three", 11)]),
        SourceFile {
            file_path: "a/broken.py".to_string(),
            absolute_path: "/project/a/broken.py".to_string(),
            mod_path: "a.broken".to_string(),
            imports: Err("syntax error".to_string()),
        },
    ];
    let diagnostics = check(&tree, &vec!["ghost".to_string(), "gone.too".to_string()], &files);
    let s = |x: &str| x.to_string();
    assert_eq!(
        summary(&diagnostics.errors),
        vec![
            (
                s("a/one.py"),
                2,
                s("b.hidden"),
                s("Module 'b' is in strict mode. Only imports from the public interface of this module are allowed. The import 'b.hidden' (in module 'a') is not included in __all__.")
            ),
            (s("a/one.py"), 4, s("c.x"), s("Cannot import 'c.x'. Module 'a' cannot depend on 'c'.")),
            (s("c/two.py"), 9, s("a.one"), s("Cannot import 'a.one'. Module 'c' cannot depend on 'a'.")),
            (s("c/two.py"), 10, s("old"), s("Cannot import 'old'. Module 'c' cannot depend on 'old'.")),
        ]
    );
    assert_eq!(
        summary(&diagnostics.deprecated_warnings),
        vec![(
            s("a/one.py"),
            3,
            s("old.x"),
            s("Import 'old.x' is deprecated. Module 'a' should not depend on 'old'.")
        )]
    );
    assert_eq!(
        diagnostics.warnings,
        vec![
            s("Module 'ghost' not found. It will be ignored."),
            s("Module 'gone.too' not found. It will be ignored."),
        ]
    );
}

#[test]
fn check_warns_when_no_import_was_found() {
    let tree = core_and_api();
    let hint = "WARNING: No first-party imports were found. You may need to use 'tach mod' to update your Python source roots. Docs: https://docs.gauge.sh/usage/configuration#source-roots";
    let none = check(&tree, &Vec::new(), &Vec::new());
    assert_eq!(none.warnings, vec![hint.to_string()]);
    assert!(none.errors.is_empty() && none.deprecated_warnings.is_empty());

    let files = vec![
        file("core/empty.py", "core.empty", vec![]),
        file("scripts/run.py", "scripts.run", vec![import("core", 1)]),
        SourceFile {
            file_path: "core/broken.py".to_string(),
            absolute_path: "/project/core/broken.py".to_string(),
            mod_path: "core.broken".to_string(),
            imports: Err("unreadable".to_string()),
        },
    ];
    let ungoverned = check(&tree, &vec!["lost".to_string()], &files);
    assert_eq!(
        ungoverned.warnings,
        vec!["Module 'lost' not found. It will be ignored.".to_string(), hint.to_string()]
    );

    let files = vec![file("core/a.py", "core.a", vec![import("core.b", 1)])];
    let found = check(&tree, &Vec::new(), &files);
    assert!(found.warnings.is_empty());
    assert!(found.errors.is_empty());
}

#[test]
fn error_classification() {
    let s = |x: &str| x.to_string();
    let not_found = ImportCheckError::ModuleNotFound { file_mod_path: s("f") };
    let strict = ImportCheckError::StrictModeImport {
        import_mod_path: s("m.c"),
        import_nearest_module_path: s("m"),
        file_nearest_module_path: s("n"),
    };
    let no_config = ImportCheckError::ModuleConfigNotFound();
    let invalid = ImportCheckError::InvalidImport {
        import_mod_path: s("a.b"),
        source_module: s("c"),
        invalid_module: s("a"),
    };
    let deprecated = ImportCheckError::DeprecatedImport {
        import_mod_path: s("a.b"),
        source_module: s("c"),
        invalid_module: s("a"),
    };
    assert!(!not_found.is_dependency_error() && !not_found.is_deprecated());
    assert!(!strict.is_dependency_error() && !strict.is_deprecated());
    assert!(!no_config.is_dependency_error() && !no_config.is_deprecated());
    assert!(invalid.is_dependency_error() && !invalid.is_deprecated());
    assert!(deprecated.is_dependency_error() && deprecated.is_deprecated());
}

#[test]
fn error_messages() {
    let s = |x: &str| x.to_string();
    assert_eq!(
        ImportCheckError::ModuleNotFound { file_mod_path: s("scripts.run") }.to_pystring(),
        "Module containing 'scripts.run' not found in project."
    );
    assert_eq!(
        ImportCheckError::StrictModeImport {
            import_mod_path: s("api.internal"),
            import_nearest_module_path: s("api"),
            file_nearest_module_path: s("core"),
        }
        .to_pystring(),
        "Module 'api' is in strict mode. Only imports from the public interface of this module are allowed. The import 'api.internal' (in module 'core') is not included in __all__."
    );
    assert_eq!(
        ImportCheckError::ModuleConfigNotFound().to_pystring(),
        "Could not find module configuration."
    );
    assert_eq!(
        ImportCheckError::InvalidImport {
            import_mod_path: s("core.x"),
            source_module: s("api"),
            invalid_module: s("core"),
        }
        .to_pystring(),
        "Cannot import 'core.x'. Module 'api' cannot depend on 'core'."
    );
    assert_eq!(
        ImportCheckError::DeprecatedImport {
            import_mod_path: s("legacy.x"),
            source_module: s("m"),
            invalid_module: s("legacy"),
        }
        .to_pystring(),
        "Import 'legacy.x' is deprecated. Module 'm' should not depend on 'legacy'."
    );
}

#[test]
fn top_level_import_names_the_module() {
    let m = node("pkg.mod", &[]);
    assert!(is_top_level_module_import("pkg.mod", &m));
    assert!(!is_top_level_module_import("pkg.mod.x", &m));
    assert!(!is_top_level_module_import("pkg", &m));
}

#[test]
fn interface_members_are_matched_at_the_last_dot() {
    let m = node("pkg.mod", &["run", "stop"]);
    assert!(import_matches_interface_members("pkg.mod.run", &m));
    assert!(import_matches_interface_members("pkg.mod.stop", &m));
    assert!(!import_matches_interface_members("pkg.mod.other", &m));
    assert!(!import_matches_interface_members("pkg.mod.run.deep", &m));
    assert!(!import_matches_interface_members("pkg.mod", &m));
    assert!(!import_matches_interface_members("pkg.other.run", &m));
    assert!(!import_matches_interface_members("run", &m));
    let top = node("single", &["single"]);
    assert!(import_matches_interface_members("single", &top));
    assert!(import_matches_interface_members("single.single", &top));
    assert!(!import_matches_interface_members("other", &top));
    let dotted = node("m", &["a.b"]);
    assert!(!import_matches_interface_members("m.a.b", &dotted));
}
