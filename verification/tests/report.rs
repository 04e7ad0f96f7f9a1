use std::cmp::Ordering;
use tach::cli::{create_clickable_link, TerminalEnvironment};
use tach::colors::BColors;
use tach::commands::report::{
    collect_file_entries, compare_dependencies, create_dependency_report, dependency_precedes,
    sort_dependencies, Dependency, DependencyReport, FileEntries, ReportCreationError, ReportQuery,
};
use tach::config::ModuleConfig;
use tach::imports::{NormalizedImport, SourceFile};
use tach::modules::{ModuleTree, ModuleTreeError};

fn tree_of(paths: &[&str]) -> ModuleTree {
    let mut tree = ModuleTree::new();
    for path in paths {
        let config = ModuleConfig {
            path: path.to_string(),
            depends_on: Vec::new(),
            strict: false,
            interface_members: Vec::new(),
        };
        assert!(tree.insert(config).is_ok());
    }
    tree
}

fn import(path: &str, line_no: usize) -> NormalizedImport {
    NormalizedImport { mod_path: path.to_string(), line_no }
}

fn file(path: &str, mod_path: &str, imports: Vec<NormalizedImport>) -> SourceFile {
    SourceFile {
        file_path: path.to_string(),
        absolute_path: format!("/project/{}", path),
        mod_path: mod_path.to_string(),
        imports: Ok(imports),
    }
}

fn broken(path: &str, mod_path: &str, reason: &str) -> SourceFile {
    SourceFile {
        file_path: path.to_string(),
        absolute_path: format!("/project/{}", path),
        mod_path: mod_path.to_string(),
        imports: Err(reason.to_string()),
    }
}

fn entry(path: &str, line_no: usize, imported: &str, source: &str, target: &str) -> Dependency {
    Dependency {
        file_path: path.to_string(),
        absolute_path: format!("/project/{}", path),
        import: import(imported, line_no),
        source_module: source.to_string(),
        target_module: target.to_string(),
    }
}

fn query(target: &str) -> ReportQuery {
    ReportQuery {
        target_path: target.to_string(),
        include_dependency_modules: None,
        include_usage_modules: None,
        skip_dependencies: false,
        skip_usages: false,
    }
}

fn places(deps: &[Dependency]) -> Vec<(String, usize, String, String, String)> {
    deps.iter()
        .map(|d| {
            (
                d.file_path.clone(),
                d.import.line_no,
                d.import.mod_path.clone(),
                d.source_module.clone(),
                d.target_module.clone(),
            )
        })
        .collect()
}

fn link(path: &str, line: usize) -> String {
    format!("\x1b]8;;file:///project/{}\x1b\\{}[L{}]\x1b]8;;\x1b\\", path, path, line)
}

fn line(path: &str, line_no: usize, imported: &str) -> String {
    format!("\x1b[92m{}\x1b[0m: \x1b[96mImport '{}'\x1b[0m", link(path, line_no), imported)
}

fn project() -> (ModuleTree, Vec<SourceFile>) {
    let tree = tree_of(&["x", "y", "z", "x.inner"]);
    let files = vec![
        file("y/b.py", "y.b", vec![import("x.api", 7), import("z.tool", 8), import("x", 2)]),
        file(
            "x/a.py",
            "x.a",
            vec![import("z.tool", 5), import("y.b", 3), import("x.other", 6), import("x.inner.c", 4)],
        ),
        file("x/inner/c.py", "x.inner.c", vec![import("y.b", 1), import("numpy.linalg", 2)]),
        broken("z/bad.py", "z.bad", "Failed to parse z/bad.py"),
        file("scripts/run.py", "scripts.run", vec![import("x.a", 1)]),
        file("z/tool.py", "z.tool", vec![import("x.a", 12), import("xa.b", 13)]),
    ];
    (tree, files)
}

#[test]
fn colours_are_ansi_escape_sequences() {
    assert_eq!(BColors::OKGREEN, "\u{1b}[92m");
    assert_eq!(BColors::OKCYAN, "\u{1b}[96m");
    assert_eq!(BColors::WARNING, "\u{1b}[93m");
    assert_eq!(BColors::ENDC, "\u{1b}[0m");
}

#[test]
fn clickable_link_for_each_terminal() {
    assert_eq!(
        create_clickable_link(TerminalEnvironment::Unknown, "pkg/a.py", "/root/pkg/a.py", 12),
        "\x1b]8;;file:///root/pkg/a.py\x1b\\pkg/a.py[L12]\x1b]8;;\x1b\\"
    );
    assert_eq!(
        create_clickable_link(TerminalEnvironment::JetBrains, "pkg/a.py", "/root/pkg/a.py", 12),
        "\x1b]8;;file:///root/pkg/a.py:12\x1b\\pkg/a.py[L12]\x1b]8;;\x1b\\"
    );
    assert_eq!(
        create_clickable_link(TerminalEnvironment::VSCode, "pkg/a.py", "/root/pkg/a.py", 1050),
        "\x1b]8;;vscode://file//root/pkg/a.py:1050\x1b\\pkg/a.py[L1050]\x1b]8;;\x1b\\"
    );
}

#[test]
fn compare_dependencies_orders_by_path_then_line() {
    let a3 = entry("a.py", 3, "m", "s", "t");
    let a10 = entry("a.py", 10, "m", "s", "t");
    let b1 = entry("b.py", 1, "m", "s", "t");
    let a3_other = entry("a.py", 3, "other", "s2", "t2");
    assert_eq!(compare_dependencies(&a3, &a10), Ordering::Less);
    assert_eq!(compare_dependencies(&a10, &a3), Ordering::Greater);
    assert_eq!(compare_dependencies(&a10, &b1), Ordering::Less);
    assert_eq!(compare_dependencies(&b1, &a3), Ordering::Greater);
    assert_eq!(compare_dependencies(&a3, &a3_other), Ordering::Equal);
    assert_eq!(compare_dependencies(&a3, &a3), Ordering::Equal);
    assert!(dependency_precedes(&a3, &a10));
    assert!(!dependency_precedes(&a10, &a3));
    assert!(!dependency_precedes(&a3, &a3_other));
}

#[test]
fn sort_dependencies_is_stable() {
    let mut deps = vec![
        entry("b.py", 2, "first", "s", "t"),
        entry("a.py", 9, "second", "s", "t"),
        entry("b.py", 2, "third", "s", "t"),
        entry("a.py", 1, "fourth", "s", "t"),
        entry("b.py", 1, "fifth", "s", "t"),
        entry("a.py", 9, "sixth", "s", "t"),
    ];
    sort_dependencies(&mut deps);
    let order: Vec<&str> = deps.iter().map(|d| d.import.mod_path.as_str()).collect();
    assert_eq!(order, vec!["fourth", "second", "sixth", "fifth", "first", "third"]);

    let mut none: Vec<Dependency> = Vec::new();
    sort_dependencies(&mut none);
    assert!(none.is_empty());
}

#[test]
fn sort_dependencies_agrees_with_a_stable_sort() {
    let mut deps = Vec::new();
    let mut expected = Vec::new();
    let mut seed: usize = 17;
    for i in 0..40 {
        seed = (seed * 31 + 7) % 101;
        let path = format!("f{}.py", seed % 4);
        let line_no = seed % 5;
        deps.push(entry(&path, line_no, &format!("m{}", i), "s", "t"));
        expected.push((path, line_no, format!("m{}", i)));
    }
    expected.sort_by(|l, r| (&l.0, l.1).cmp(&(&r.0, r.1)));
    sort_dependencies(&mut deps);
    let got: Vec<(String, usize, String)> = deps
        .iter()
        .map(|d| (d.file_path.clone(), d.import.line_no, d.import.mod_path.clone()))
        .collect();
    assert_eq!(got, expected);
}

#[test]
fn new_report_is_empty() {
    let report = DependencyReport::new("x/a.py".to_string(), TerminalEnvironment::VSCode);
    assert_eq!(report.path, "x/a.py");
    assert_eq!(report.terminal, TerminalEnvironment::VSCode);
    assert!(report.dependencies.is_empty());
    assert!(report.usages.is_empty());
    assert!(report.warnings.is_empty());
}

#[test]
fn render_dependency_shows_link_and_import() {
    let report = DependencyReport::new("x".to_string(), TerminalEnvironment::Unknown);
    let dep = entry("x/a.py", 5, "z.tool", "x", "z");
    assert_eq!(
        report.render_dependency(&dep),
        "\x1b[92m\x1b]8;;file:///project/x/a.py\x1b\\x/a.py[L5]\x1b]8;;\x1b\\\x1b[0m: \x1b[96mImport 'z.tool'\x1b[0m"
    );
}

#[test]
fn raw_report_lists_sorted_module_names_once() {
    let mut report = DependencyReport::new("x".to_string(), TerminalEnvironment::Unknown);
    report.dependencies = vec![
        entry("x/a.py", 5, "z.tool", "x", "z"),
        entry("x/a.py", 3, "y.b", "x", "y"),
        entry("x/c.py", 1, "z.other", "x", "z"),
    ];
    report.usages = vec![
        entry("y/b.py", 7, "x.api", "y", "x"),
        entry("w/b.py", 7, "x.api", "w", "x"),
        entry("y/c.py", 2, "x", "y", "x"),
    ];
    report.warnings = vec!["ignored in raw mode".to_string()];
    assert_eq!(
        report.render_to_string(false, false, true),
        "# Module Dependencies\ny\nz\n# Module Usages\nw\ny"
    );
    assert_eq!(report.render_to_string(true, false, true), "# Module Usages\nw\ny");
    assert_eq!(report.render_to_string(false, true, true), "# Module Dependencies\ny\nz");
    assert_eq!(places(&report.dependencies)[0].2, "z.tool");
    assert_eq!(places(&report.usages)[0].3, "y");
}

#[test]
fn raw_report_leaves_out_empty_sections() {
    let mut report = DependencyReport::new("x".to_string(), TerminalEnvironment::Unknown);
    assert_eq!(report.render_to_string(false, false, true), "");
    report.usages = vec![entry("y/b.py", 7, "x.api", "y", "x")];
    assert_eq!(report.render_to_string(false, false, true), "# Module Usages\ny");
}

#[test]
fn raw_report_does_not_depend_on_the_order_of_entries() {
    let deps = || {
        vec![
            entry("x/a.py", 5, "z.tool", "x", "z"),
            entry("x/a.py", 3, "y.b", "x", "y"),
            entry("x/c.py", 1, "w.other", "x", "w"),
            entry("x/c.py", 2, "y.b", "x", "y"),
        ]
    };
    let mut forward = DependencyReport::new("x".to_string(), TerminalEnvironment::Unknown);
    forward.dependencies = deps();
    let mut backward = DependencyReport::new("x".to_string(), TerminalEnvironment::Unknown);
    backward.dependencies = deps();
    backward.dependencies.reverse();
    let first = forward.render_to_string(false, false, true);
    assert_eq!(first, "# Module Dependencies\nw\ny\nz");
    assert_eq!(backward.render_to_string(false, false, true), first);
    assert_eq!(forward.render_to_string(false, false, true), first);
}

#[test]
fn formatted_report_of_an_empty_report() {
    let mut report = DependencyReport::new("x/a.py".to_string(), TerminalEnvironment::Unknown);
    assert_eq!(
        report.render_to_string(false, false, false),
        "[ Dependency Report for 'x/a.py' ]\n\
         -------------------------------\n\
         [ Dependencies of 'x/a.py' ]\n\
         \x1b[93mNo dependencies found.\x1b[0m\n\
         -------------------------------\n\
         [ Usages of 'x/a.py' ]\n\
         \x1b[93mNo usages found.\x1b[0m\n\
         -------------------------------\n"
    );
}

#[test]
fn formatted_report_sorts_its_sections_and_shows_warnings() {
    let mut report = DependencyReport::new("x".to_string(), TerminalEnvironment::Unknown);
    report.dependencies = vec![
        entry("x/c.py", 1, "z.other", "x", "z"),
        entry("x/a.py", 5, "z.tool", "x", "z"),
        entry("x/a.py", 3, "y.b", "x", "y"),
    ];
    report.usages = vec![entry("y/b.py", 7, "x.api", "y", "x")];
    report.warnings = vec!["first warning".to_string(), "second warning".to_string()];
    let expected = format!(
        "[ Dependency Report for 'x' ]\n-------------------------------\n\
         [ Dependencies of 'x' ]\n{}\n{}\n{}\n-------------------------------\n\
         [ Usages of 'x' ]\n{}\n-------------------------------\n\
         [ Warnings ]\n\x1b[93mfirst warning\nsecond warning\x1b[0m",
        line("x/a.py", 3, "y.b"),
        line("x/a.py", 5, "z.tool"),
        line("x/c.py", 1, "z.other"),
        line("y/b.py", 7, "x.api"),
    );
    assert_eq!(report.render_to_string(false, false, false), expected);
    let order: Vec<String> = places(&report.dependencies).into_iter().map(|p| p.2).collect();
    assert_eq!(order, vec!["y.b", "z.tool", "z.other"]);
}

#[test]
fn formatted_report_leaves_a_skipped_section_as_it_is() {
    let mut report = DependencyReport::new("x".to_string(), TerminalEnvironment::Unknown);
    report.dependencies =
        vec![entry("x/c.py", 1, "z.other", "x", "z"), entry("x/a.py", 5, "z.tool", "x", "z")];
    report.usages =
        vec![entry("y/b.py", 7, "x.api", "y", "x"), entry("w/b.py", 1, "x.api", "w", "x")];
    let text = report.render_to_string(true, false, false);
    let expected = format!(
        "[ Dependency Report for 'x' ]\n-------------------------------\n\
         [ Usages of 'x' ]\n{}\n{}\n-------------------------------\n",
        line("w/b.py", 1, "x.api"),
        line("y/b.py", 7, "x.api"),
    );
    assert_eq!(text, expected);
    assert_eq!(places(&report.dependencies)[0].0, "x/c.py");
    assert_eq!(places(&report.usages)[0].0, "w/b.py");
}

#[test]
fn report_with_usages_skipped_has_no_usages_section() {
    let tree = tree_of(&["x", "y"]);
    let files = vec![
        file("x/a.py", "x.a", vec![import("y.b", 3)]),
        file("y/b.py", "y.b", vec![import("y.c", 1)]),
    ];
    let mut q = query("x.a");
    q.skip_usages = true;
    let text =
        create_dependency_report(&tree, "x/a.py", &q, &files, false, TerminalEnvironment::Unknown)
            .unwrap();
    assert!(text.contains("Dependencies"));
    assert!(!text.contains("Usages"));
    assert_eq!(
        text,
        format!(
            "[ Dependency Report for 'x/a.py' ]\n-------------------------------\n\
             [ Dependencies of 'x/a.py' ]\n{}\n-------------------------------\n",
            line("x/a.py", 3, "y.b")
        )
    );
}

#[test]
fn nothing_to_report_when_both_sections_are_skipped() {
    let (tree, files) = project();
    let mut q = query("x");
    q.skip_dependencies = true;
    q.skip_usages = true;
    for raw in [false, true] {
        let result =
            create_dependency_report(&tree, "x", &q, &files, raw, TerminalEnvironment::Unknown);
        assert!(matches!(result, Err(ReportCreationError::NothingToReport)));
    }
    let mut q = query("nowhere");
    q.skip_dependencies = true;
    q.skip_usages = true;
    let result =
        create_dependency_report(&tree, "nowhere", &q, &files, true, TerminalEnvironment::Unknown);
    assert!(matches!(result, Err(ReportCreationError::NothingToReport)));
}

#[test]
fn module_not_found_when_no_module_encloses_the_path() {
    let (tree, files) = project();
    let q = query("scripts.run");
    match create_dependency_report(&tree, "scripts/run.py", &q, &files, true, TerminalEnvironment::Unknown) {
        Err(ReportCreationError::ModuleTree(ModuleTreeError::ModuleNotFound(path))) => {
            assert_eq!(path, "scripts.run")
        }
        other => panic!("expected module not found, got {:?}", other),
    }
}

#[test]
fn raw_report_of_a_project() {
    let (tree, files) = project();
    let text =
        create_dependency_report(&tree, "x", &query("x"), &files, true, TerminalEnvironment::Unknown)
            .unwrap();
    assert_eq!(text, "# Module Dependencies\nx.inner\ny\nz\n# Module Usages\ny\nz");
}

#[test]
fn raw_report_does_not_depend_on_the_order_of_files() {
    let (tree, mut files) = project();
    let q = query("x");
    let first =
        create_dependency_report(&tree, "x", &q, &files, true, TerminalEnvironment::Unknown).unwrap();
    let again =
        create_dependency_report(&tree, "x", &q, &files, true, TerminalEnvironment::Unknown).unwrap();
    assert_eq!(first, again);
    files.reverse();
    let reversed =
        create_dependency_report(&tree, "x", &q, &files, true, TerminalEnvironment::Unknown).unwrap();
    assert_eq!(first, reversed);
    files.rotate_left(2);
    let rotated =
        create_dependency_report(&tree, "x", &q, &files, true, TerminalEnvironment::Unknown).unwrap();
    assert_eq!(first, rotated);
}

#[test]
fn file_inside_the_path_adds_dependencies_only() {
    let (tree, files) = project();
    let target = tree.find_nearest("x").unwrap();
    let FileEntries { dependencies, usages, warning } =
        collect_file_entries(&tree, &query("x"), target, &files[1]);
    let s = |x: &str| x.to_string();
    assert_eq!(
        places(&dependencies),
        vec![
            (s("x/a.py"), 5, s("z.tool"), s("x"), s("z")),
            (s("x/a.py"), 3, s("y.b"), s("x"), s("y")),
            (s("x/a.py"), 4, s("x.inner.c"), s("x"), s("x.inner")),
        ]
    );
    assert_eq!(dependencies[0].absolute_path, "/project/x/a.py");
    assert!(usages.is_empty());
    assert!(warning.is_none());

    let inner = collect_file_entries(&tree, &query("x"), target, &files[2]);
    assert_eq!(places(&inner.dependencies), vec![(s("x/inner/c.py"), 1, s("y.b"), s("x"), s("y"))]);
}

#[test]
fn file_outside_the_path_adds_usages_only() {
    let (tree, files) = project();
    let target = tree.find_nearest("x").unwrap();
    let s = |x: &str| x.to_string();
    let found = collect_file_entries(&tree, &query("x"), target, &files[0]);
    assert!(found.dependencies.is_empty());
    assert_eq!(
        places(&found.usages),
        vec![
            (s("y/b.py"), 7, s("x.api"), s("y"), s("x")),
            (s("y/b.py"), 2, s("x"), s("y"), s("x")),
        ]
    );
    let tool = collect_file_entries(&tree, &query("x"), target, &files[5]);
    assert_eq!(places(&tool.usages), vec![(s("z/tool.py"), 12, s("x.a"), s("z"), s("x"))]);
    let ungoverned = collect_file_entries(&tree, &query("x"), target, &files[4]);
    assert!(ungoverned.usages.is_empty() && ungoverned.dependencies.is_empty());
}

#[test]
fn file_that_could_not_be_read_adds_a_warning() {
    let (tree, files) = project();
    let target = tree.find_nearest("x").unwrap();
    let found = collect_file_entries(&tree, &query("x"), target, &files[3]);
    assert!(found.dependencies.is_empty() && found.usages.is_empty());
    assert_eq!(found.warning, Some("Failed to parse z/bad.py".to_string()));
}

#[test]
fn sections_can_be_restricted_to_modules() {
    let (tree, files) = project();
    let mut q = query("x");
    q.include_dependency_modules = Some(vec!["z".to_string(), "x.inner".to_string()]);
    q.include_usage_modules = Some(vec!["y".to_string()]);
    let text =
        create_dependency_report(&tree, "x", &q, &files, true, TerminalEnvironment::Unknown).unwrap();
    assert_eq!(text, "# Module Dependencies\nx.inner\nz\n# Module Usages\ny");
    q.include_dependency_modules = Some(vec!["y".to_string()]);
    q.include_usage_modules = Some(vec!["z".to_string(), "scripts".to_string()]);
    let text =
        create_dependency_report(&tree, "x", &q, &files, true, TerminalEnvironment::Unknown).unwrap();
    assert_eq!(text, "# Module Dependencies\ny\n# Module Usages\nz");
    q.include_dependency_modules = Some(Vec::new());
    q.include_usage_modules = Some(Vec::new());
    let text =
        create_dependency_report(&tree, "x", &q, &files, true, TerminalEnvironment::Unknown).unwrap();
    assert_eq!(text, "");
}

#[test]
fn report_on_a_path_below_a_module() {
    let (tree, files) = project();
    let text = create_dependency_report(
        &tree,
        "x/inner",
        &query("x.inner"),
        &files,
        true,
        TerminalEnvironment::Unknown,
    )
    .unwrap();
    assert_eq!(text, "# Module Dependencies\ny\n# Module Usages\nx");
    let text = create_dependency_report(
        &tree,
        "y/b.py",
        &query("y.b"),
        &files,
        true,
        TerminalEnvironment::Unknown,
    )
    .unwrap();
    assert_eq!(text, "# Module Dependencies\nx\nz\n# Module Usages\nx\nx.inner");
}

#[test]
fn formatted_report_of_a_project() {
    let (tree, files) = project();
    let text =
        create_dependency_report(&tree, "x", &query("x"), &files, false, TerminalEnvironment::Unknown)
            .unwrap();
    let expected = format!(
        "[ Dependency Report for 'x' ]\n-------------------------------\n\
         [ Dependencies of 'x' ]\n{}\n{}\n{}\n{}\n-------------------------------\n\
         [ Usages of 'x' ]\n{}\n{}\n{}\n-------------------------------\n\
         [ Warnings ]\n\x1b[93mFailed to parse z/bad.py\x1b[0m",
        line("x/a.py", 3, "y.b"),
        line("x/a.py", 4, "x.inner.c"),
        line("x/a.py", 5, "z.tool"),
        line("x/inner/c.py", 1, "y.b"),
        line("y/b.py", 2, "x"),
        line("y/b.py", 7, "x.api"),
        line("z/tool.py", 12, "x.a"),
    );
    assert_eq!(text, expected);
}

#[test]
fn extend_adds_to_the_end() {
    let mut report = DependencyReport::new("x".to_string(), TerminalEnvironment::Unknown);
    report.extend(FileEntries {
        dependencies: vec![entry("x/a.py", 5, "z.tool", "x", "z")],
        usages: Vec::new(),
        warning: Some("one".to_string()),
    });
    report.extend(FileEntries {
        dependencies: vec![entry("x/b.py", 1, "y", "x", "y")],
        usages: vec![entry("y/b.py", 7, "x.api", "y", "x")],
        warning: None,
    });
    report.extend(FileEntries { dependencies: Vec::new(), usages: Vec::new(), warning: Some("two".to_string()) });
    assert_eq!(places(&report.dependencies).len(), 2);
    assert_eq!(places(&report.dependencies)[1].0, "x/b.py");
    assert_eq!(places(&report.usages).len(), 1);
    assert_eq!(report.warnings, vec!["one".to_string(), "two".to_string()]);
}

#[test]
fn report_error_messages() {
    assert_eq!(
        ReportCreationError::Io("disk full".to_string()).message(),
        "I/O failure during report generation:\ndisk full"
    );
    assert_eq!(
        ReportCreationError::Filesystem("no such file".to_string()).message(),
        "Filesystem error: no such file"
    );
    assert_eq!(
        ReportCreationError::ImportParse("bad syntax".to_string()).message(),
        "Import parsing error: bad syntax"
    );
    assert_eq!(
        ReportCreationError::NothingToReport.message(),
        "Nothing to report when skipping dependencies and usages."
    );
    assert_eq!(
        ReportCreationError::ModuleTree(ModuleTreeError::ModuleNotFound("x.y".to_string())).message(),
        "Module tree build error: Module 'x.y' not found."
    );
    assert_eq!(ReportCreationError::Interrupted.message(), "Operation interrupted");
}
