//! The dependency report: what the module of a path imports from other
//! modules, and what other modules import from it.

use crate::cli::{clickable_link, create_clickable_link, TerminalEnvironment};
use crate::colors::BColors;
use crate::imports::{
    file_views, import_views, NormalizedImport, NormalizedImportView, SourceFile, SourceFileView,
};
use crate::modules::{
    is_module_prefix, is_module_prefix_spec, nearest, ModuleNode, ModuleNodeView, ModuleTree,
    ModuleTreeError, ModuleTreeErrorView,
};
use crate::sorting::{lemma_sorted_names_ignores_order, sort_names, sorted_names};
use crate::text::{
    join, join_strings, lemma_lex_lt_irreflexive, lemma_lex_lt_total, lemma_lex_lt_transitive,
    lex_lt, str_lt, strings_contain, texts,
};
use std::cmp::Ordering;
use vstd::prelude::*;

verus! {

/// One import that a report lists: the file and line it stands on, the
/// module that imports and the module that is imported.
#[derive(Debug)]
pub struct Dependency {
    pub file_path: String,
    pub absolute_path: String,
    pub import: NormalizedImport,
    pub source_module: String,
    pub target_module: String,
}

/// The mathematical value of a [`Dependency`].
pub struct DependencyView {
    pub file_path: Seq<char>,
    pub absolute_path: Seq<char>,
    pub import: NormalizedImportView,
    pub source_module: Seq<char>,
    pub target_module: Seq<char>,
}

impl View for Dependency {
    type V = DependencyView;

    open spec fn view(&self) -> DependencyView {
        DependencyView {
            file_path: self.file_path@,
            absolute_path: self.absolute_path@,
            import: self.import@,
            source_module: self.source_module@,
            target_module: self.target_module@,
        }
    }
}

/// The value of each entry of `deps`, in order.
pub open spec fn dependency_views(deps: Seq<Dependency>) -> Seq<DependencyView> {
    Seq::new(deps.len(), |i: int| deps[i]@)
}

/// The order in which a report lists its entries: by file path, and
/// within one file by line.
pub open spec fn dependency_lt(a: DependencyView, b: DependencyView) -> bool {
    lex_lt(a.file_path, b.file_path) || (a.file_path == b.file_path && a.import.line_no
        < b.import.line_no)
}

/// Compares two entries by file path, and within one file by line.
pub fn compare_dependencies(left: &Dependency, right: &Dependency) -> (o: Ordering)
    ensures
        (o == Ordering::Less) == dependency_lt(left@, right@),
        (o == Ordering::Greater) == dependency_lt(right@, left@),
{
    proof {
        lemma_lex_lt_total(left@.file_path, right@.file_path);
        lemma_lex_lt_irreflexive(left@.file_path);
    }
    if str_lt(left.file_path.as_str(), right.file_path.as_str()) {
        Ordering::Less
    } else if str_lt(right.file_path.as_str(), left.file_path.as_str()) {
        Ordering::Greater
    } else if left.import.line_no < right.import.line_no {
        Ordering::Less
    } else if left.import.line_no > right.import.line_no {
        Ordering::Greater
    } else {
        Ordering::Equal
    }
}

/// Whether `left` comes strictly before `right` in the order of a
/// report.
pub fn dependency_precedes(left: &Dependency, right: &Dependency) -> (r: bool)
    ensures
        r == dependency_lt(left@, right@),
{
    match compare_dependencies(left, right) {
        Ordering::Less => true,
        _ => false,
    }
}

/// `sorted` with `dep` put behind every entry that does not come after
/// it.
pub open spec fn insert_dependency(sorted: Seq<DependencyView>, dep: DependencyView) -> Seq<
    DependencyView,
>
    decreases sorted.len(),
{
    if sorted.len() == 0 {
        seq![dep]
    } else if dependency_lt(dep, sorted.last()) {
        insert_dependency(sorted.drop_last(), dep).push(sorted.last())
    } else {
        sorted.push(dep)
    }
}

/// The entries of `deps` in the order of a report. Entries of one file
/// and line stay in the order in which `deps` holds them.
pub open spec fn sorted_dependencies(deps: Seq<DependencyView>) -> Seq<DependencyView>
    decreases deps.len(),
{
    if deps.len() == 0 {
        Seq::empty()
    } else {
        insert_dependency(sorted_dependencies(deps.drop_last()), deps.last())
    }
}

/// Where `dep` goes into `sorted`: before the entries that come after
/// it, and behind all others.
pub proof fn lemma_insert_dependency_at(sorted: Seq<DependencyView>, dep: DependencyView, pos: int)
    requires
        0 <= pos <= sorted.len(),
        forall|k: int| pos <= k < sorted.len() ==> dependency_lt(dep, sorted[k]),
        pos > 0 ==> !dependency_lt(dep, sorted[pos - 1]),
    ensures
        insert_dependency(sorted, dep) == sorted.insert(pos, dep),
    decreases sorted.len(),
{
    if sorted.len() == 0 {
        assert(sorted.insert(0, dep) =~= seq![dep]);
    } else if pos == sorted.len() {
        assert(sorted.insert(pos, dep) =~= sorted.push(dep));
    } else {
        let init = sorted.drop_last();
        assert forall|k: int| pos <= k < init.len() implies dependency_lt(dep, init[k]) by {
            assert(init[k] == sorted[k]);
        }
        if pos > 0 {
            assert(init[pos - 1] == sorted[pos - 1]);
        }
        lemma_insert_dependency_at(init, dep, pos);
        assert(init.insert(pos, dep).push(sorted.last()) =~= sorted.insert(pos, dep));
    }
}

/// Sorts the entries into the order of a report. Entries of one file and
/// line keep their order.
pub fn sort_dependencies(deps: &mut Vec<Dependency>)
    ensures
        dependency_views(final(deps)@) == sorted_dependencies(dependency_views(old(deps)@)),
{
    let ghost all = dependency_views(deps@);
    let mut i: usize = 0;
    assert(all.take(0) =~= Seq::<DependencyView>::empty());
    assert(dependency_views(deps@).take(0) =~= Seq::<DependencyView>::empty());
    assert(all.skip(0) =~= all);
    while i < deps.len()
        invariant
            i <= deps.len(),
            deps@.len() == all.len(),
            dependency_views(deps@).take(i as int) == sorted_dependencies(all.take(i as int)),
            dependency_views(deps@).skip(i as int) == all.skip(i as int),
        decreases deps.len() - i,
    {
        let ghost before = dependency_views(deps@);
        let ghost sorted = before.take(i as int);
        let dep = deps.remove(i);
        let ghost without = dependency_views(deps@);
        assert(without =~= before.remove(i as int));
        assert(dep@ == all.skip(i as int)[0]);
        let mut pos: usize = i;
        while pos > 0 && dependency_precedes(&dep, &deps[pos - 1])
            invariant
                pos <= i,
                i <= deps.len(),
                without == dependency_views(deps@),
                forall|k: int| pos <= k < i ==> dependency_lt(dep@, #[trigger] without[k]),
            decreases pos,
        {
            pos -= 1;
        }
        deps.insert(pos, dep);
        proof {
            let after = dependency_views(deps@);
            assert(after =~= without.insert(pos as int, dep@));
            assert(without.take(i as int) =~= sorted);
            assert forall|k: int| pos <= k < sorted.len() implies dependency_lt(
                dep@,
                sorted[k],
            ) by {
                assert(sorted[k] == without[k]);
            }
            if pos > 0 {
                assert(sorted[pos - 1] == without[pos - 1]);
            }
            lemma_insert_dependency_at(sorted, dep@, pos as int);
            assert(after.take(i + 1) =~= sorted.insert(pos as int, dep@));
            assert(all.take(i + 1).drop_last() =~= all.take(i as int));
            assert(all.take(i + 1).last() == dep@);
            let rest = after.skip(i + 1);
            let rest_of_all = all.skip(i + 1);
            assert(rest =~= rest_of_all) by {
                assert forall|k: int| 0 <= k < all.len() - i - 1 implies #[trigger] rest[k]
                    == rest_of_all[k] by {
                    assert(after[i + 1 + k] == without[i + k]);
                    assert(without[i + k] == before[i + 1 + k]);
                    assert(before.skip(i as int)[k + 1] == all.skip(i as int)[k + 1]);
                }
            }
        }
        i += 1;
    }
    assert(dependency_views(deps@).take(i as int) =~= dependency_views(deps@));
    assert(all.take(i as int) =~= all);
}

/// A dependency report in the making: the path it is about, the
/// terminal it is written for, the entries found so far and the notices
/// on files that could not be read.
#[derive(Debug)]
pub struct DependencyReport {
    pub path: String,
    pub terminal: TerminalEnvironment,
    pub dependencies: Vec<Dependency>,
    pub usages: Vec<Dependency>,
    pub warnings: Vec<String>,
}

/// The mathematical value of a [`DependencyReport`].
pub struct DependencyReportView {
    pub path: Seq<char>,
    pub terminal: TerminalEnvironment,
    pub dependencies: Seq<DependencyView>,
    pub usages: Seq<DependencyView>,
    pub warnings: Seq<Seq<char>>,
}

impl View for DependencyReport {
    type V = DependencyReportView;

    open spec fn view(&self) -> DependencyReportView {
        DependencyReportView {
            path: self.path@,
            terminal: self.terminal,
            dependencies: dependency_views(self.dependencies@),
            usages: dependency_views(self.usages@),
            warnings: texts(self.warnings@),
        }
    }
}

/// The line of a formatted report for one entry: the link to the import
/// in green, then the imported path in cyan.
pub open spec fn render_dependency_spec(terminal: TerminalEnvironment, dep: DependencyView) -> Seq<
    char,
> {
    BColors::OKGREEN@ + clickable_link(
        terminal,
        dep.file_path,
        dep.absolute_path,
        dep.import.line_no,
    ) + BColors::ENDC@ + ": "@ + BColors::OKCYAN@ + "Import '"@ + dep.import.mod_path + "'"@
        + BColors::ENDC@
}

/// The line of each entry of `deps`, in order.
pub open spec fn rendered_dependencies(terminal: TerminalEnvironment, deps: Seq<DependencyView>) -> Seq<
    Seq<char>,
> {
    Seq::new(deps.len(), |i: int| render_dependency_spec(terminal, deps[i]))
}

/// The imported module of each entry of `deps`, in order.
pub open spec fn target_modules(deps: Seq<DependencyView>) -> Seq<Seq<char>> {
    Seq::new(deps.len(), |i: int| deps[i].target_module)
}

/// The importing module of each entry of `deps`, in order.
pub open spec fn source_modules(deps: Seq<DependencyView>) -> Seq<Seq<char>> {
    Seq::new(deps.len(), |i: int| deps[i].source_module)
}

/// One section of a raw report: nothing if the section is skipped or
/// has no entry, else its header line and then the names of the
/// section's modules, sorted, each once.
pub open spec fn raw_section(skip: bool, header: Seq<char>, names: Seq<Seq<char>>) -> Seq<
    Seq<char>,
> {
    if skip || names.len() == 0 {
        Seq::empty()
    } else {
        seq![header] + sorted_names(names)
    }
}

/// The lines of a raw report: the section of the dependencies, then the
/// section of the usages.
pub open spec fn raw_lines(
    report: DependencyReportView,
    skip_dependencies: bool,
    skip_usages: bool,
) -> Seq<Seq<char>> {
    raw_section(skip_dependencies, "# Module Dependencies"@, target_modules(report.dependencies))
        + raw_section(skip_usages, "# Module Usages"@, source_modules(report.usages))
}

/// What stands under the title of a section of a formatted report: the
/// lines of its entries in the order of a report, or a note in yellow
/// if it has none.
pub open spec fn section_body(
    terminal: TerminalEnvironment,
    deps: Seq<DependencyView>,
    empty_note: Seq<char>,
) -> Seq<char> {
    if deps.len() == 0 {
        BColors::WARNING@ + empty_note + BColors::ENDC@
    } else {
        join(rendered_dependencies(terminal, sorted_dependencies(deps)), "\n"@)
    }
}

/// One section of a formatted report: nothing if it is skipped, else
/// its title, its body and a rule.
pub open spec fn formatted_section(
    skip: bool,
    title: Seq<char>,
    path: Seq<char>,
    body: Seq<char>,
) -> Seq<char> {
    if skip {
        Seq::empty()
    } else {
        "[ "@ + (title + path + "'"@) + " ]\n"@ + body + "\n-------------------------------\n"@
    }
}

/// The section of the notices: nothing if there is none, else the title
/// and the notices in yellow, one on a line.
pub open spec fn warnings_section(warnings: Seq<Seq<char>>) -> Seq<char> {
    if warnings.len() == 0 {
        Seq::empty()
    } else {
        "[ Warnings ]\n"@ + BColors::WARNING@ + join(warnings, "\n"@) + BColors::ENDC@
    }
}

/// The text of a formatted report.
pub open spec fn render_formatted(
    report: DependencyReportView,
    skip_dependencies: bool,
    skip_usages: bool,
) -> Seq<char> {
    "[ "@ + ("Dependency Report for '"@ + report.path + "'"@)
        + " ]\n-------------------------------\n"@ + formatted_section(
        skip_dependencies,
        "Dependencies of '"@,
        report.path,
        section_body(report.terminal, report.dependencies, "No dependencies found."@),
    ) + formatted_section(
        skip_usages,
        "Usages of '"@,
        report.path,
        section_body(report.terminal, report.usages, "No usages found."@),
    ) + warnings_section(report.warnings)
}

/// The text of a report: raw, the lines of `raw_lines` joined by line
/// breaks; else the formatted report.
pub open spec fn render_spec(
    report: DependencyReportView,
    skip_dependencies: bool,
    skip_usages: bool,
    raw: bool,
) -> Seq<char> {
    if raw {
        join(raw_lines(report, skip_dependencies, skip_usages), "\n"@)
    } else {
        render_formatted(report, skip_dependencies, skip_usages)
    }
}

/// The report after rendering: a formatted rendering leaves each
/// section that it shows in the order of a report.
pub open spec fn rendered_report(
    report: DependencyReportView,
    skip_dependencies: bool,
    skip_usages: bool,
    raw: bool,
) -> DependencyReportView {
    DependencyReportView {
        dependencies: if raw || skip_dependencies {
            report.dependencies
        } else {
            sorted_dependencies(report.dependencies)
        },
        usages: if raw || skip_usages {
            report.usages
        } else {
            sorted_dependencies(report.usages)
        },
        ..report
    }
}

/// The imported module of each entry of `deps` if `imported`, else the
/// importing module of each.
fn module_names(deps: &Vec<Dependency>, imported: bool) -> (names: Vec<String>)
    ensures
        texts(names@) == if imported {
            target_modules(dependency_views(deps@))
        } else {
            source_modules(dependency_views(deps@))
        },
{
    let mut names: Vec<String> = Vec::new();
    let mut i: usize = 0;
    while i < deps.len()
        invariant
            i <= deps.len(),
            names@.len() == i,
            forall|k: int|
                0 <= k < i ==> (#[trigger] names@[k])@ == if imported {
                    deps@[k].target_module@
                } else {
                    deps@[k].source_module@
                },
        decreases deps.len() - i,
    {
        if imported {
            names.push(deps[i].target_module.clone());
        } else {
            names.push(deps[i].source_module.clone());
        }
        i += 1;
    }
    if imported {
        assert(texts(names@) =~= target_modules(dependency_views(deps@)));
    } else {
        assert(texts(names@) =~= source_modules(dependency_views(deps@)));
    }
    names
}

/// Adds one section of a raw report to `lines`.
fn push_raw_section(lines: &mut Vec<String>, skip: bool, header: &str, names: Vec<String>)
    ensures
        texts(final(lines)@) == texts(old(lines)@) + raw_section(skip, header@, texts(names@)),
{
    if skip || names.len() == 0 {
        assert(texts(lines@) + Seq::empty() =~= texts(lines@));
        return ;
    }
    let ghost before = lines@;
    lines.push(String::from_str(header));
    let mut sorted = sort_names(&names);
    let ghost sorted_before = sorted@;
    lines.append(&mut sorted);
    assert(texts(lines@) =~= texts(before) + (seq![header@] + texts(sorted_before)));
}

impl DependencyReport {
    /// A report on `path` that holds no entry yet.
    pub fn new(path: String, terminal: TerminalEnvironment) -> (report: DependencyReport)
        ensures
            report@ == (DependencyReportView {
                path: path@,
                terminal,
                dependencies: Seq::empty(),
                usages: Seq::empty(),
                warnings: Seq::empty(),
            }),
    {
        let report = DependencyReport {
            path,
            terminal,
            dependencies: Vec::new(),
            usages: Vec::new(),
            warnings: Vec::new(),
        };
        assert(report@.dependencies =~= Seq::empty());
        assert(report@.usages =~= Seq::empty());
        assert(report@.warnings =~= Seq::empty());
        report
    }

    /// The line of a formatted report for `dependency`.
    pub fn render_dependency(&self, dependency: &Dependency) -> (r: String)
        ensures
            r@ == render_dependency_spec(self.terminal, dependency@),
    {
        let clickable_link = create_clickable_link(
            self.terminal,
            dependency.file_path.as_str(),
            dependency.absolute_path.as_str(),
            dependency.import.line_no,
        );
        let mut r = String::from_str(BColors::OKGREEN);
        r.append(clickable_link.as_str());
        r.append(BColors::ENDC);
        r.append(": ");
        r.append(BColors::OKCYAN);
        r.append("Import '");
        r.append(dependency.import.mod_path.as_str());
        r.append("'");
        r.append(BColors::ENDC);
        r
    }

    /// The body of a section of a formatted report on entries that are
    /// in the order of a report already.
    fn render_section_body(&self, deps: &Vec<Dependency>, empty_note: &str) -> (r: String)
        ensures
            r@ == if deps@.len() == 0 {
                BColors::WARNING@ + empty_note@ + BColors::ENDC@
            } else {
                join(rendered_dependencies(self.terminal, dependency_views(deps@)), "\n"@)
            },
    {
        if deps.len() == 0 {
            let mut r = String::from_str(BColors::WARNING);
            r.append(empty_note);
            r.append(BColors::ENDC);
            return r;
        }
        let mut lines: Vec<String> = Vec::new();
        let mut i: usize = 0;
        while i < deps.len()
            invariant
                i <= deps.len(),
                lines@.len() == i,
                forall|k: int|
                    0 <= k < i ==> (#[trigger] lines@[k])@ == render_dependency_spec(
                        self.terminal,
                        deps@[k]@,
                    ),
            decreases deps.len() - i,
        {
            lines.push(self.render_dependency(&deps[i]));
            i += 1;
        }
        assert(texts(lines@) =~= rendered_dependencies(self.terminal, dependency_views(deps@)));
        join_strings(&lines, "\n")
    }

    /// One section of a formatted report, with its title and rule.
    fn render_section(&self, title: &str, body: &str) -> (r: String)
        ensures
            r@ == formatted_section(false, title@, self.path@, body@),
    {
        let mut heading = String::from_str(title);
        heading.append(self.path.as_str());
        heading.append("'");
        let mut r = String::from_str("[ ");
        r.append(heading.as_str());
        r.append(" ]\n");
        r.append(body);
        r.append("\n-------------------------------\n");
        r
    }

    /// Writes the report.
    ///
    /// Raw, the report is the sorted names of the modules that the path
    /// depends on and of the modules that use it, each section under a
    /// header line. Formatted, it lists every entry with a link to its
    /// place, each section in the order of a report, and leaves the
    /// entries of the report in that order.
    pub fn render_to_string(&mut self, skip_dependencies: bool, skip_usages: bool, raw: bool) -> (r:
        String)
        ensures
            r@ == render_spec(old(self)@, skip_dependencies, skip_usages, raw),
            final(self)@ == rendered_report(old(self)@, skip_dependencies, skip_usages, raw),
    {
        if raw {
            let mut lines: Vec<String> = Vec::new();
            assert(texts(lines@) =~= Seq::<Seq<char>>::empty());
            push_raw_section(
                &mut lines,
                skip_dependencies,
                "# Module Dependencies",
                module_names(&self.dependencies, true),
            );
            push_raw_section(
                &mut lines,
                skip_usages,
                "# Module Usages",
                module_names(&self.usages, false),
            );
            assert(texts(lines@) =~= raw_lines(self@, skip_dependencies, skip_usages));
            return join_strings(&lines, "\n");
        }
        let ghost before = self@;
        let mut title = String::from_str("Dependency Report for '");
        title.append(self.path.as_str());
        title.append("'");
        let mut result = String::from_str("[ ");
        result.append(title.as_str());
        result.append(" ]\n-------------------------------\n");
        let ghost head = result@;

        if !skip_dependencies {
            sort_dependencies(&mut self.dependencies);
            let deps_display = self.render_section_body(
                &self.dependencies,
                "No dependencies found.",
            );
            let section = self.render_section("Dependencies of '", deps_display.as_str());
            result.append(section.as_str());
        }
        let ghost with_dependencies = result@;
        assert(with_dependencies =~= head + formatted_section(
            skip_dependencies,
            "Dependencies of '"@,
            before.path,
            section_body(before.terminal, before.dependencies, "No dependencies found."@),
        )) by {
            lemma_sorted_dependencies_len(before.dependencies);
        }

        if !skip_usages {
            sort_dependencies(&mut self.usages);
            let usages_display = self.render_section_body(&self.usages, "No usages found.");
            let section = self.render_section("Usages of '", usages_display.as_str());
            result.append(section.as_str());
        }
        let ghost with_usages = result@;
        assert(with_usages =~= with_dependencies + formatted_section(
            skip_usages,
            "Usages of '"@,
            before.path,
            section_body(before.terminal, before.usages, "No usages found."@),
        )) by {
            lemma_sorted_dependencies_len(before.usages);
        }

        if !self.warnings.is_empty() {
            let mut section = String::from_str("[ Warnings ]\n");
            section.append(BColors::WARNING);
            section.append(join_strings(&self.warnings, "\n").as_str());
            section.append(BColors::ENDC);
            result.append(section.as_str());
        }
        assert(result@ =~= with_usages + warnings_section(before.warnings));
        result
    }
}

/// Sorting keeps the number of entries.
pub proof fn lemma_sorted_dependencies_len(deps: Seq<DependencyView>)
    ensures
        sorted_dependencies(deps).len() == deps.len(),
    decreases deps.len(),
{
    if deps.len() > 0 {
        lemma_sorted_dependencies_len(deps.drop_last());
        lemma_insert_dependency_len(sorted_dependencies(deps.drop_last()), deps.last());
    }
}

/// Putting an entry in its place adds one entry.
pub proof fn lemma_insert_dependency_len(sorted: Seq<DependencyView>, dep: DependencyView)
    ensures
        insert_dependency(sorted, dep).len() == sorted.len() + 1,
    decreases sorted.len(),
{
    if sorted.len() > 0 && dependency_lt(dep, sorted.last()) {
        lemma_insert_dependency_len(sorted.drop_last(), dep);
    }
}

/// Why a report could not be made.
#[derive(Debug)]
pub enum ReportCreationError {
    /// Reading or writing failed; the text is that of the failure.
    Io(String),
    /// A path could not be mapped to a module path.
    Filesystem(String),
    /// The imports of a file could not be extracted.
    ImportParse(String),
    /// Both the dependencies and the usages were to be skipped.
    NothingToReport,
    /// The module tree could not be built, or holds no module for the
    /// path of the report.
    ModuleTree(ModuleTreeError),
    /// The run was interrupted.
    Interrupted,
}

/// The mathematical value of a [`ReportCreationError`].
pub enum ReportCreationErrorView {
    Io(Seq<char>),
    Filesystem(Seq<char>),
    ImportParse(Seq<char>),
    NothingToReport,
    ModuleTree(ModuleTreeErrorView),
    Interrupted,
}

impl ReportCreationErrorView {
    /// The message of the error.
    pub open spec fn message(self) -> Seq<char> {
        match self {
            ReportCreationErrorView::Io(reason) => "I/O failure during report generation:\n"@
                + reason,
            ReportCreationErrorView::Filesystem(reason) => "Filesystem error: "@ + reason,
            ReportCreationErrorView::ImportParse(reason) => "Import parsing error: "@ + reason,
            ReportCreationErrorView::NothingToReport => "Nothing to report when skipping dependencies and usages."@,
            ReportCreationErrorView::ModuleTree(error) => "Module tree build error: "@
                + error.message(),
            ReportCreationErrorView::Interrupted => "Operation interrupted"@,
        }
    }
}

impl View for ReportCreationError {
    type V = ReportCreationErrorView;

    open spec fn view(&self) -> ReportCreationErrorView {
        match self {
            ReportCreationError::Io(reason) => ReportCreationErrorView::Io(reason@),
            ReportCreationError::Filesystem(reason) => ReportCreationErrorView::Filesystem(reason@),
            ReportCreationError::ImportParse(reason) => ReportCreationErrorView::ImportParse(
                reason@,
            ),
            ReportCreationError::NothingToReport => ReportCreationErrorView::NothingToReport,
            ReportCreationError::ModuleTree(error) => ReportCreationErrorView::ModuleTree(error@),
            ReportCreationError::Interrupted => ReportCreationErrorView::Interrupted,
        }
    }
}

impl ReportCreationError {
    /// The message of the error.
    pub fn message(&self) -> (r: String)
        ensures
            r@ == self@.message(),
    {
        match self {
            ReportCreationError::Io(reason) => {
                let mut r = String::from_str("I/O failure during report generation:\n");
                r.append(reason.as_str());
                r
            },
            ReportCreationError::Filesystem(reason) => {
                let mut r = String::from_str("Filesystem error: ");
                r.append(reason.as_str());
                r
            },
            ReportCreationError::ImportParse(reason) => {
                let mut r = String::from_str("Import parsing error: ");
                r.append(reason.as_str());
                r
            },
            ReportCreationError::NothingToReport => String::from_str(
                "Nothing to report when skipping dependencies and usages.",
            ),
            ReportCreationError::ModuleTree(error) => {
                let mut r = String::from_str("Module tree build error: ");
                r.append(error.message().as_str());
                r
            },
            ReportCreationError::Interrupted => String::from_str("Operation interrupted"),
        }
    }
}

/// What a report is asked to hold: the dotted path it is about, which of
/// its two sections it leaves out, and for each section the modules to
/// which it is restricted, if it is restricted.
pub struct ReportQuery {
    /// The dotted module path of the path that the report is about.
    pub target_path: String,
    pub include_dependency_modules: Option<Vec<String>>,
    pub include_usage_modules: Option<Vec<String>>,
    pub skip_dependencies: bool,
    pub skip_usages: bool,
}

/// The mathematical value of a [`ReportQuery`].
pub struct ReportQueryView {
    pub target_path: Seq<char>,
    pub include_dependency_modules: Option<Seq<Seq<char>>>,
    pub include_usage_modules: Option<Seq<Seq<char>>>,
    pub skip_dependencies: bool,
    pub skip_usages: bool,
}

/// The value of an optional list of names.
pub open spec fn optional_texts(names: Option<Vec<String>>) -> Option<Seq<Seq<char>>> {
    match names {
        Some(names) => Some(texts(names@)),
        None => None,
    }
}

impl View for ReportQuery {
    type V = ReportQueryView;

    open spec fn view(&self) -> ReportQueryView {
        ReportQueryView {
            target_path: self.target_path@,
            include_dependency_modules: optional_texts(self.include_dependency_modules),
            include_usage_modules: optional_texts(self.include_usage_modules),
            skip_dependencies: self.skip_dependencies,
            skip_usages: self.skip_usages,
        }
    }
}

/// Whether a section that is restricted to `filter` admits the module
/// `name`. A section without a restriction admits every module.
pub open spec fn admits(filter: Option<Seq<Seq<char>>>, name: Seq<char>) -> bool {
    match filter {
        Some(names) => names.contains(name),
        None => true,
    }
}

/// The entry for an import of a file that lies inside the path of the
/// report: the import is a dependency if it resolves to a module other
/// than the target module that the section admits.
pub open spec fn import_dependency(
    tree: Map<Seq<char>, ModuleNodeView>,
    query: ReportQueryView,
    target_module: ModuleNodeView,
    file: SourceFileView,
    import: NormalizedImportView,
) -> Option<DependencyView> {
    match nearest(tree, import.mod_path) {
        Some(import_module) => if import_module.full_path != target_module.full_path && admits(
            query.include_dependency_modules,
            import_module.full_path,
        ) {
            Some(
                DependencyView {
                    file_path: file.file_path,
                    absolute_path: file.absolute_path,
                    import,
                    source_module: target_module.full_path,
                    target_module: import_module.full_path,
                },
            )
        } else {
            None
        },
        None => None,
    }
}

/// The entry for an import of a file that lies outside the path of the
/// report: the import is a usage if it names the path of the report or
/// something below it, and the file lies in a module that the section
/// admits.
pub open spec fn import_usage(
    tree: Map<Seq<char>, ModuleNodeView>,
    query: ReportQueryView,
    target_module: ModuleNodeView,
    file: SourceFileView,
    import: NormalizedImportView,
) -> Option<DependencyView> {
    match nearest(tree, file.mod_path) {
        Some(file_module) => if is_module_prefix_spec(query.target_path, import.mod_path)
            && admits(query.include_usage_modules, file_module.full_path) {
            Some(
                DependencyView {
                    file_path: file.file_path,
                    absolute_path: file.absolute_path,
                    import,
                    source_module: file_module.full_path,
                    target_module: target_module.full_path,
                },
            )
        } else {
            None
        },
        None => None,
    }
}

/// The entries for `imports`, in their order: the usages if `usages`,
/// else the dependencies.
pub open spec fn entries_of_imports(
    tree: Map<Seq<char>, ModuleNodeView>,
    query: ReportQueryView,
    target_module: ModuleNodeView,
    file: SourceFileView,
    imports: Seq<NormalizedImportView>,
    usages: bool,
) -> Seq<DependencyView>
    decreases imports.len(),
{
    if imports.len() == 0 {
        Seq::empty()
    } else {
        let before = entries_of_imports(
            tree,
            query,
            target_module,
            file,
            imports.drop_last(),
            usages,
        );
        let entry = if usages {
            import_usage(tree, query, target_module, file, imports.last())
        } else {
            import_dependency(tree, query, target_module, file, imports.last())
        };
        match entry {
            Some(entry) => before.push(entry),
            None => before,
        }
    }
}

/// Whether `file` lies inside the path of the report.
pub open spec fn is_in_target_path(query: ReportQueryView, file: SourceFileView) -> bool {
    is_module_prefix_spec(query.target_path, file.mod_path)
}

/// The dependencies that `file` adds to the report: those of its
/// imports, if the file lies inside the path of the report, its imports
/// could be extracted and the dependencies are not skipped.
pub open spec fn file_dependencies(
    tree: Map<Seq<char>, ModuleNodeView>,
    query: ReportQueryView,
    target_module: ModuleNodeView,
    file: SourceFileView,
) -> Seq<DependencyView> {
    if file.imports is Ok && is_in_target_path(query, file) && !query.skip_dependencies {
        entries_of_imports(tree, query, target_module, file, file.imports->Ok_0, false)
    } else {
        Seq::empty()
    }
}

/// The usages that `file` adds to the report: those of its imports, if
/// the file lies outside the path of the report, its imports could be
/// extracted and the usages are not skipped.
pub open spec fn file_usages(
    tree: Map<Seq<char>, ModuleNodeView>,
    query: ReportQueryView,
    target_module: ModuleNodeView,
    file: SourceFileView,
) -> Seq<DependencyView> {
    if file.imports is Ok && !is_in_target_path(query, file) && !query.skip_usages {
        entries_of_imports(tree, query, target_module, file, file.imports->Ok_0, true)
    } else {
        Seq::empty()
    }
}

/// The notice that `file` adds to the report: the reason why its
/// imports could not be extracted, if they could not.
pub open spec fn file_warnings(file: SourceFileView) -> Seq<Seq<char>> {
    match file.imports {
        Ok(_) => Seq::empty(),
        Err(reason) => seq![reason],
    }
}

/// What one file adds to a report.
#[derive(Debug)]
pub struct FileEntries {
    pub dependencies: Vec<Dependency>,
    pub usages: Vec<Dependency>,
    pub warning: Option<String>,
}

/// The mathematical value of a [`FileEntries`].
pub struct FileEntriesView {
    pub dependencies: Seq<DependencyView>,
    pub usages: Seq<DependencyView>,
    pub warnings: Seq<Seq<char>>,
}

impl View for FileEntries {
    type V = FileEntriesView;

    open spec fn view(&self) -> FileEntriesView {
        FileEntriesView {
            dependencies: dependency_views(self.dependencies@),
            usages: dependency_views(self.usages@),
            warnings: match self.warning {
                Some(warning) => seq![warning@],
                None => Seq::empty(),
            },
        }
    }
}

/// What `file` adds to a report.
pub open spec fn file_entries(
    tree: Map<Seq<char>, ModuleNodeView>,
    query: ReportQueryView,
    target_module: ModuleNodeView,
    file: SourceFileView,
) -> FileEntriesView {
    FileEntriesView {
        dependencies: file_dependencies(tree, query, target_module, file),
        usages: file_usages(tree, query, target_module, file),
        warnings: file_warnings(file),
    }
}

/// The report on `files`: what each file adds, file after file.
pub open spec fn collected_report(
    tree: Map<Seq<char>, ModuleNodeView>,
    query: ReportQueryView,
    target_module: ModuleNodeView,
    path: Seq<char>,
    terminal: TerminalEnvironment,
    files: Seq<SourceFileView>,
) -> DependencyReportView
    decreases files.len(),
{
    if files.len() == 0 {
        DependencyReportView {
            path,
            terminal,
            dependencies: Seq::empty(),
            usages: Seq::empty(),
            warnings: Seq::empty(),
        }
    } else {
        let before = collected_report(
            tree,
            query,
            target_module,
            path,
            terminal,
            files.drop_last(),
        );
        let entries = file_entries(tree, query, target_module, files.last());
        DependencyReportView {
            path,
            terminal,
            dependencies: before.dependencies + entries.dependencies,
            usages: before.usages + entries.usages,
            warnings: before.warnings + entries.warnings,
        }
    }
}

/// Whether a section that is restricted to `filter` admits the module
/// `name`.
fn is_admitted(filter: &Option<Vec<String>>, name: &str) -> (r: bool)
    ensures
        r == admits(optional_texts(*filter), name@),
{
    match filter {
        Some(names) => strings_contain(names, name),
        None => true,
    }
}

/// A copy of `import`.
fn copy_import(import: &NormalizedImport) -> (r: NormalizedImport)
    ensures
        r@ == import@,
{
    NormalizedImport { mod_path: import.mod_path.clone(), line_no: import.line_no }
}

/// What one file adds to the report on `query`, whose path lies in the
/// module `target_module`.
pub fn collect_file_entries(
    module_tree: &ModuleTree,
    query: &ReportQuery,
    target_module: &ModuleNode,
    file: &SourceFile,
) -> (entries: FileEntries)
    ensures
        entries@ == file_entries(module_tree@, query@, target_module@, file@),
{
    let mut dependencies: Vec<Dependency> = Vec::new();
    let mut usages: Vec<Dependency> = Vec::new();
    assert(dependency_views(dependencies@) =~= Seq::empty());
    assert(dependency_views(usages@) =~= Seq::empty());
    let imports = match &file.imports {
        Ok(imports) => imports,
        Err(reason) => {
            return FileEntries { dependencies, usages, warning: Some(reason.clone()) };
        },
    };
    let ghost tree = module_tree@;
    let ghost all = import_views(imports@);
    let in_target_path = is_module_prefix(query.target_path.as_str(), file.mod_path.as_str());
    if in_target_path && !query.skip_dependencies {
        let mut i: usize = 0;
        assert(all.take(0) =~= Seq::<NormalizedImportView>::empty());
        while i < imports.len()
            invariant
                i <= imports.len(),
                tree == module_tree@,
                all == import_views(imports@),
                dependency_views(dependencies@) == entries_of_imports(
                    tree,
                    query@,
                    target_module@,
                    file@,
                    all.take(i as int),
                    false,
                ),
            decreases imports.len() - i,
        {
            let import = &imports[i];
            proof {
                assert(all.take(i + 1).drop_last() =~= all.take(i as int));
                assert(all.take(i + 1).last() == import@);
            }
            if let Some(import_module) = module_tree.find_nearest(import.mod_path.as_str()) {
                if import_module.full_path != target_module.full_path && is_admitted(
                    &query.include_dependency_modules,
                    import_module.full_path.as_str(),
                ) {
                    let ghost before = dependencies@;
                    let entry = Dependency {
                        file_path: file.file_path.clone(),
                        absolute_path: file.absolute_path.clone(),
                        import: copy_import(import),
                        source_module: target_module.full_path.clone(),
                        target_module: import_module.full_path.clone(),
                    };
                    dependencies.push(entry);
                    assert(dependency_views(dependencies@) =~= dependency_views(before).push(
                        entry@,
                    ));
                }
            }
            i += 1;
        }
        assert(all.take(i as int) =~= all);
    } else if !in_target_path && !query.skip_usages {
        let file_module = module_tree.find_nearest(file.mod_path.as_str());
        let mut i: usize = 0;
        assert(all.take(0) =~= Seq::<NormalizedImportView>::empty());
        while i < imports.len()
            invariant
                i <= imports.len(),
                tree == module_tree@,
                all == import_views(imports@),
                match file_module {
                    Some(module) => nearest(tree, file@.mod_path) == Some(module@),
                    None => nearest(tree, file@.mod_path) is None,
                },
                dependency_views(usages@) == entries_of_imports(
                    tree,
                    query@,
                    target_module@,
                    file@,
                    all.take(i as int),
                    true,
                ),
            decreases imports.len() - i,
        {
            let import = &imports[i];
            proof {
                assert(all.take(i + 1).drop_last() =~= all.take(i as int));
                assert(all.take(i + 1).last() == import@);
            }
            if let Some(module) = file_module {
                if is_module_prefix(query.target_path.as_str(), import.mod_path.as_str())
                    && is_admitted(&query.include_usage_modules, module.full_path.as_str()) {
                    let ghost before = usages@;
                    let entry = Dependency {
                        file_path: file.file_path.clone(),
                        absolute_path: file.absolute_path.clone(),
                        import: copy_import(import),
                        source_module: module.full_path.clone(),
                        target_module: target_module.full_path.clone(),
                    };
                    usages.push(entry);
                    assert(dependency_views(usages@) =~= dependency_views(before).push(entry@));
                }
            }
            i += 1;
        }
        assert(all.take(i as int) =~= all);
    }
    FileEntries { dependencies, usages, warning: None }
}

impl DependencyReport {
    /// Adds to the report what one file adds to it.
    pub fn extend(&mut self, entries: FileEntries)
        ensures
            final(self)@ == (DependencyReportView {
                dependencies: old(self)@.dependencies + entries@.dependencies,
                usages: old(self)@.usages + entries@.usages,
                warnings: old(self)@.warnings + entries@.warnings,
                ..old(self)@
            }),
    {
        let ghost before = self@;
        let FileEntries { mut dependencies, mut usages, warning } = entries;
        self.dependencies.append(&mut dependencies);
        self.usages.append(&mut usages);
        if let Some(warning) = warning {
            self.warnings.push(warning);
        }
        assert(self@.dependencies =~= before.dependencies + entries@.dependencies);
        assert(self@.usages =~= before.usages + entries@.usages);
        assert(self@.warnings =~= before.warnings + entries@.warnings);
    }
}

/// The report that `create_dependency_report` writes, or the error with
/// which it fails: nothing to report where both sections are skipped;
/// module not found where no module of the tree encloses the path of
/// the report; else the rendering of the report on `files`.
pub open spec fn create_dependency_report_spec(
    tree: Map<Seq<char>, ModuleNodeView>,
    path: Seq<char>,
    query: ReportQueryView,
    files: Seq<SourceFileView>,
    raw: bool,
    terminal: TerminalEnvironment,
) -> Result<Seq<char>, ReportCreationErrorView> {
    if query.skip_dependencies && query.skip_usages {
        Err(ReportCreationErrorView::NothingToReport)
    } else {
        match nearest(tree, query.target_path) {
            None => Err(
                ReportCreationErrorView::ModuleTree(
                    ModuleTreeErrorView::ModuleNotFound(query.target_path),
                ),
            ),
            Some(target_module) => Ok(
                render_spec(
                    collected_report(tree, query, target_module, path, terminal, files),
                    query.skip_dependencies,
                    query.skip_usages,
                    raw,
                ),
            ),
        }
    }
}

/// What `result` holds, in the terms of `create_dependency_report_spec`.
pub open spec fn report_result_view(result: Result<String, ReportCreationError>) -> Result<
    Seq<char>,
    ReportCreationErrorView,
> {
    match result {
        Ok(text) => Ok(text@),
        Err(error) => Err(error@),
    }
}

/// Writes the report on `path`: the imports that the files inside the
/// path make from other modules, and the imports that files outside it
/// make from the path.
///
/// `files` holds the source files of the project in the order in which
/// they were read; `path` is shown in the titles of the report.
pub fn create_dependency_report(
    module_tree: &ModuleTree,
    path: &str,
    query: &ReportQuery,
    files: &Vec<SourceFile>,
    raw: bool,
    terminal: TerminalEnvironment,
) -> (r: Result<String, ReportCreationError>)
    ensures
        report_result_view(r) == create_dependency_report_spec(
            module_tree@,
            path@,
            query@,
            file_views(files@),
            raw,
            terminal,
        ),
{
    if query.skip_dependencies && query.skip_usages {
        return Err(ReportCreationError::NothingToReport);
    }
    let target_module = match module_tree.find_nearest(query.target_path.as_str()) {
        Some(module) => module,
        None => {
            return Err(
                ReportCreationError::ModuleTree(
                    ModuleTreeError::ModuleNotFound(query.target_path.clone()),
                ),
            );
        },
    };
    let mut report = DependencyReport::new(String::from_str(path), terminal);
    let ghost tree = module_tree@;
    let ghost all = file_views(files@);
    let mut i: usize = 0;
    assert(all.take(0) =~= Seq::<SourceFileView>::empty());
    while i < files.len()
        invariant
            i <= files.len(),
            tree == module_tree@,
            all == file_views(files@),
            report@ == collected_report(
                tree,
                query@,
                target_module@,
                path@,
                terminal,
                all.take(i as int),
            ),
        decreases files.len() - i,
    {
        proof {
            assert(all.take(i + 1).drop_last() =~= all.take(i as int));
            assert(all.take(i + 1).last() == files@[i as int]@);
        }
        let entries = collect_file_entries(module_tree, query, target_module, &files[i]);
        report.extend(entries);
        i += 1;
    }
    assert(all.take(i as int) =~= all);
    Ok(report.render_to_string(query.skip_dependencies, query.skip_usages, raw))
}

/// Entries that do not come before one another form a chain: if `a`
/// does not come before `b`, nor `b` before `c`, then `a` does not come
/// before `c`.
pub proof fn lemma_dependency_order_chains(a: DependencyView, b: DependencyView, c: DependencyView)
    requires
        !dependency_lt(a, b),
        !dependency_lt(b, c),
    ensures
        !dependency_lt(a, c),
{
    lemma_lex_lt_total(a.file_path, b.file_path);
    lemma_lex_lt_total(b.file_path, c.file_path);
    lemma_lex_lt_total(a.file_path, c.file_path);
    if lex_lt(a.file_path, c.file_path) && lex_lt(b.file_path, a.file_path) {
        lemma_lex_lt_transitive(b.file_path, a.file_path, c.file_path);
    }
}

/// Whether no entry of `deps` comes before an entry that stands before
/// it: `deps` is in the order of a report.
pub open spec fn in_report_order(deps: Seq<DependencyView>) -> bool {
    forall|i: int, j: int| 0 <= i < j < deps.len() ==> !dependency_lt(deps[j], deps[i])
}

/// `insert_dependency` puts the entry at one place, before the entries
/// that come after it and behind all others, and moves no other entry.
pub proof fn lemma_insert_dependency_place(sorted: Seq<DependencyView>, dep: DependencyView) -> (pos:
    int)
    ensures
        0 <= pos <= sorted.len(),
        insert_dependency(sorted, dep) == sorted.insert(pos, dep),
        forall|k: int| pos <= k < sorted.len() ==> dependency_lt(dep, sorted[k]),
        pos > 0 ==> !dependency_lt(dep, sorted[pos - 1]),
    decreases sorted.len(),
{
    if sorted.len() == 0 {
        assert(sorted.insert(0, dep) =~= seq![dep]);
        0
    } else if dependency_lt(dep, sorted.last()) {
        let init = sorted.drop_last();
        let pos = lemma_insert_dependency_place(init, dep);
        assert(init.insert(pos, dep).push(sorted.last()) =~= sorted.insert(pos, dep));
        assert forall|k: int| pos <= k < sorted.len() implies dependency_lt(dep, sorted[k]) by {
            if k < init.len() {
                assert(init[k] == sorted[k]);
            }
        }
        if pos > 0 {
            assert(init[pos - 1] == sorted[pos - 1]);
        }
        pos
    } else {
        assert(sorted.insert(sorted.len() as int, dep) =~= sorted.push(dep));
        sorted.len() as int
    }
}

/// The sorted entries are in the order of a report.
pub proof fn lemma_sorted_dependencies_in_order(deps: Seq<DependencyView>)
    ensures
        in_report_order(sorted_dependencies(deps)),
    decreases deps.len(),
{
    if deps.len() > 0 {
        let sorted = sorted_dependencies(deps.drop_last());
        let dep = deps.last();
        lemma_sorted_dependencies_in_order(deps.drop_last());
        let pos = lemma_insert_dependency_place(sorted, dep);
        let r = sorted.insert(pos, dep);
        assert forall|i: int, j: int| 0 <= i < j < r.len() implies !dependency_lt(r[j], r[i]) by {
            lemma_lex_lt_irreflexive(dep.file_path);
            if j == pos {
                assert(r[i] == sorted[i]);
                if i < pos - 1 {
                    lemma_dependency_order_chains(dep, sorted[pos - 1], sorted[i]);
                }
            } else if i == pos {
                assert(r[j] == sorted[j - 1]);
                lemma_lex_lt_total(dep.file_path, sorted[j - 1].file_path);
            } else {
                let i0 = if i < pos {
                    i
                } else {
                    i - 1
                };
                let j0 = if j < pos {
                    j
                } else {
                    j - 1
                };
                assert(r[i] == sorted[i0] && r[j] == sorted[j0]);
            }
        }
    }
}

/// Sorting neither drops an entry nor adds one: the sorted entries are
/// the entries of `deps`, each as often as `deps` holds it.
pub proof fn lemma_sorted_dependencies_is_permutation(deps: Seq<DependencyView>)
    ensures
        sorted_dependencies(deps).to_multiset() == deps.to_multiset(),
    decreases deps.len(),
{
    broadcast use vstd::seq_lib::group_to_multiset_ensures;

    if deps.len() == 0 {
        assert(sorted_dependencies(deps) =~= deps);
    } else {
        let init = deps.drop_last();
        let sorted = sorted_dependencies(init);
        lemma_sorted_dependencies_is_permutation(init);
        let pos = lemma_insert_dependency_place(sorted, deps.last());
        vstd::seq_lib::to_multiset_insert(sorted, pos, deps.last());
        assert(deps =~= init.push(deps.last()));
        vstd::seq_lib::to_multiset_build(init, deps.last());
    }
}

/// Sorting entries that are in the order of a report changes nothing.
pub proof fn lemma_sorted_dependencies_idempotent(deps: Seq<DependencyView>)
    requires
        in_report_order(deps),
    ensures
        sorted_dependencies(deps) == deps,
    decreases deps.len(),
{
    if deps.len() == 0 {
        assert(sorted_dependencies(deps) =~= deps);
    } else {
        let init = deps.drop_last();
        assert(in_report_order(init)) by {
            assert forall|i: int, j: int| 0 <= i < j < init.len() implies !dependency_lt(
                init[j],
                init[i],
            ) by {
                assert(init[i] == deps[i] && init[j] == deps[j]);
            }
        }
        lemma_sorted_dependencies_idempotent(init);
        if init.len() > 0 {
            assert(init.last() == deps[deps.len() - 2]);
        }
        assert(init.push(deps.last()) =~= deps);
    }
}

/// A raw report does not depend on the order in which its entries were
/// collected, nor on how often one was: two reports that hold the same
/// dependencies and the same usages render raw to the same text.
pub proof fn lemma_raw_report_ignores_order(
    a: DependencyReportView,
    b: DependencyReportView,
    skip_dependencies: bool,
    skip_usages: bool,
)
    requires
        forall|d: DependencyView|
            #![trigger a.dependencies.contains(d)]
            #![trigger b.dependencies.contains(d)]
            a.dependencies.contains(d) <==> b.dependencies.contains(d),
        forall|d: DependencyView|
            #![trigger a.usages.contains(d)]
            #![trigger b.usages.contains(d)]
            a.usages.contains(d) <==> b.usages.contains(d),
    ensures
        render_spec(a, skip_dependencies, skip_usages, true) == render_spec(
            b,
            skip_dependencies,
            skip_usages,
            true,
        ),
{
    lemma_same_names(a.dependencies, b.dependencies);
    lemma_same_names(a.usages, b.usages);
}

/// Lists that hold the same entries name the same modules, and one is
/// empty if the other is.
proof fn lemma_same_names(a: Seq<DependencyView>, b: Seq<DependencyView>)
    requires
        forall|d: DependencyView|
            #![trigger a.contains(d)]
            #![trigger b.contains(d)]
            a.contains(d) <==> b.contains(d),
    ensures
        (a.len() == 0) == (b.len() == 0),
        sorted_names(target_modules(a)) == sorted_names(target_modules(b)),
        sorted_names(source_modules(a)) == sorted_names(source_modules(b)),
{
    if a.len() > 0 {
        assert(a.contains(a[0]));
    }
    if b.len() > 0 {
        assert(b.contains(b[0]));
    }
    assert forall|x: Seq<char>|
        #![trigger target_modules(a).contains(x)]
        #![trigger target_modules(b).contains(x)]
        target_modules(a).contains(x) <==> target_modules(b).contains(x) by {
        if target_modules(a).contains(x) {
            let i = choose|i: int| 0 <= i < a.len() && target_modules(a)[i] == x;
            assert(a.contains(a[i]));
            let j = choose|j: int| 0 <= j < b.len() && b[j] == a[i];
            assert(target_modules(b)[j] == x);
        }
        if target_modules(b).contains(x) {
            let i = choose|i: int| 0 <= i < b.len() && target_modules(b)[i] == x;
            assert(b.contains(b[i]));
            let j = choose|j: int| 0 <= j < a.len() && a[j] == b[i];
            assert(target_modules(a)[j] == x);
        }
    }
    assert forall|x: Seq<char>|
        #![trigger source_modules(a).contains(x)]
        #![trigger source_modules(b).contains(x)]
        source_modules(a).contains(x) <==> source_modules(b).contains(x) by {
        if source_modules(a).contains(x) {
            let i = choose|i: int| 0 <= i < a.len() && source_modules(a)[i] == x;
            assert(a.contains(a[i]));
            let j = choose|j: int| 0 <= j < b.len() && b[j] == a[i];
            assert(source_modules(b)[j] == x);
        }
        if source_modules(b).contains(x) {
            let i = choose|i: int| 0 <= i < b.len() && source_modules(b)[i] == x;
            assert(b.contains(b[i]));
            let j = choose|j: int| 0 <= j < a.len() && a[j] == b[i];
            assert(source_modules(a)[j] == x);
        }
    }
    lemma_sorted_names_ignores_order(target_modules(a), target_modules(b));
    lemma_sorted_names_ignores_order(source_modules(a), source_modules(b));
}

/// The entries of a collected report are those that its files add: an
/// entry is among the dependencies of the report exactly if one of the
/// files adds it as a dependency, and likewise for the usages.
pub proof fn lemma_collected_entries(
    tree: Map<Seq<char>, ModuleNodeView>,
    query: ReportQueryView,
    target_module: ModuleNodeView,
    path: Seq<char>,
    terminal: TerminalEnvironment,
    files: Seq<SourceFileView>,
)
    ensures
        forall|d: DependencyView|
            #![trigger collected_report(tree, query, target_module, path, terminal, files).dependencies.contains(d)]
            collected_report(tree, query, target_module, path, terminal, files).dependencies.contains(
                d,
            ) <==> exists|i: int|
                0 <= i < files.len() && #[trigger] file_dependencies(
                    tree,
                    query,
                    target_module,
                    files[i],
                ).contains(d),
        forall|d: DependencyView|
            #![trigger collected_report(tree, query, target_module, path, terminal, files).usages.contains(d)]
            collected_report(tree, query, target_module, path, terminal, files).usages.contains(d)
                <==> exists|i: int|
                0 <= i < files.len() && #[trigger] file_usages(
                    tree,
                    query,
                    target_module,
                    files[i],
                ).contains(d),
    decreases files.len(),
{
    let report = collected_report(tree, query, target_module, path, terminal, files);
    if files.len() == 0 {
        assert forall|d: DependencyView| !report.dependencies.contains(d) by {}
        assert forall|d: DependencyView| !report.usages.contains(d) by {}
    } else {
        let init = files.drop_last();
        let last = files.last();
        let before = collected_report(tree, query, target_module, path, terminal, init);
        lemma_collected_entries(tree, query, target_module, path, terminal, init);
        let added = file_dependencies(tree, query, target_module, last);
        let added_usages = file_usages(tree, query, target_module, last);
        assert forall|d: DependencyView|
            report.dependencies.contains(d) <==> exists|i: int|
                0 <= i < files.len() && #[trigger] file_dependencies(
                    tree,
                    query,
                    target_module,
                    files[i],
                ).contains(d) by {
            lemma_contains_of_concat(before.dependencies, added, d);
            if before.dependencies.contains(d) {
                let i = choose|i: int|
                    0 <= i < init.len() && #[trigger] file_dependencies(
                        tree,
                        query,
                        target_module,
                        init[i],
                    ).contains(d);
                assert(files[i] == init[i]);
            }
            if added.contains(d) {
                assert(files[files.len() - 1] == last);
            }
            if exists|i: int|
                0 <= i < files.len() && #[trigger] file_dependencies(
                    tree,
                    query,
                    target_module,
                    files[i],
                ).contains(d) {
                let i = choose|i: int|
                    0 <= i < files.len() && #[trigger] file_dependencies(
                        tree,
                        query,
                        target_module,
                        files[i],
                    ).contains(d);
                if i < init.len() {
                    assert(init[i] == files[i]);
                }
            }
        }
        assert forall|d: DependencyView|
            report.usages.contains(d) <==> exists|i: int|
                0 <= i < files.len() && #[trigger] file_usages(
                    tree,
                    query,
                    target_module,
                    files[i],
                ).contains(d) by {
            lemma_contains_of_concat(before.usages, added_usages, d);
            if before.usages.contains(d) {
                let i = choose|i: int|
                    0 <= i < init.len() && #[trigger] file_usages(
                        tree,
                        query,
                        target_module,
                        init[i],
                    ).contains(d);
                assert(files[i] == init[i]);
            }
            if added_usages.contains(d) {
                assert(files[files.len() - 1] == last);
            }
            if exists|i: int|
                0 <= i < files.len() && #[trigger] file_usages(
                    tree,
                    query,
                    target_module,
                    files[i],
                ).contains(d) {
                let i = choose|i: int|
                    0 <= i < files.len() && #[trigger] file_usages(
                        tree,
                        query,
                        target_module,
                        files[i],
                    ).contains(d);
                if i < init.len() {
                    assert(init[i] == files[i]);
                }
            }
        }
    }
}

/// What two lists hold, one after the other, is what either holds.
proof fn lemma_contains_of_concat(a: Seq<DependencyView>, b: Seq<DependencyView>, d: DependencyView)
    ensures
        (a + b).contains(d) <==> (a.contains(d) || b.contains(d)),
{
    if (a + b).contains(d) {
        let i = choose|i: int| 0 <= i < (a + b).len() && (a + b)[i] == d;
        if i < a.len() {
            assert(a[i] == d);
        } else {
            assert(b[i - a.len()] == d);
        }
    }
    if a.contains(d) {
        let i = choose|i: int| 0 <= i < a.len() && a[i] == d;
        assert((a + b)[i] == d);
    }
    if b.contains(d) {
        let i = choose|i: int| 0 <= i < b.len() && b[i] == d;
        assert((a + b)[a.len() + i] == d);
    }
}

/// A raw report does not depend on the order in which the files were
/// read: on two lists of the same files, in whatever order, the raw
/// report is the same text, and fails alike where it fails.
pub proof fn lemma_raw_report_ignores_file_order(
    tree: Map<Seq<char>, ModuleNodeView>,
    path: Seq<char>,
    query: ReportQueryView,
    files: Seq<SourceFileView>,
    reordered: Seq<SourceFileView>,
    terminal: TerminalEnvironment,
)
    requires
        forall|f: SourceFileView|
            #![trigger files.contains(f)]
            #![trigger reordered.contains(f)]
            files.contains(f) <==> reordered.contains(f),
    ensures
        create_dependency_report_spec(tree, path, query, files, true, terminal)
            == create_dependency_report_spec(tree, path, query, reordered, true, terminal),
{
    if !(query.skip_dependencies && query.skip_usages) {
        if let Some(target_module) = nearest(tree, query.target_path) {
            let a = collected_report(tree, query, target_module, path, terminal, files);
            let b = collected_report(tree, query, target_module, path, terminal, reordered);
            lemma_collected_entries(tree, query, target_module, path, terminal, files);
            lemma_collected_entries(tree, query, target_module, path, terminal, reordered);
            assert forall|d: DependencyView|
                #![trigger a.dependencies.contains(d)]
                #![trigger b.dependencies.contains(d)]
                a.dependencies.contains(d) <==> b.dependencies.contains(d) by {
                lemma_entry_of_some_file(tree, query, target_module, files, reordered, d, false);
                lemma_entry_of_some_file(tree, query, target_module, reordered, files, d, false);
            }
            assert forall|d: DependencyView|
                #![trigger a.usages.contains(d)]
                #![trigger b.usages.contains(d)]
                a.usages.contains(d) <==> b.usages.contains(d) by {
                lemma_entry_of_some_file(tree, query, target_module, files, reordered, d, true);
                lemma_entry_of_some_file(tree, query, target_module, reordered, files, d, true);
            }
            lemma_raw_report_ignores_order(a, b, query.skip_dependencies, query.skip_usages);
        }
    }
}

/// An entry that a file of `files` adds is added by a file of every
/// list that holds the files of `files`.
proof fn lemma_entry_of_some_file(
    tree: Map<Seq<char>, ModuleNodeView>,
    query: ReportQueryView,
    target_module: ModuleNodeView,
    files: Seq<SourceFileView>,
    others: Seq<SourceFileView>,
    d: DependencyView,
    usages: bool,
)
    requires
        forall|f: SourceFileView| #[trigger] files.contains(f) ==> others.contains(f),
    ensures
        !usages && (exists|i: int|
            0 <= i < files.len() && #[trigger] file_dependencies(
                tree,
                query,
                target_module,
                files[i],
            ).contains(d)) ==> exists|i: int|
            0 <= i < others.len() && #[trigger] file_dependencies(
                tree,
                query,
                target_module,
                others[i],
            ).contains(d),
        usages && (exists|i: int|
            0 <= i < files.len() && #[trigger] file_usages(
                tree,
                query,
                target_module,
                files[i],
            ).contains(d)) ==> exists|i: int|
            0 <= i < others.len() && #[trigger] file_usages(
                tree,
                query,
                target_module,
                others[i],
            ).contains(d),
{
    if !usages && (exists|i: int|
        0 <= i < files.len() && #[trigger] file_dependencies(
            tree,
            query,
            target_module,
            files[i],
        ).contains(d)) {
        let i = choose|i: int|
            0 <= i < files.len() && #[trigger] file_dependencies(
                tree,
                query,
                target_module,
                files[i],
            ).contains(d);
        assert(files.contains(files[i]));
        let j = choose|j: int| 0 <= j < others.len() && others[j] == files[i];
        assert(file_dependencies(tree, query, target_module, others[j]).contains(d));
    }
    if usages && (exists|i: int|
        0 <= i < files.len() && #[trigger] file_usages(
            tree,
            query,
            target_module,
            files[i],
        ).contains(d)) {
        let i = choose|i: int|
            0 <= i < files.len() && #[trigger] file_usages(
                tree,
                query,
                target_module,
                files[i],
            ).contains(d);
        assert(files.contains(files[i]));
        let j = choose|j: int| 0 <= j < others.len() && others[j] == files[i];
        assert(file_usages(tree, query, target_module, others[j]).contains(d));
    }
}

} // verus!
