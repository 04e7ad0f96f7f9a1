//! The boundary check: whether the module of a file may import a given
//! dotted path, and the diagnostics of a whole project.

use crate::config::modules::{DependencyConfigView, ModuleConfig};
use crate::imports::{file_views, import_views, NormalizedImportView, SourceFile, SourceFileView};
use crate::modules::{nearest, ModuleNode, ModuleNodeView, ModuleTree};
use crate::text::{
    chars_eq, chars_range_eq, find_last, last_index_of, lemma_last_index_of, str_chars, str_eq,
    texts,
};
use vstd::prelude::*;

verus! {

/// Why an import is not allowed.
#[derive(Debug, Clone)]
pub enum ImportCheckError {
    /// The importing file lies in no module of the project.
    ModuleNotFound { file_mod_path: String },
    /// The imported module is strict and the import names neither the
    /// module itself nor a member of its interface.
    StrictModeImport {
        import_mod_path: String,
        import_nearest_module_path: String,
        file_nearest_module_path: String,
    },
    /// One of the two modules has no configuration.
    ModuleConfigNotFound(),
    /// The importing module does not declare the imported one.
    InvalidImport { import_mod_path: String, source_module: String, invalid_module: String },
    /// The importing module declares the imported one as deprecated only.
    DeprecatedImport { import_mod_path: String, source_module: String, invalid_module: String },
}

/// The mathematical value of an [`ImportCheckError`].
pub enum ImportCheckErrorView {
    ModuleNotFound { file_mod_path: Seq<char> },
    StrictModeImport {
        import_mod_path: Seq<char>,
        import_nearest_module_path: Seq<char>,
        file_nearest_module_path: Seq<char>,
    },
    ModuleConfigNotFound,
    InvalidImport { import_mod_path: Seq<char>, source_module: Seq<char>, invalid_module: Seq<char> },
    DeprecatedImport {
        import_mod_path: Seq<char>,
        source_module: Seq<char>,
        invalid_module: Seq<char>,
    },
}

impl ImportCheckErrorView {
    /// Whether the error is one of dependency policy: an undeclared or a
    /// deprecated dependency.
    pub open spec fn is_dependency_error(self) -> bool {
        self is InvalidImport || self is DeprecatedImport
    }

    /// Whether the error is a deprecation, which is reported as a
    /// warning.
    pub open spec fn is_deprecated(self) -> bool {
        self is DeprecatedImport
    }

    /// The message of the error.
    pub open spec fn message(self) -> Seq<char> {
        match self {
            ImportCheckErrorView::ModuleNotFound { file_mod_path } => "Module containing '"@
                + file_mod_path + "' not found in project."@,
            ImportCheckErrorView::StrictModeImport {
                import_mod_path,
                import_nearest_module_path,
                file_nearest_module_path,
            } => "Module '"@ + import_nearest_module_path
                + "' is in strict mode. Only imports from the public interface of this module are allowed. The import '"@
                + import_mod_path + "' (in module '"@ + file_nearest_module_path
                + "') is not included in __all__."@,
            ImportCheckErrorView::ModuleConfigNotFound => "Could not find module configuration."@,
            ImportCheckErrorView::InvalidImport {
                import_mod_path,
                source_module,
                invalid_module,
            } => "Cannot import '"@ + import_mod_path + "'. Module '"@ + source_module
                + "' cannot depend on '"@ + invalid_module + "'."@,
            ImportCheckErrorView::DeprecatedImport {
                import_mod_path,
                source_module,
                invalid_module,
            } => "Import '"@ + import_mod_path + "' is deprecated. Module '"@ + source_module
                + "' should not depend on '"@ + invalid_module + "'."@,
        }
    }
}

impl View for ImportCheckError {
    type V = ImportCheckErrorView;

    open spec fn view(&self) -> ImportCheckErrorView {
        match self {
            ImportCheckError::ModuleNotFound { file_mod_path } => {
                ImportCheckErrorView::ModuleNotFound { file_mod_path: file_mod_path@ }
            },
            ImportCheckError::StrictModeImport {
                import_mod_path,
                import_nearest_module_path,
                file_nearest_module_path,
            } => ImportCheckErrorView::StrictModeImport {
                import_mod_path: import_mod_path@,
                import_nearest_module_path: import_nearest_module_path@,
                file_nearest_module_path: file_nearest_module_path@,
            },
            ImportCheckError::ModuleConfigNotFound() => ImportCheckErrorView::ModuleConfigNotFound,
            ImportCheckError::InvalidImport { import_mod_path, source_module, invalid_module } => {
                ImportCheckErrorView::InvalidImport {
                    import_mod_path: import_mod_path@,
                    source_module: source_module@,
                    invalid_module: invalid_module@,
                }
            },
            ImportCheckError::DeprecatedImport {
                import_mod_path,
                source_module,
                invalid_module,
            } => ImportCheckErrorView::DeprecatedImport {
                import_mod_path: import_mod_path@,
                source_module: source_module@,
                invalid_module: invalid_module@,
            },
        }
    }
}

impl ImportCheckError {
    /// Whether the error is one of dependency policy: an undeclared or a
    /// deprecated dependency.
    pub fn is_dependency_error(&self) -> (r: bool)
        ensures
            r == self@.is_dependency_error(),
    {
        match self {
            ImportCheckError::InvalidImport { .. } => true,
            ImportCheckError::DeprecatedImport { .. } => true,
            _ => false,
        }
    }

    /// Whether the error is a deprecation, which is reported as a
    /// warning.
    pub fn is_deprecated(&self) -> (r: bool)
        ensures
            r == self@.is_deprecated(),
    {
        match self {
            ImportCheckError::DeprecatedImport { .. } => true,
            _ => false,
        }
    }

    /// The message of the error.
    pub fn to_pystring(&self) -> (r: String)
        ensures
            r@ == self@.message(),
    {
        match self {
            ImportCheckError::ModuleNotFound { file_mod_path } => {
                let mut r = String::from_str("Module containing '");
                r.append(file_mod_path.as_str());
                r.append("' not found in project.");
                r
            },
            ImportCheckError::StrictModeImport {
                import_mod_path,
                import_nearest_module_path,
                file_nearest_module_path,
            } => {
                let mut r = String::from_str("Module '");
                r.append(import_nearest_module_path.as_str());
                r.append(
                    "' is in strict mode. Only imports from the public interface of this module are allowed. The import '",
                );
                r.append(import_mod_path.as_str());
                r.append("' (in module '");
                r.append(file_nearest_module_path.as_str());
                r.append("') is not included in __all__.");
                r
            },
            ImportCheckError::ModuleConfigNotFound() => {
                String::from_str("Could not find module configuration.")
            },
            ImportCheckError::InvalidImport { import_mod_path, source_module, invalid_module } => {
                let mut r = String::from_str("Cannot import '");
                r.append(import_mod_path.as_str());
                r.append("'. Module '");
                r.append(source_module.as_str());
                r.append("' cannot depend on '");
                r.append(invalid_module.as_str());
                r.append("'.");
                r
            },
            ImportCheckError::DeprecatedImport {
                import_mod_path,
                source_module,
                invalid_module,
            } => {
                let mut r = String::from_str("Import '");
                r.append(import_mod_path.as_str());
                r.append("' is deprecated. Module '");
                r.append(source_module.as_str());
                r.append("' should not depend on '");
                r.append(invalid_module.as_str());
                r.append("'.");
                r
            },
        }
    }
}

/// Whether the import names the module itself.
pub open spec fn is_top_level_module_import_spec(mod_path: Seq<char>, module: ModuleNodeView) -> bool {
    mod_path == module.full_path
}

/// Whether the import names a member of the module's interface: cut at
/// its last `.`, its first part is the module's path and its second part
/// a member of the interface. An import without a `.` names the module
/// itself or nothing of it.
pub open spec fn import_matches_interface_members_spec(
    mod_path: Seq<char>,
    module: ModuleNodeView,
) -> bool {
    let dot = last_index_of(mod_path, '.');
    if dot < 0 {
        mod_path == module.full_path
    } else {
        &&& mod_path.take(dot) == module.full_path
        &&& module.interface_members.contains(mod_path.skip(dot + 1))
    }
}

/// Whether the import names the module itself.
pub fn is_top_level_module_import(mod_path: &str, module: &ModuleNode) -> (r: bool)
    ensures
        r == is_top_level_module_import_spec(mod_path@, module@),
{
    str_eq(mod_path, module.full_path.as_str())
}

/// Whether the import names a member of the module's interface.
pub fn import_matches_interface_members(mod_path: &str, module: &ModuleNode) -> (r: bool)
    ensures
        r == import_matches_interface_members_spec(mod_path@, module@),
{
    let chars = str_chars(mod_path);
    let full_path = str_chars(module.full_path.as_str());
    proof {
        lemma_last_index_of(chars@, '.');
    }
    match find_last(&chars, '.') {
        None => chars_eq(&chars, &full_path),
        Some(dot) => {
            assert(chars@.subrange(0, dot as int) =~= chars@.take(dot as int));
            if !chars_range_eq(&chars, 0, dot, &full_path) {
                return false;
            }
            let ghost member = chars@.subrange(dot + 1, chars@.len() as int);
            assert(member =~= chars@.skip(dot + 1));
            let mut i: usize = 0;
            while i < module.interface_members.len()
                invariant
                    i <= module.interface_members.len(),
                    dot < chars.len(),
                    chars@ == mod_path@,
                    last_index_of(chars@, '.') == dot,
                    chars@.take(dot as int) == module@.full_path,
                    member == chars@.subrange(dot + 1, chars@.len() as int),
                    forall|j: int| 0 <= j < i ==> module.interface_members@[j]@ != member,
                decreases module.interface_members.len() - i,
            {
                let candidate = str_chars(module.interface_members[i].as_str());
                if chars_range_eq(&chars, dot + 1, chars.len(), &candidate) {
                    assert(module@.interface_members[i as int] == member);
                    return true;
                }
                i += 1;
            }
            false
        },
    }
}

/// Whether `depends_on` holds a declaration of `path` with the given
/// deprecation mark.
pub open spec fn declares(
    depends_on: Seq<DependencyConfigView>,
    path: Seq<char>,
    deprecated: bool,
) -> bool {
    exists|i: int|
        0 <= i < depends_on.len() && (#[trigger] depends_on[i]).path == path
            && depends_on[i].deprecated == deprecated
}

/// Whether `config` holds a declaration of `path` with the given
/// deprecation mark.
pub fn has_dependency(config: &ModuleConfig, path: &String, deprecated: bool) -> (r: bool)
    ensures
        r == declares(config@.depends_on, path@, deprecated),
{
    let mut i: usize = 0;
    while i < config.depends_on.len()
        invariant
            i <= config.depends_on.len(),
            forall|j: int|
                0 <= j < i ==> !((#[trigger] config@.depends_on[j]).path == path@
                    && config@.depends_on[j].deprecated == deprecated),
        decreases config.depends_on.len() - i,
    {
        let dep = &config.depends_on[i];
        if dep.deprecated == deprecated && dep.path == *path {
            assert(config@.depends_on[i as int].path == path@);
            return true;
        }
        i += 1;
    }
    false
}

/// Whether the module is configured as strict: its interface alone
/// decides what other modules may import from it.
pub open spec fn is_strict(module: ModuleNodeView) -> bool {
    module.config matches Some(config) && config.strict
}

/// Whether a strict module admits the import: the import names the
/// module itself or a member of its interface.
pub open spec fn strict_mode_admits(import_mod_path: Seq<char>, module: ModuleNodeView) -> bool {
    is_top_level_module_import_spec(import_mod_path, module)
        || import_matches_interface_members_spec(import_mod_path, module)
}

/// The verdict on an import between two resolved modules: `None` where
/// it is allowed, else the error.
///
/// In order: an import within one module is allowed. An import from a
/// strict module is allowed if it names the module or a member of its
/// interface, and is a strict mode error if not. For any other import
/// both modules must be configured, and the dependencies of the
/// importing module decide: one that it declares without a deprecation
/// mark is allowed; one that it declares as deprecated only is a
/// deprecated import; any other is invalid.
pub open spec fn check_modules_spec(
    import_mod_path: Seq<char>,
    import_module: ModuleNodeView,
    file_module: ModuleNodeView,
) -> Option<ImportCheckErrorView> {
    if import_module.full_path == file_module.full_path {
        None
    } else if is_strict(import_module) {
        if strict_mode_admits(import_mod_path, import_module) {
            None
        } else {
            Some(
                ImportCheckErrorView::StrictModeImport {
                    import_mod_path,
                    import_nearest_module_path: import_module.full_path,
                    file_nearest_module_path: file_module.full_path,
                },
            )
        }
    } else if file_module.config is None || import_module.config is None {
        Some(ImportCheckErrorView::ModuleConfigNotFound)
    } else {
        let source = file_module.config->0;
        let target = import_module.config->0.path;
        if declares(source.depends_on, target, false) {
            None
        } else if declares(source.depends_on, target, true) {
            Some(
                ImportCheckErrorView::DeprecatedImport {
                    import_mod_path,
                    source_module: source.path,
                    invalid_module: target,
                },
            )
        } else {
            Some(
                ImportCheckErrorView::InvalidImport {
                    import_mod_path,
                    source_module: source.path,
                    invalid_module: target,
                },
            )
        }
    }
}

/// The module of the importing file: `file_nearest_module` where the
/// caller supplies it, else the nearest module of `file_mod_path`.
pub open spec fn file_module_spec(
    tree: Map<Seq<char>, ModuleNodeView>,
    file_mod_path: Seq<char>,
    file_nearest_module: Option<ModuleNodeView>,
) -> Option<ModuleNodeView> {
    match file_nearest_module {
        Some(module) => Some(module),
        None => nearest(tree, file_mod_path),
    }
}

/// The verdict on an import of `import_mod_path` by the file of module
/// path `file_mod_path`: `None` where it is allowed, else the error.
///
/// An import that no module of the tree encloses is allowed. Where the
/// importing file has no module, the error is `ModuleNotFound`. The rest
/// is `check_modules_spec` on the two modules.
pub open spec fn check_import_spec(
    tree: Map<Seq<char>, ModuleNodeView>,
    import_mod_path: Seq<char>,
    file_mod_path: Seq<char>,
    file_nearest_module: Option<ModuleNodeView>,
) -> Option<ImportCheckErrorView> {
    match nearest(tree, import_mod_path) {
        None => None,
        Some(import_module) => match file_module_spec(tree, file_mod_path, file_nearest_module) {
            None => Some(ImportCheckErrorView::ModuleNotFound { file_mod_path }),
            Some(file_module) => check_modules_spec(import_mod_path, import_module, file_module),
        },
    }
}

/// The value of an optional node.
pub open spec fn node_view(node: Option<&ModuleNode>) -> Option<ModuleNodeView> {
    match node {
        Some(node) => Some(node@),
        None => None,
    }
}

/// What `result` says in the terms of `check_import_spec`: `None` for
/// `Ok`, else the value of the error.
pub open spec fn verdict(result: Result<(), ImportCheckError>) -> Option<ImportCheckErrorView> {
    match result {
        Ok(()) => None,
        Err(e) => Some(e@),
    }
}

/// Checks an import between two resolved modules.
pub fn check_modules(
    import_mod_path: &str,
    import_module: &ModuleNode,
    file_module: &ModuleNode,
) -> (r: Result<(), ImportCheckError>)
    ensures
        verdict(r) == check_modules_spec(import_mod_path@, import_module@, file_module@),
{
    if import_module.full_path == file_module.full_path {
        return Ok(());
    }
    if let Some(config) = &import_module.config {
        if config.strict {
            if is_top_level_module_import(import_mod_path, import_module)
                || import_matches_interface_members(import_mod_path, import_module) {
                return Ok(());
            }
            return Err(
                ImportCheckError::StrictModeImport {
                    import_mod_path: String::from_str(import_mod_path),
                    import_nearest_module_path: import_module.full_path.clone(),
                    file_nearest_module_path: file_module.full_path.clone(),
                },
            );
        }
    }
    let file_config = match &file_module.config {
        Some(config) => config,
        None => {
            return Err(ImportCheckError::ModuleConfigNotFound());
        },
    };
    let import_config = match &import_module.config {
        Some(config) => config,
        None => {
            return Err(ImportCheckError::ModuleConfigNotFound());
        },
    };
    if has_dependency(file_config, &import_config.path, false) {
        return Ok(());
    }
    if has_dependency(file_config, &import_config.path, true) {
        return Err(
            ImportCheckError::DeprecatedImport {
                import_mod_path: String::from_str(import_mod_path),
                source_module: file_config.path.clone(),
                invalid_module: import_config.path.clone(),
            },
        );
    }
    Err(
        ImportCheckError::InvalidImport {
            import_mod_path: String::from_str(import_mod_path),
            source_module: file_config.path.clone(),
            invalid_module: import_config.path.clone(),
        },
    )
}

/// Checks whether the file of module path `file_mod_path` may import
/// `import_mod_path`.
///
/// `file_nearest_module` is the module of the file, where the caller
/// has resolved it already; with `None` it is looked up in the tree.
pub fn check_import(
    module_tree: &ModuleTree,
    import_mod_path: &str,
    file_mod_path: &str,
    file_nearest_module: Option<&ModuleNode>,
) -> (r: Result<(), ImportCheckError>)
    ensures
        verdict(r) == check_import_spec(
            module_tree@,
            import_mod_path@,
            file_mod_path@,
            node_view(file_nearest_module),
        ),
{
    let import_nearest_module = match module_tree.find_nearest(import_mod_path) {
        Some(module) => module,
        None => {
            return Ok(());
        },
    };
    let file_nearest_module = match file_nearest_module {
        Some(module) => Some(module),
        None => module_tree.find_nearest(file_mod_path),
    };
    match file_nearest_module {
        Some(file_module) => check_modules(import_mod_path, import_nearest_module, file_module),
        None => Err(
            ImportCheckError::ModuleNotFound { file_mod_path: String::from_str(file_mod_path) },
        ),
    }
}

/// Whether `text` holds the character `c`.
pub open spec fn has_char(text: Seq<char>, c: char) -> bool {
    exists|i: int| 0 <= i < text.len() && text[i] == c
}

/// Whether a strict module admits the import: the import is the
/// module's path, or the module's path, a `.` and a member of the
/// module's interface that holds no `.` itself.
pub open spec fn in_public_interface(mod_path: Seq<char>, module: ModuleNodeView) -> bool {
    ||| mod_path == module.full_path
    ||| exists|i: int|
        {
            &&& 0 <= i < module.interface_members.len()
            &&& !has_char(#[trigger] module.interface_members[i], '.')
            &&& mod_path == module.full_path + seq!['.'] + module.interface_members[i]
        }
}

/// The two tests of strict mode together admit exactly the imports of
/// the module itself and of the members of its interface.
pub proof fn lemma_strict_mode_tests(mod_path: Seq<char>, module: ModuleNodeView)
    ensures
        strict_mode_admits(mod_path, module) == in_public_interface(mod_path, module),
{
    lemma_last_index_of(mod_path, '.');
    let dot = last_index_of(mod_path, '.');
    let full = module.full_path;
    if mod_path != full {
        if import_matches_interface_members_spec(mod_path, module) {
            let member = mod_path.skip(dot + 1);
            let i = choose|i: int|
                0 <= i < module.interface_members.len() && module.interface_members[i] == member;
            assert(!has_char(member, '.')) by {
                if has_char(member, '.') {
                    let k = choose|k: int| 0 <= k < member.len() && member[k] == '.';
                    assert(mod_path[dot + 1 + k] == '.');
                }
            }
            assert(mod_path =~= full + seq!['.'] + member);
            assert(!has_char(module.interface_members[i], '.'));
        }
        if in_public_interface(mod_path, module) {
            let i = choose|i: int|
                {
                    &&& 0 <= i < module.interface_members.len()
                    &&& !has_char(#[trigger] module.interface_members[i], '.')
                    &&& mod_path == full + seq!['.'] + module.interface_members[i]
                };
            let member = module.interface_members[i];
            assert(mod_path[full.len() as int] == '.');
            assert(dot == full.len()) by {
                if dot > full.len() {
                    assert(member[dot - full.len() - 1] == '.');
                }
            }
            assert(mod_path.take(dot) =~= full);
            assert(mod_path.skip(dot + 1) =~= member);
        }
    }
}

/// Imports within one module are always allowed: where the import and
/// the importing file resolve to the same module, the import is allowed,
/// whatever either module declares.
pub proof fn lemma_same_module_import_is_allowed(
    tree: Map<Seq<char>, ModuleNodeView>,
    import_mod_path: Seq<char>,
    file_mod_path: Seq<char>,
    file_nearest_module: Option<ModuleNodeView>,
)
    requires
        nearest(tree, import_mod_path) is Some,
        file_module_spec(tree, file_mod_path, file_nearest_module) is Some,
        nearest(tree, import_mod_path)->0.full_path == file_module_spec(
            tree,
            file_mod_path,
            file_nearest_module,
        )->0.full_path,
    ensures
        check_import_spec(tree, import_mod_path, file_mod_path, file_nearest_module) is None,
{
}

/// Strict mode: the interface of a strict module decides alone. An
/// import from another module that names the strict module or a member
/// of its interface is allowed, whatever the importing module declares;
/// any other import from it is a `StrictModeImport` error.
pub proof fn lemma_strict_mode_import(
    tree: Map<Seq<char>, ModuleNodeView>,
    import_mod_path: Seq<char>,
    file_mod_path: Seq<char>,
    file_nearest_module: Option<ModuleNodeView>,
)
    requires
        nearest(tree, import_mod_path) is Some,
        is_strict(nearest(tree, import_mod_path)->0),
        file_module_spec(tree, file_mod_path, file_nearest_module) is Some,
        nearest(tree, import_mod_path)->0.full_path != file_module_spec(
            tree,
            file_mod_path,
            file_nearest_module,
        )->0.full_path,
    ensures
        check_import_spec(tree, import_mod_path, file_mod_path, file_nearest_module)
            == if in_public_interface(import_mod_path, nearest(tree, import_mod_path)->0) {
            None
        } else {
            Some(
                ImportCheckErrorView::StrictModeImport {
                    import_mod_path,
                    import_nearest_module_path: nearest(tree, import_mod_path)->0.full_path,
                    file_nearest_module_path: file_module_spec(
                        tree,
                        file_mod_path,
                        file_nearest_module,
                    )->0.full_path,
                },
            )
        },
{
    lemma_strict_mode_tests(import_mod_path, nearest(tree, import_mod_path)->0);
}

/// Whether the declared dependencies of the importing module decide on
/// the import: it goes from one configured module to another that is
/// configured and not strict.
pub open spec fn dependencies_decide(
    tree: Map<Seq<char>, ModuleNodeView>,
    import_mod_path: Seq<char>,
    file_mod_path: Seq<char>,
    file_nearest_module: Option<ModuleNodeView>,
) -> bool {
    &&& nearest(tree, import_mod_path) matches Some(import_module)
    &&& file_module_spec(tree, file_mod_path, file_nearest_module) matches Some(file_module)
    &&& import_module.full_path != file_module.full_path
    &&& !is_strict(import_module)
    &&& import_module.config is Some
    &&& file_module.config is Some
}

/// Declared dependencies are allowed: where the dependencies decide and
/// the importing module declares the imported one without a deprecation
/// mark, the import is allowed.
pub proof fn lemma_declared_import_is_allowed(
    tree: Map<Seq<char>, ModuleNodeView>,
    import_mod_path: Seq<char>,
    file_mod_path: Seq<char>,
    file_nearest_module: Option<ModuleNodeView>,
)
    requires
        dependencies_decide(tree, import_mod_path, file_mod_path, file_nearest_module),
        declares(
            file_module_spec(tree, file_mod_path, file_nearest_module)->0.config->0.depends_on,
            nearest(tree, import_mod_path)->0.config->0.path,
            false,
        ),
    ensures
        check_import_spec(tree, import_mod_path, file_mod_path, file_nearest_module) is None,
{
}

/// Deprecated dependencies are flagged: where the dependencies decide
/// and the importing module declares the imported one as deprecated,
/// and not also without the mark, the import is a `DeprecatedImport`
/// error: neither allowed nor an `InvalidImport`.
pub proof fn lemma_deprecated_import_is_flagged(
    tree: Map<Seq<char>, ModuleNodeView>,
    import_mod_path: Seq<char>,
    file_mod_path: Seq<char>,
    file_nearest_module: Option<ModuleNodeView>,
)
    requires
        dependencies_decide(tree, import_mod_path, file_mod_path, file_nearest_module),
        declares(
            file_module_spec(tree, file_mod_path, file_nearest_module)->0.config->0.depends_on,
            nearest(tree, import_mod_path)->0.config->0.path,
            true,
        ),
        !declares(
            file_module_spec(tree, file_mod_path, file_nearest_module)->0.config->0.depends_on,
            nearest(tree, import_mod_path)->0.config->0.path,
            false,
        ),
    ensures
        check_import_spec(tree, import_mod_path, file_mod_path, file_nearest_module) == Some(
            ImportCheckErrorView::DeprecatedImport {
                import_mod_path,
                source_module: file_module_spec(
                    tree,
                    file_mod_path,
                    file_nearest_module,
                )->0.config->0.path,
                invalid_module: nearest(tree, import_mod_path)->0.config->0.path,
            },
        ),
{
}

/// Undeclared dependencies are denied: where the dependencies decide
/// and the importing module declares the imported one neither with nor
/// without a deprecation mark, the import is an `InvalidImport` error.
pub proof fn lemma_undeclared_import_is_invalid(
    tree: Map<Seq<char>, ModuleNodeView>,
    import_mod_path: Seq<char>,
    file_mod_path: Seq<char>,
    file_nearest_module: Option<ModuleNodeView>,
)
    requires
        dependencies_decide(tree, import_mod_path, file_mod_path, file_nearest_module),
        !declares(
            file_module_spec(tree, file_mod_path, file_nearest_module)->0.config->0.depends_on,
            nearest(tree, import_mod_path)->0.config->0.path,
            true,
        ),
        !declares(
            file_module_spec(tree, file_mod_path, file_nearest_module)->0.config->0.depends_on,
            nearest(tree, import_mod_path)->0.config->0.path,
            false,
        ),
    ensures
        check_import_spec(tree, import_mod_path, file_mod_path, file_nearest_module) == Some(
            ImportCheckErrorView::InvalidImport {
                import_mod_path,
                source_module: file_module_spec(
                    tree,
                    file_mod_path,
                    file_nearest_module,
                )->0.config->0.path,
                invalid_module: nearest(tree, import_mod_path)->0.config->0.path,
            },
        ),
{
}

/// A module supplied by the caller changes nothing: with the nearest
/// module of the file supplied, the verdict is the one reached by
/// looking it up.
pub proof fn lemma_supplied_module_is_a_shortcut(
    tree: Map<Seq<char>, ModuleNodeView>,
    import_mod_path: Seq<char>,
    file_mod_path: Seq<char>,
)
    ensures
        check_import_spec(tree, import_mod_path, file_mod_path, nearest(tree, file_mod_path))
            == check_import_spec(tree, import_mod_path, file_mod_path, None),
{
}

/// One import that the boundary check rejects, with its place.
#[derive(Debug, Clone)]
pub struct BoundaryError {
    pub file_path: String,
    pub line_number: usize,
    pub import_mod_path: String,
    pub error_info: ImportCheckError,
}

/// The mathematical value of a [`BoundaryError`].
pub struct BoundaryErrorView {
    pub file_path: Seq<char>,
    pub line_number: nat,
    pub import_mod_path: Seq<char>,
    pub error_info: ImportCheckErrorView,
}

impl View for BoundaryError {
    type V = BoundaryErrorView;

    open spec fn view(&self) -> BoundaryErrorView {
        BoundaryErrorView {
            file_path: self.file_path@,
            line_number: self.line_number as nat,
            import_mod_path: self.import_mod_path@,
            error_info: self.error_info@,
        }
    }
}

/// The value of each error of `errors`, in order.
pub open spec fn boundary_error_views(errors: Seq<BoundaryError>) -> Seq<BoundaryErrorView> {
    Seq::new(errors.len(), |i: int| errors[i]@)
}

/// What a check of a project found: the imports that break a boundary,
/// the imports of deprecated dependencies, and notices on the run.
#[derive(Debug)]
pub struct CheckDiagnostics {
    pub errors: Vec<BoundaryError>,
    pub deprecated_warnings: Vec<BoundaryError>,
    pub warnings: Vec<String>,
}

/// The mathematical value of a [`CheckDiagnostics`].
pub struct CheckDiagnosticsView {
    pub errors: Seq<BoundaryErrorView>,
    pub deprecated_warnings: Seq<BoundaryErrorView>,
    pub warnings: Seq<Seq<char>>,
}

impl View for CheckDiagnostics {
    type V = CheckDiagnosticsView;

    open spec fn view(&self) -> CheckDiagnosticsView {
        CheckDiagnosticsView {
            errors: boundary_error_views(self.errors@),
            deprecated_warnings: boundary_error_views(self.deprecated_warnings@),
            warnings: texts(self.warnings@),
        }
    }
}

/// What the check finds of one import of `file`, if it rejects it. The
/// module of the file is its nearest module.
pub open spec fn import_finding(
    tree: Map<Seq<char>, ModuleNodeView>,
    file: SourceFileView,
    import: NormalizedImportView,
) -> Option<BoundaryErrorView> {
    match check_import_spec(tree, import.mod_path, file.mod_path, nearest(tree, file.mod_path)) {
        Some(error_info) => Some(
            BoundaryErrorView {
                file_path: file.file_path,
                line_number: import.line_no,
                import_mod_path: import.mod_path,
                error_info,
            },
        ),
        None => None,
    }
}

/// The findings on `imports`, in their order: the deprecations if
/// `deprecated`, else the other errors.
pub open spec fn findings_of_imports(
    tree: Map<Seq<char>, ModuleNodeView>,
    file: SourceFileView,
    imports: Seq<NormalizedImportView>,
    deprecated: bool,
) -> Seq<BoundaryErrorView>
    decreases imports.len(),
{
    if imports.len() == 0 {
        Seq::empty()
    } else {
        let before = findings_of_imports(tree, file, imports.drop_last(), deprecated);
        match import_finding(tree, file, imports.last()) {
            Some(finding) => if finding.error_info.is_deprecated() == deprecated {
                before.push(finding)
            } else {
                before
            },
            None => before,
        }
    }
}

/// Whether the imports of `file` are checked: the file lies in a module
/// of the tree, and its imports could be extracted.
pub open spec fn is_checked(tree: Map<Seq<char>, ModuleNodeView>, file: SourceFileView) -> bool {
    nearest(tree, file.mod_path) is Some && file.imports is Ok
}

/// The findings on one file: those on its imports if it is checked,
/// else none.
pub open spec fn findings_of_file(
    tree: Map<Seq<char>, ModuleNodeView>,
    file: SourceFileView,
    deprecated: bool,
) -> Seq<BoundaryErrorView> {
    if is_checked(tree, file) {
        findings_of_imports(tree, file, file.imports->Ok_0, deprecated)
    } else {
        Seq::empty()
    }
}

/// The findings on `files`, file after file.
pub open spec fn findings_of_files(
    tree: Map<Seq<char>, ModuleNodeView>,
    files: Seq<SourceFileView>,
    deprecated: bool,
) -> Seq<BoundaryErrorView>
    decreases files.len(),
{
    if files.len() == 0 {
        Seq::empty()
    } else {
        findings_of_files(tree, files.drop_last(), deprecated) + findings_of_file(
            tree,
            files.last(),
            deprecated,
        )
    }
}

/// Whether a checked file of `files` holds an import.
pub open spec fn any_import_checked(
    tree: Map<Seq<char>, ModuleNodeView>,
    files: Seq<SourceFileView>,
) -> bool {
    exists|i: int|
        0 <= i < files.len() && is_checked(tree, #[trigger] files[i]) && files[i].imports->Ok_0.len()
            > 0
}

/// The notice on a declared module that was not found on disk.
pub open spec fn module_not_found_warning(path: Seq<char>) -> Seq<char> {
    "Module '"@ + path + "' not found. It will be ignored."@
}

/// The notice of a run that met no import within the project.
pub open spec fn no_imports_warning() -> Seq<char> {
    "WARNING: No first-party imports were found. You may need to use 'tach mod' to update your Python source roots. Docs: https://docs.gauge.sh/usage/configuration#source-roots"@
}

/// The notices of a run: one for each module that was not found, then
/// the one on missing imports unless an import was checked.
pub open spec fn check_warnings(invalid_modules: Seq<Seq<char>>, found_import: bool) -> Seq<
    Seq<char>,
> {
    let not_found = Seq::new(
        invalid_modules.len(),
        |i: int| module_not_found_warning(invalid_modules[i]),
    );
    if found_import {
        not_found
    } else {
        not_found.push(no_imports_warning())
    }
}

/// What the check of a project reports.
pub open spec fn check_spec(
    tree: Map<Seq<char>, ModuleNodeView>,
    invalid_modules: Seq<Seq<char>>,
    files: Seq<SourceFileView>,
) -> CheckDiagnosticsView {
    CheckDiagnosticsView {
        errors: findings_of_files(tree, files, false),
        deprecated_warnings: findings_of_files(tree, files, true),
        warnings: check_warnings(invalid_modules, any_import_checked(tree, files)),
    }
}

/// Checks the imports of one file against the boundaries of its module
/// and files each finding: a deprecation under `deprecated_warnings`,
/// any other error under `errors`. A file that lies in no module, or
/// whose imports could not be extracted, adds nothing.
pub fn check_file(
    module_tree: &ModuleTree,
    file: &SourceFile,
    errors: &mut Vec<BoundaryError>,
    deprecated_warnings: &mut Vec<BoundaryError>,
) -> (found_import: bool)
    ensures
        boundary_error_views(final(errors)@) == boundary_error_views(old(errors)@)
            + findings_of_file(module_tree@, file@, false),
        boundary_error_views(final(deprecated_warnings)@) == boundary_error_views(
            old(deprecated_warnings)@,
        ) + findings_of_file(module_tree@, file@, true),
        found_import == (is_checked(module_tree@, file@) && file@.imports->Ok_0.len() > 0),
{
    let nearest_module = match module_tree.find_nearest(file.mod_path.as_str()) {
        Some(module) => module,
        None => {
            assert(boundary_error_views(errors@) + Seq::empty() =~= boundary_error_views(errors@));
            assert(boundary_error_views(deprecated_warnings@) + Seq::empty()
                =~= boundary_error_views(deprecated_warnings@));
            return false;
        },
    };
    let imports = match &file.imports {
        Ok(imports) => imports,
        Err(_) => {
            assert(boundary_error_views(errors@) + Seq::empty() =~= boundary_error_views(errors@));
            assert(boundary_error_views(deprecated_warnings@) + Seq::empty()
                =~= boundary_error_views(deprecated_warnings@));
            return false;
        },
    };
    let ghost tree = module_tree@;
    let ghost all = import_views(imports@);
    let mut i: usize = 0;
    assert(all.take(0) =~= Seq::<NormalizedImportView>::empty());
    assert(boundary_error_views(errors@) + Seq::empty() =~= boundary_error_views(errors@));
    assert(boundary_error_views(deprecated_warnings@) + Seq::empty() =~= boundary_error_views(
        deprecated_warnings@,
    ));
    while i < imports.len()
        invariant
            i <= imports.len(),
            tree == module_tree@,
            all == import_views(imports@),
            nearest(tree, file@.mod_path) == Some(nearest_module@),
            boundary_error_views(errors@) == boundary_error_views(old(errors)@)
                + findings_of_imports(tree, file@, all.take(i as int), false),
            boundary_error_views(deprecated_warnings@) == boundary_error_views(
                old(deprecated_warnings)@,
            ) + findings_of_imports(tree, file@, all.take(i as int), true),
        decreases imports.len() - i,
    {
        let import = &imports[i];
        proof {
            assert(all.take(i + 1).drop_last() =~= all.take(i as int));
            assert(all.take(i + 1).last() == import@);
        }
        match check_import(
            module_tree,
            import.mod_path.as_str(),
            file.mod_path.as_str(),
            Some(nearest_module),
        ) {
            Ok(()) => {},
            Err(error_info) => {
                let boundary_error = BoundaryError {
                    file_path: file.file_path.clone(),
                    line_number: import.line_no,
                    import_mod_path: import.mod_path.clone(),
                    error_info,
                };
                assert(Some(boundary_error@) == import_finding(tree, file@, import@));
                if boundary_error.error_info.is_deprecated() {
                    let ghost before = deprecated_warnings@;
                    deprecated_warnings.push(boundary_error);
                    assert(boundary_error_views(deprecated_warnings@) =~= boundary_error_views(
                        before,
                    ).push(boundary_error@));
                } else {
                    let ghost before = errors@;
                    errors.push(boundary_error);
                    assert(boundary_error_views(errors@) =~= boundary_error_views(before).push(
                        boundary_error@,
                    ));
                }
            },
        }
        i += 1;
    }
    assert(all.take(i as int) =~= all);
    imports.len() > 0
}

/// The notice on a declared module that was not found on disk.
pub fn module_not_found_message(path: &str) -> (r: String)
    ensures
        r@ == module_not_found_warning(path@),
{
    let mut r = String::from_str("Module '");
    r.append(path);
    r.append("' not found. It will be ignored.");
    r
}

/// Checks every import of a project against its module boundaries.
///
/// `invalid_modules` holds the paths of the declared modules that were
/// not found on disk; `files` holds the source files of the project that
/// are not excluded, in the order in which they were walked.
pub fn check(module_tree: &ModuleTree, invalid_modules: &Vec<String>, files: &Vec<SourceFile>) -> (r:
    CheckDiagnostics)
    ensures
        r@ == check_spec(module_tree@, texts(invalid_modules@), file_views(files@)),
{
    let mut found_at_least_one_project_import = false;
    let mut boundary_errors: Vec<BoundaryError> = Vec::new();
    let mut boundary_warnings: Vec<BoundaryError> = Vec::new();
    let mut warnings: Vec<String> = Vec::new();
    let ghost tree = module_tree@;
    let ghost invalid = texts(invalid_modules@);

    let mut m: usize = 0;
    while m < invalid_modules.len()
        invariant
            m <= invalid_modules.len(),
            invalid == texts(invalid_modules@),
            warnings@.len() == m,
            forall|j: int|
                0 <= j < m ==> (#[trigger] warnings@[j])@ == module_not_found_warning(invalid[j]),
        decreases invalid_modules.len() - m,
    {
        let warning = module_not_found_message(invalid_modules[m].as_str());
        warnings.push(warning);
        m += 1;
    }
    assert(texts(warnings@) =~= check_warnings(invalid, true));

    let ghost all = file_views(files@);
    let mut i: usize = 0;
    assert(all.take(0) =~= Seq::<SourceFileView>::empty());
    assert(boundary_error_views(boundary_errors@) =~= Seq::empty());
    assert(boundary_error_views(boundary_warnings@) =~= Seq::empty());
    while i < files.len()
        invariant
            i <= files.len(),
            tree == module_tree@,
            all == file_views(files@),
            boundary_error_views(boundary_errors@) == findings_of_files(
                tree,
                all.take(i as int),
                false,
            ),
            boundary_error_views(boundary_warnings@) == findings_of_files(
                tree,
                all.take(i as int),
                true,
            ),
            found_at_least_one_project_import == any_import_checked(tree, all.take(i as int)),
        decreases files.len() - i,
    {
        proof {
            assert(all.take(i + 1).drop_last() =~= all.take(i as int));
            assert(all.take(i + 1).last() == files@[i as int]@);
        }
        let found = check_file(module_tree, &files[i], &mut boundary_errors, &mut boundary_warnings);
        proof {
            let prev = all.take(i as int);
            let next = all.take(i + 1);
            if found {
                assert(is_checked(tree, next[i as int]) && next[i as int].imports->Ok_0.len() > 0);
            }
            if any_import_checked(tree, prev) {
                let k = choose|k: int|
                    0 <= k < prev.len() && is_checked(tree, #[trigger] prev[k])
                        && prev[k].imports->Ok_0.len() > 0;
                assert(next[k] == prev[k]);
            }
            if any_import_checked(tree, next) {
                let k = choose|k: int|
                    0 <= k < next.len() && is_checked(tree, #[trigger] next[k])
                        && next[k].imports->Ok_0.len() > 0;
                if k < i {
                    assert(prev[k] == next[k]);
                }
            }
        }
        if found {
            found_at_least_one_project_import = true;
        }
        i += 1;
    }
    assert(all.take(i as int) =~= all);

    if !found_at_least_one_project_import {
        warnings.push(
            String::from_str(
                "WARNING: No first-party imports were found. You may need to use 'tach mod' to update your Python source roots. Docs: https://docs.gauge.sh/usage/configuration#source-roots",
            ),
        );
        assert(texts(warnings@) =~= check_warnings(invalid, false));
    }
    CheckDiagnostics { errors: boundary_errors, deprecated_warnings: boundary_warnings, warnings }
}

/// Findings are routed by severity: every finding on `imports` that is
/// listed with the deprecations is a deprecation, and none of those
/// listed with the errors is one.
pub proof fn lemma_findings_of_imports_are_routed(
    tree: Map<Seq<char>, ModuleNodeView>,
    file: SourceFileView,
    imports: Seq<NormalizedImportView>,
    deprecated: bool,
)
    ensures
        forall|i: int|
            0 <= i < findings_of_imports(tree, file, imports, deprecated).len() ==> (
            #[trigger] findings_of_imports(
                tree,
                file,
                imports,
                deprecated,
            )[i]).error_info.is_deprecated() == deprecated,
    decreases imports.len(),
{
    if imports.len() > 0 {
        lemma_findings_of_imports_are_routed(tree, file, imports.drop_last(), deprecated);
    }
}

/// Findings are routed by severity: the deprecated warnings of a check
/// are deprecations, and its errors are not.
pub proof fn lemma_findings_are_routed(
    tree: Map<Seq<char>, ModuleNodeView>,
    invalid_modules: Seq<Seq<char>>,
    files: Seq<SourceFileView>,
)
    ensures
        forall|i: int|
            0 <= i < check_spec(tree, invalid_modules, files).errors.len() ==> !(
            #[trigger] check_spec(tree, invalid_modules, files).errors[i]).error_info.is_deprecated(),
        forall|i: int|
            0 <= i < check_spec(tree, invalid_modules, files).deprecated_warnings.len() ==> (
            #[trigger] check_spec(
                tree,
                invalid_modules,
                files,
            ).deprecated_warnings[i]).error_info.is_deprecated(),
{
    lemma_findings_of_files_are_routed(tree, files, false);
    lemma_findings_of_files_are_routed(tree, files, true);
}

/// The findings on `files` that are listed with the deprecations are
/// deprecations, and those listed with the errors are not.
pub proof fn lemma_findings_of_files_are_routed(
    tree: Map<Seq<char>, ModuleNodeView>,
    files: Seq<SourceFileView>,
    deprecated: bool,
)
    ensures
        forall|i: int|
            0 <= i < findings_of_files(tree, files, deprecated).len() ==> (
            #[trigger] findings_of_files(tree, files, deprecated)[i]).error_info.is_deprecated()
                == deprecated,
    decreases files.len(),
{
    if files.len() > 0 {
        lemma_findings_of_files_are_routed(tree, files.drop_last(), deprecated);
        if is_checked(tree, files.last()) {
            lemma_findings_of_imports_are_routed(
                tree,
                files.last(),
                files.last().imports->Ok_0,
                deprecated,
            );
        }
    }
}

} // verus!
