//! The declared configuration of a module.

use crate::text::texts;
use vstd::prelude::*;

verus! {

/// One declared dependency of a module.
#[derive(Debug, Clone)]
pub struct DependencyConfig {
    pub path: String,
    pub deprecated: bool,
}

/// The mathematical value of a [`DependencyConfig`].
pub struct DependencyConfigView {
    pub path: Seq<char>,
    pub deprecated: bool,
}

impl View for DependencyConfig {
    type V = DependencyConfigView;

    open spec fn view(&self) -> DependencyConfigView {
        DependencyConfigView { path: self.path@, deprecated: self.deprecated }
    }
}

/// The declared configuration of one module.
#[derive(Debug, Clone)]
pub struct ModuleConfig {
    pub path: String,
    pub depends_on: Vec<DependencyConfig>,
    pub strict: bool,
    pub interface_members: Vec<String>,
}

/// The mathematical value of a [`ModuleConfig`].
pub struct ModuleConfigView {
    pub path: Seq<char>,
    pub depends_on: Seq<DependencyConfigView>,
    pub strict: bool,
    pub interface_members: Seq<Seq<char>>,
}

/// The value of each declaration of `deps`, in order.
pub open spec fn dependency_views(deps: Seq<DependencyConfig>) -> Seq<DependencyConfigView> {
    Seq::new(deps.len(), |i: int| deps[i]@)
}

impl View for ModuleConfig {
    type V = ModuleConfigView;

    open spec fn view(&self) -> ModuleConfigView {
        ModuleConfigView {
            path: self.path@,
            depends_on: dependency_views(self.depends_on@),
            strict: self.strict,
            interface_members: texts(self.interface_members@),
        }
    }
}

} // verus!
