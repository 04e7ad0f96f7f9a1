//! Edits of a project's configuration, and what can apply them.

use vstd::prelude::*;

verus! {

/// One change to the configuration of a project.
#[derive(Debug, Clone, PartialEq)]
pub enum ConfigEdit {
    CreateModule { path: String },
    DeleteModule { path: String },
    MarkModuleAsUtility { path: String },
    UnmarkModuleAsUtility { path: String },
    AddDependency { path: String, dependency: String },
    RemoveDependency { path: String, dependency: String },
}

/// Why an edit could not be taken or applied.
#[derive(Debug, Clone, Copy, PartialEq, Eq, Structural)]
pub enum EditError {
    NotApplicable,
    ModuleNotFound,
    ModuleAlreadyExists,
    ParsingFailed,
    DiskWriteFailed,
    ConfigDoesNotExist,
}

impl EditError {
    /// The message of the error.
    pub open spec fn message_spec(self) -> Seq<char> {
        match self {
            EditError::NotApplicable => "Edit not applicable"@,
            EditError::ModuleNotFound => "Module not found"@,
            EditError::ModuleAlreadyExists => "Module already exists"@,
            EditError::ParsingFailed => "Failed to parse config"@,
            EditError::DiskWriteFailed => "Failed to write to disk"@,
            EditError::ConfigDoesNotExist => "Config file does not exist"@,
        }
    }

    /// The message of the error.
    pub fn message(&self) -> (r: String)
        ensures
            r@ == self.message_spec(),
    {
        match self {
            EditError::NotApplicable => String::from_str("Edit not applicable"),
            EditError::ModuleNotFound => String::from_str("Module not found"),
            EditError::ModuleAlreadyExists => String::from_str("Module already exists"),
            EditError::ParsingFailed => String::from_str("Failed to parse config"),
            EditError::DiskWriteFailed => String::from_str("Failed to write to disk"),
            EditError::ConfigDoesNotExist => String::from_str("Config file does not exist"),
        }
    }
}

/// What holds a configuration and can change it: edits are handed in
/// one by one and applied together.
pub trait ConfigEditor {
    /// Takes `edit` to apply it later, or says why it cannot be applied.
    fn enqueue_edit(&mut self, edit: &ConfigEdit) -> Result<(), EditError>;

    /// Applies the edits taken so far.
    fn apply_edits(&mut self) -> Result<(), EditError>;
}

} // verus!
