//! Import records, as the extraction of imports from source text yields
//! them.

use vstd::prelude::*;

verus! {

/// One import of a source file: the dotted path it names and the line
/// it stands on, counted from 1.
#[derive(Debug, Clone)]
pub struct NormalizedImport {
    pub mod_path: String,
    pub line_no: usize,
}

/// The mathematical value of a [`NormalizedImport`].
pub struct NormalizedImportView {
    pub mod_path: Seq<char>,
    pub line_no: nat,
}

impl View for NormalizedImport {
    type V = NormalizedImportView;

    open spec fn view(&self) -> NormalizedImportView {
        NormalizedImportView { mod_path: self.mod_path@, line_no: self.line_no as nat }
    }
}

/// The value of each import of `imports`, in order.
pub open spec fn import_views(imports: Seq<NormalizedImport>) -> Seq<NormalizedImportView> {
    Seq::new(imports.len(), |i: int| imports[i]@)
}

/// One source file of the project, as read: where it lies, the dotted
/// module path it stands for, and the project imports found in it, or
/// the reason why they could not be extracted.
#[derive(Debug)]
pub struct SourceFile {
    /// The path below its source root.
    pub file_path: String,
    /// The path from the file system's root.
    pub absolute_path: String,
    /// The dotted module path of the file.
    pub mod_path: String,
    pub imports: Result<Vec<NormalizedImport>, String>,
}

/// The mathematical value of a [`SourceFile`].
pub struct SourceFileView {
    pub file_path: Seq<char>,
    pub absolute_path: Seq<char>,
    pub mod_path: Seq<char>,
    pub imports: Result<Seq<NormalizedImportView>, Seq<char>>,
}

impl View for SourceFile {
    type V = SourceFileView;

    open spec fn view(&self) -> SourceFileView {
        SourceFileView {
            file_path: self.file_path@,
            absolute_path: self.absolute_path@,
            mod_path: self.mod_path@,
            imports: match self.imports {
                Ok(imports) => Ok(import_views(imports@)),
                Err(reason) => Err(reason@),
            },
        }
    }
}

/// The value of each file of `files`, in order.
pub open spec fn file_views(files: Seq<SourceFile>) -> Seq<SourceFileView> {
    Seq::new(files.len(), |i: int| files[i]@)
}

} // verus!
