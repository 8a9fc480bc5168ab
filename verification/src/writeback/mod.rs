//! Writing fixes back into the backing files. The library works on
//! documents in memory: it says which files to read, applies the changes
//! to what was read, and says which files to write or remove.

pub mod changes;
pub mod plan;
pub mod properties;
pub mod rust;

use vstd::prelude::*;

verus! {

/// Why the changes for one file could not be applied.
#[derive(Debug, Clone, PartialEq, Eq)]
pub enum WriteBackError {
    /// A change names no backing file.
    PatchPathMissing { model_id: String },
    /// The backing file has no block for the column.
    ColumnMissing { model_id: String, column_name: String },
    /// The backing file has no block for the model.
    ModelMissing { model_id: String },
}

pub enum WriteBackErrorView {
    PatchPathMissing { model_id: Seq<char> },
    ColumnMissing { model_id: Seq<char>, column_name: Seq<char> },
    ModelMissing { model_id: Seq<char> },
}

impl View for WriteBackError {
    type V = WriteBackErrorView;

    open spec fn view(&self) -> WriteBackErrorView {
        match self {
            WriteBackError::PatchPathMissing { model_id } => WriteBackErrorView::PatchPathMissing {
                model_id: model_id@,
            },
            WriteBackError::ColumnMissing { model_id, column_name } => {
                WriteBackErrorView::ColumnMissing {
                    model_id: model_id@,
                    column_name: column_name@,
                }
            },
            WriteBackError::ModelMissing { model_id } => WriteBackErrorView::ModelMissing {
                model_id: model_id@,
            },
        }
    }
}

impl DeepView for WriteBackError {
    type V = WriteBackErrorView;

    open spec fn deep_view(&self) -> WriteBackErrorView {
        self@
    }
}

impl WriteBackErrorView {
    /// The text that reports the error.
    pub open spec fn text(self) -> Seq<char> {
        match self {
            WriteBackErrorView::PatchPathMissing { model_id } => "model `"@ + model_id
                + "` is missing a patch path in the manifest"@,
            WriteBackErrorView::ColumnMissing { model_id, column_name } => "column `"@
                + column_name + "` not found for model `"@ + model_id + "`"@,
            WriteBackErrorView::ModelMissing { model_id } => "model `"@ + model_id
                + "` not found in docs"@,
        }
    }
}

impl WriteBackError {
    pub fn to_string(&self) -> (r: String)
        ensures
            r@ == self@.text(),
    {
        match self {
            WriteBackError::PatchPathMissing { model_id } => "model `".to_owned().concat(
                model_id.as_str(),
            ).concat("` is missing a patch path in the manifest"),
            WriteBackError::ColumnMissing { model_id, column_name } => "column `".to_owned().concat(
                column_name.as_str(),
            ).concat("` not found for model `").concat(model_id.as_str()).concat("`"),
            WriteBackError::ModelMissing { model_id } => "model `".to_owned().concat(
                model_id.as_str(),
            ).concat("` not found in docs"),
        }
    }

    pub fn duplicate(&self) -> (r: WriteBackError)
        ensures
            r@ == self@,
    {
        match self {
            WriteBackError::PatchPathMissing { model_id } => WriteBackError::PatchPathMissing {
                model_id: model_id.clone(),
            },
            WriteBackError::ColumnMissing { model_id, column_name } => {
                WriteBackError::ColumnMissing {
                    model_id: model_id.clone(),
                    column_name: column_name.clone(),
                }
            },
            WriteBackError::ModelMissing { model_id } => WriteBackError::ModelMissing {
                model_id: model_id.clone(),
            },
        }
    }
}

/// The name of a model as its id gives it: the part behind the last dot.
pub fn extract_model_name(unique_id: &str) -> (r: String)
    ensures
        r@ == crate::text::after_last(unique_id@, '.'),
{
    crate::text::last_segment(unique_id, '.')
}

/// Applies `changes` to the documents that were read. Both writeback
/// methods give the same outcome; the changes are applied in process
/// whichever of them is configured.
pub fn apply_model_changes(
    project_root: &str,
    changes: &Vec<crate::change_descriptors::ModelChanges>,
    documents: &Vec<crate::writeback::rust::StoredDocument>,
    config: &crate::config::Config,
) -> (r: crate::writeback::rust::Writeback)
    ensures
        r@ == crate::writeback::rust::written_back(
            project_root@,
            crate::writeback::changes::by_model(changes.deep_view()),
            documents.deep_view(),
        ),
{
    match config.writeback {
        crate::config::WritebackMethod::Python => crate::writeback::rust::apply_with_rust(
            project_root,
            changes,
            documents,
        ),
        crate::config::WritebackMethod::Rust => crate::writeback::rust::apply_with_rust(
            project_root,
            changes,
            documents,
        ),
    }
}

} // verus!
