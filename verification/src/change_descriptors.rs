//! Change descriptors: the records of what a fix requires of a backing
//! file. A descriptor names the node it belongs to and the file it targets;
//! without a target it cannot be written back.

use vstd::prelude::*;
use crate::text::position;
use crate::text::lemma_position_is;
use crate::text::clone_opt_text;
use crate::writeback::properties::ModelProperty;
use crate::writeback::properties::ModelPropertyView;
use crate::writeback::properties::SourceProperty;
use crate::writeback::properties::SourcePropertyView;

verus! {

/// A change to one column.
#[derive(Debug, Clone, PartialEq, Eq)]
pub enum ColumnChange {
    /// The column's description changes from `old` to `new`.
    DescriptionChanged {
        model_id: String,
        model_name: String,
        patch_path: Option<String>,
        column_name: String,
        old: Option<String>,
        new: Option<String>,
    },
    /// The column changes through the property payload of its node.
    ChangePropertiesFile,
}

pub enum ColumnChangeView {
    DescriptionChanged {
        model_id: Seq<char>,
        model_name: Seq<char>,
        patch_path: Option<Seq<char>>,
        column_name: Seq<char>,
        old: Option<Seq<char>>,
        new: Option<Seq<char>>,
    },
    ChangePropertiesFile,
}

impl View for ColumnChange {
    type V = ColumnChangeView;

    open spec fn view(&self) -> ColumnChangeView {
        match self {
            ColumnChange::DescriptionChanged {
                model_id,
                model_name,
                patch_path,
                column_name,
                old,
                new,
            } => ColumnChangeView::DescriptionChanged {
                model_id: model_id@,
                model_name: model_name@,
                patch_path: patch_path.deep_view(),
                column_name: column_name@,
                old: old.deep_view(),
                new: new.deep_view(),
            },
            ColumnChange::ChangePropertiesFile => ColumnChangeView::ChangePropertiesFile,
        }
    }
}

impl DeepView for ColumnChange {
    type V = ColumnChangeView;

    open spec fn deep_view(&self) -> ColumnChangeView {
        self@
    }
}

impl ColumnChange {
    pub fn duplicate(&self) -> (r: ColumnChange)
        ensures
            r@ == self@,
    {
        match self {
            ColumnChange::DescriptionChanged {
                model_id,
                model_name,
                patch_path,
                column_name,
                old,
                new,
            } => ColumnChange::DescriptionChanged {
                model_id: model_id.clone(),
                model_name: model_name.clone(),
                patch_path: clone_opt_text(patch_path),
                column_name: column_name.clone(),
                old: clone_opt_text(old),
                new: clone_opt_text(new),
            },
            ColumnChange::ChangePropertiesFile => ColumnChange::ChangePropertiesFile,
        }
    }
}

pub fn clone_column_changes(list: &Vec<ColumnChange>) -> (r: Vec<ColumnChange>)
    ensures
        r.deep_view() == list.deep_view(),
{
    let mut out: Vec<ColumnChange> = Vec::new();
    let mut i: usize = 0;
    while i < list.len()
        invariant
            i <= list.len(),
            out@.len() == i,
            forall|j: int| 0 <= j < i ==> (#[trigger] out@[j])@ == list@[j]@,
        decreases list.len() - i,
    {
        out.push(list[i].duplicate());
        i = i + 1;
    }
    assert(out.deep_view() =~= list.deep_view());
    out
}

/// A change to a model and its backing file.
#[derive(Debug, Clone, PartialEq, Eq)]
pub enum ModelChange {
    /// The model's block moves from the file `patch_path` to `new_path`.
    MovePropertiesFile {
        model_id: String,
        model_name: String,
        patch_path: Option<String>,
        new_path: String,
    },
    /// The file that defines the model moves from `patch_path` to
    /// `new_path`.
    MoveModelFile {
        model_id: String,
        model_name: String,
        patch_path: Option<String>,
        new_path: String,
    },
    /// A backing file was generated for the model at `patch_path`. It is
    /// on disk when this descriptor is made; nothing is left to write.
    GeneratePropertiesFile { model_id: String, model_name: String, patch_path: Option<String> },
    /// The block `property` is merged into the model's block.
    ChangePropertiesFile {
        model_id: String,
        model_name: String,
        patch_path: Option<String>,
        property: Option<ModelProperty>,
    },
}

pub enum ModelChangeView {
    MovePropertiesFile {
        model_id: Seq<char>,
        model_name: Seq<char>,
        patch_path: Option<Seq<char>>,
        new_path: Seq<char>,
    },
    MoveModelFile {
        model_id: Seq<char>,
        model_name: Seq<char>,
        patch_path: Option<Seq<char>>,
        new_path: Seq<char>,
    },
    GeneratePropertiesFile {
        model_id: Seq<char>,
        model_name: Seq<char>,
        patch_path: Option<Seq<char>>,
    },
    ChangePropertiesFile {
        model_id: Seq<char>,
        model_name: Seq<char>,
        patch_path: Option<Seq<char>>,
        property: Option<ModelPropertyView>,
    },
}

impl View for ModelChange {
    type V = ModelChangeView;

    open spec fn view(&self) -> ModelChangeView {
        match self {
            ModelChange::MovePropertiesFile { model_id, model_name, patch_path, new_path } => {
                ModelChangeView::MovePropertiesFile {
                    model_id: model_id@,
                    model_name: model_name@,
                    patch_path: patch_path.deep_view(),
                    new_path: new_path@,
                }
            },
            ModelChange::MoveModelFile { model_id, model_name, patch_path, new_path } => {
                ModelChangeView::MoveModelFile {
                    model_id: model_id@,
                    model_name: model_name@,
                    patch_path: patch_path.deep_view(),
                    new_path: new_path@,
                }
            },
            ModelChange::GeneratePropertiesFile { model_id, model_name, patch_path } => {
                ModelChangeView::GeneratePropertiesFile {
                    model_id: model_id@,
                    model_name: model_name@,
                    patch_path: patch_path.deep_view(),
                }
            },
            ModelChange::ChangePropertiesFile { model_id, model_name, patch_path, property } => {
                ModelChangeView::ChangePropertiesFile {
                    model_id: model_id@,
                    model_name: model_name@,
                    patch_path: patch_path.deep_view(),
                    property: property.deep_view(),
                }
            },
        }
    }
}

impl DeepView for ModelChange {
    type V = ModelChangeView;

    open spec fn deep_view(&self) -> ModelChangeView {
        self@
    }
}

impl ModelChange {
    pub fn duplicate(&self) -> (r: ModelChange)
        ensures
            r@ == self@,
    {
        match self {
            ModelChange::MovePropertiesFile { model_id, model_name, patch_path, new_path } => {
                ModelChange::MovePropertiesFile {
                    model_id: model_id.clone(),
                    model_name: model_name.clone(),
                    patch_path: clone_opt_text(patch_path),
                    new_path: new_path.clone(),
                }
            },
            ModelChange::MoveModelFile { model_id, model_name, patch_path, new_path } => {
                ModelChange::MoveModelFile {
                    model_id: model_id.clone(),
                    model_name: model_name.clone(),
                    patch_path: clone_opt_text(patch_path),
                    new_path: new_path.clone(),
                }
            },
            ModelChange::GeneratePropertiesFile { model_id, model_name, patch_path } => {
                ModelChange::GeneratePropertiesFile {
                    model_id: model_id.clone(),
                    model_name: model_name.clone(),
                    patch_path: clone_opt_text(patch_path),
                }
            },
            ModelChange::ChangePropertiesFile { model_id, model_name, patch_path, property } => {
                ModelChange::ChangePropertiesFile {
                    model_id: model_id.clone(),
                    model_name: model_name.clone(),
                    patch_path: clone_opt_text(patch_path),
                    property: match property {
                        Some(p) => Some(p.duplicate()),
                        None => None,
                    },
                }
            },
        }
    }
}

pub fn clone_model_changes(list: &Vec<ModelChange>) -> (r: Vec<ModelChange>)
    ensures
        r.deep_view() == list.deep_view(),
{
    let mut out: Vec<ModelChange> = Vec::new();
    let mut i: usize = 0;
    while i < list.len()
        invariant
            i <= list.len(),
            out@.len() == i,
            forall|j: int| 0 <= j < i ==> (#[trigger] out@[j])@ == list@[j]@,
        decreases list.len() - i,
    {
        out.push(list[i].duplicate());
        i = i + 1;
    }
    assert(out.deep_view() =~= list.deep_view());
    out
}

/// The changes to one column of a model.
#[derive(Debug, Clone, PartialEq, Eq)]
pub struct ColumnChangeSet {
    pub column_name: String,
    pub changes: Vec<ColumnChange>,
}

pub struct ColumnChangeSetView {
    pub column_name: Seq<char>,
    pub changes: Seq<ColumnChangeView>,
}

impl View for ColumnChangeSet {
    type V = ColumnChangeSetView;

    open spec fn view(&self) -> ColumnChangeSetView {
        ColumnChangeSetView { column_name: self.column_name@, changes: self.changes.deep_view() }
    }
}

impl DeepView for ColumnChangeSet {
    type V = ColumnChangeSetView;

    open spec fn deep_view(&self) -> ColumnChangeSetView {
        self@
    }
}

impl ColumnChangeSet {
    pub fn duplicate(&self) -> (r: ColumnChangeSet)
        ensures
            r@ == self@,
    {
        ColumnChangeSet {
            column_name: self.column_name.clone(),
            changes: clone_column_changes(&self.changes),
        }
    }
}

/// All changes to one model: those to the model itself, in the order in
/// which they are to be applied, and those to its columns.
#[derive(Debug, Clone, PartialEq, Eq)]
pub struct ModelChanges {
    pub model_id: String,
    pub patch_path: Option<String>,
    pub changes: Vec<ModelChange>,
    pub column_changes: Vec<ColumnChangeSet>,
}

pub struct ModelChangesView {
    pub model_id: Seq<char>,
    pub patch_path: Option<Seq<char>>,
    pub changes: Seq<ModelChangeView>,
    pub column_changes: Seq<ColumnChangeSetView>,
}

impl View for ModelChanges {
    type V = ModelChangesView;

    open spec fn view(&self) -> ModelChangesView {
        ModelChangesView {
            model_id: self.model_id@,
            patch_path: self.patch_path.deep_view(),
            changes: self.changes.deep_view(),
            column_changes: self.column_changes.deep_view(),
        }
    }
}

impl DeepView for ModelChanges {
    type V = ModelChangesView;

    open spec fn deep_view(&self) -> ModelChangesView {
        self@
    }
}

impl ModelChangesView {
    pub open spec fn changed_columns(self) -> Seq<Seq<char>> {
        Seq::new(self.column_changes.len(), |i: int| self.column_changes[i].column_name)
    }

    /// The changes recorded for the column `name`; none when nothing is
    /// recorded for it.
    pub open spec fn column_changes_for(self, name: Seq<char>) -> Option<Seq<ColumnChangeView>> {
        if position(self.changed_columns(), name) < self.column_changes.len() {
            Some(self.column_changes[position(self.changed_columns(), name)].changes)
        } else {
            None
        }
    }
}

impl ModelChanges {
    /// No changes yet for the model `model_id`.
    pub fn new(model_id: &str, patch_path: Option<&str>) -> (r: ModelChanges)
        ensures
            r@.model_id == model_id@,
            r@.patch_path == patch_path.deep_view(),
            r@.changes.len() == 0,
            r@.column_changes.len() == 0,
    {
        ModelChanges {
            model_id: model_id.to_owned(),
            patch_path: match patch_path {
                Some(p) => Some(p.to_owned()),
                None => None,
            },
            changes: Vec::new(),
            column_changes: Vec::new(),
        }
    }

    pub fn duplicate(&self) -> (r: ModelChanges)
        ensures
            r@ == self@,
    {
        let mut column_changes: Vec<ColumnChangeSet> = Vec::new();
        let mut i: usize = 0;
        while i < self.column_changes.len()
            invariant
                i <= self.column_changes.len(),
                column_changes@.len() == i,
                forall|j: int|
                    0 <= j < i ==> (#[trigger] column_changes@[j])@ == self.column_changes@[j]@,
            decreases self.column_changes.len() - i,
        {
            column_changes.push(self.column_changes[i].duplicate());
            i = i + 1;
        }
        assert(column_changes.deep_view() =~= self.column_changes.deep_view());
        ModelChanges {
            model_id: self.model_id.clone(),
            patch_path: clone_opt_text(&self.patch_path),
            changes: clone_model_changes(&self.changes),
            column_changes,
        }
    }

    /// The changes recorded for the column `name`.
    pub fn column_changes_for(&self, name: &str) -> (r: Option<&Vec<ColumnChange>>)
        ensures
            r.deep_view() == self@.column_changes_for(name@),
    {
        let key = name.to_owned();
        let ghost names = self@.changed_columns();
        let mut i: usize = 0;
        while i < self.column_changes.len()
            invariant
                i <= self.column_changes.len(),
                key@ == name@,
                names == self@.changed_columns(),
                forall|j: int| 0 <= j < i ==> #[trigger] names[j] != name@,
            decreases self.column_changes.len() - i,
        {
            if self.column_changes[i].column_name == key {
                proof {
                    lemma_position_is(names, name@, i as int);
                }
                return Some(&self.column_changes[i].changes);
            }
            i = i + 1;
        }
        proof {
            lemma_position_is(names, name@, i as int);
        }
        None
    }

    /// Whether changes are recorded for the column `name`.
    pub fn has_column_changes(&self, name: &str) -> (r: bool)
        ensures
            r == self@.column_changes_for(name@) is Some,
    {
        self.column_changes_for(name).is_some()
    }

    /// Records `change` for the column `name`.
    pub fn add_column_change(&mut self, name: &str, change: ColumnChange)
        ensures
            final(self)@.model_id == old(self)@.model_id,
            final(self)@.patch_path == old(self)@.patch_path,
            final(self)@.changes == old(self)@.changes,
            final(self)@.column_changes == add_column_change(
                old(self)@.column_changes,
                name@,
                change@,
            ),
    {
        let key = name.to_owned();
        let ghost names = self@.changed_columns();
        let ghost before = self@.column_changes;
        let mut i: usize = 0;
        while i < self.column_changes.len()
            invariant
                i <= self.column_changes.len(),
                key@ == name@,
                *self == *old(self),
                names == self@.changed_columns(),
                before == self@.column_changes,
                forall|j: int| 0 <= j < i ==> #[trigger] names[j] != name@,
            decreases self.column_changes.len() - i,
        {
            if self.column_changes[i].column_name == key {
                proof {
                    lemma_position_is(names, name@, i as int);
                }
                let mut set = self.column_changes[i].duplicate();
                let ghost old_changes = set.changes.deep_view();
                set.changes.push(change);
                assert(set.changes.deep_view() =~= old_changes.push(change@));
                self.column_changes.set(i, set);
                assert(self@.column_changes =~= before.update(
                    i as int,
                    ColumnChangeSetView {
                        column_name: before[i as int].column_name,
                        changes: before[i as int].changes.push(change@),
                    },
                ));
                return ;
            }
            i = i + 1;
        }
        proof {
            lemma_position_is(names, name@, i as int);
        }
        let mut changes: Vec<ColumnChange> = Vec::new();
        changes.push(change);
        assert(changes.deep_view() =~= seq![change@]);
        self.column_changes.push(ColumnChangeSet { column_name: key, changes });
        assert(self@.column_changes =~= before.push(
            ColumnChangeSetView { column_name: name@, changes: seq![change@] },
        ));
    }
}

/// Column changes after `change` was recorded for the column `name`: it
/// joins the changes of that column, or opens an entry for it.
pub open spec fn add_column_change(
    sets: Seq<ColumnChangeSetView>,
    name: Seq<char>,
    change: ColumnChangeView,
) -> Seq<ColumnChangeSetView> {
    let names = Seq::new(sets.len(), |i: int| sets[i].column_name);
    let at = position(names, name);
    if at < sets.len() {
        sets.update(
            at,
            ColumnChangeSetView {
                column_name: sets[at].column_name,
                changes: sets[at].changes.push(change),
            },
        )
    } else {
        sets.push(ColumnChangeSetView { column_name: name, changes: seq![change] })
    }
}

/// A change to a source table and its backing file.
#[derive(Debug, Clone, PartialEq, Eq)]
pub enum SourceChange {
    /// The block `property` is merged into the source's block.
    ChangePropertiesFile {
        source_id: String,
        source_name: String,
        table_name: String,
        patch_path: Option<String>,
        property: Option<SourceProperty>,
    },
}

pub enum SourceChangeView {
    ChangePropertiesFile {
        source_id: Seq<char>,
        source_name: Seq<char>,
        table_name: Seq<char>,
        patch_path: Option<Seq<char>>,
        property: Option<SourcePropertyView>,
    },
}

impl View for SourceChange {
    type V = SourceChangeView;

    open spec fn view(&self) -> SourceChangeView {
        match self {
            SourceChange::ChangePropertiesFile {
                source_id,
                source_name,
                table_name,
                patch_path,
                property,
            } => SourceChangeView::ChangePropertiesFile {
                source_id: source_id@,
                source_name: source_name@,
                table_name: table_name@,
                patch_path: patch_path.deep_view(),
                property: property.deep_view(),
            },
        }
    }
}

impl DeepView for SourceChange {
    type V = SourceChangeView;

    open spec fn deep_view(&self) -> SourceChangeView {
        self@
    }
}

impl SourceChange {
    pub fn duplicate(&self) -> (r: SourceChange)
        ensures
            r@ == self@,
    {
        match self {
            SourceChange::ChangePropertiesFile {
                source_id,
                source_name,
                table_name,
                patch_path,
                property,
            } => SourceChange::ChangePropertiesFile {
                source_id: source_id.clone(),
                source_name: source_name.clone(),
                table_name: table_name.clone(),
                patch_path: clone_opt_text(patch_path),
                property: match property {
                    Some(p) => Some(p.duplicate()),
                    None => None,
                },
            },
        }
    }
}

/// All changes to one source table.
#[derive(Debug, Clone, PartialEq, Eq)]
pub struct SourceChanges {
    pub source_id: String,
    pub source_name: String,
    pub table_name: String,
    pub patch_path: Option<String>,
    pub changes: Vec<SourceChange>,
}

pub struct SourceChangesView {
    pub source_id: Seq<char>,
    pub source_name: Seq<char>,
    pub table_name: Seq<char>,
    pub patch_path: Option<Seq<char>>,
    pub changes: Seq<SourceChangeView>,
}

impl View for SourceChanges {
    type V = SourceChangesView;

    open spec fn view(&self) -> SourceChangesView {
        SourceChangesView {
            source_id: self.source_id@,
            source_name: self.source_name@,
            table_name: self.table_name@,
            patch_path: self.patch_path.deep_view(),
            changes: self.changes.deep_view(),
        }
    }
}

impl DeepView for SourceChanges {
    type V = SourceChangesView;

    open spec fn deep_view(&self) -> SourceChangesView {
        self@
    }
}

impl SourceChanges {
    /// Whether no change is recorded.
    pub fn is_empty(&self) -> (r: bool)
        ensures
            r == (self@.changes.len() == 0),
    {
        self.changes.len() == 0
    }

    pub fn duplicate(&self) -> (r: SourceChanges)
        ensures
            r@ == self@,
    {
        let mut changes: Vec<SourceChange> = Vec::new();
        let mut i: usize = 0;
        while i < self.changes.len()
            invariant
                i <= self.changes.len(),
                changes@.len() == i,
                forall|j: int| 0 <= j < i ==> (#[trigger] changes@[j])@ == self.changes@[j]@,
            decreases self.changes.len() - i,
        {
            changes.push(self.changes[i].duplicate());
            i = i + 1;
        }
        assert(changes.deep_view() =~= self.changes.deep_view());
        SourceChanges {
            source_id: self.source_id.clone(),
            source_name: self.source_name.clone(),
            table_name: self.table_name.clone(),
            patch_path: clone_opt_text(&self.patch_path),
            changes,
        }
    }
}

} // verus!
