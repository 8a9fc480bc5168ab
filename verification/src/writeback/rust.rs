//! The writeback engine. The changes are grouped by the file they target;
//! each group is applied to the documents in memory, one change after the
//! other; a group that fails leaves the documents as they were. Every
//! document that was changed is then written once, or removed when
//! nothing is left in it.

use vstd::prelude::*;
use crate::text::normal_path;
use crate::text::position;
use crate::text::lemma_position_is;
use crate::text::resolved_path;
use crate::text::resolve_patch_path;
use crate::lists::present;
use crate::lists::lemma_present_step;
use crate::change_descriptors::ModelChanges;
use crate::change_descriptors::ModelChangesView;
use crate::change_descriptors::ModelChange;
use crate::change_descriptors::ModelChangeView;
use crate::change_descriptors::ColumnChange;
use crate::change_descriptors::ColumnChangeView;
use crate::change_descriptors::ColumnChangeSetView;
use crate::writeback::WriteBackError;
use crate::writeback::WriteBackErrorView;
use crate::writeback::properties::PropertyFile;
use crate::writeback::properties::PropertyFileView;
use crate::writeback::properties::ModelProperty;
use crate::writeback::properties::ModelPropertyView;
use crate::writeback::properties::column_names;
use crate::writeback::changes::group_paths;
use crate::writeback::changes::by_model;
use crate::writeback::changes::members;
use crate::writeback::changes::changes_at;
use crate::writeback::changes::group_positions;
use crate::writeback::changes::groups_of;
use crate::writeback::changes::FileGroupView;

verus! {

/// A backing file as it was read: whether it exists, and what it holds.
#[derive(Debug, Clone, PartialEq, Eq)]
pub struct StoredDocument {
    pub path: String,
    pub exists: bool,
    pub document: PropertyFile,
}

pub struct StoredDocumentView {
    pub path: Seq<char>,
    pub exists: bool,
    pub document: PropertyFileView,
}

impl View for StoredDocument {
    type V = StoredDocumentView;

    open spec fn view(&self) -> StoredDocumentView {
        StoredDocumentView { path: self.path@, exists: self.exists, document: self.document@ }
    }
}

impl DeepView for StoredDocument {
    type V = StoredDocumentView;

    open spec fn deep_view(&self) -> StoredDocumentView {
        self@
    }
}

/// A document that the engine works on.
#[derive(Debug, Clone, PartialEq, Eq)]
pub struct Slot {
    pub path: String,
    pub exists: bool,
    pub touched: bool,
    pub document: PropertyFile,
}

pub struct SlotView {
    pub path: Seq<char>,
    pub exists: bool,
    pub touched: bool,
    pub document: PropertyFileView,
}

impl View for Slot {
    type V = SlotView;

    open spec fn view(&self) -> SlotView {
        SlotView {
            path: self.path@,
            exists: self.exists,
            touched: self.touched,
            document: self.document@,
        }
    }
}

impl DeepView for Slot {
    type V = SlotView;

    open spec fn deep_view(&self) -> SlotView {
        self@
    }
}

impl Slot {
    pub fn duplicate(&self) -> (r: Slot)
        ensures
            r@ == self@,
    {
        Slot {
            path: self.path.clone(),
            exists: self.exists,
            touched: self.touched,
            document: self.document.duplicate(),
        }
    }
}

/// What is to be done to a file.
#[derive(Debug, Clone, PartialEq, Eq)]
pub enum FileAction {
    Write { path: String, document: PropertyFile },
    Remove { path: String },
}

pub enum FileActionView {
    Write { path: Seq<char>, document: PropertyFileView },
    Remove { path: Seq<char> },
}

impl View for FileAction {
    type V = FileActionView;

    open spec fn view(&self) -> FileActionView {
        match self {
            FileAction::Write { path, document } => FileActionView::Write {
                path: path@,
                document: document@,
            },
            FileAction::Remove { path } => FileActionView::Remove { path: path@ },
        }
    }
}

impl DeepView for FileAction {
    type V = FileActionView;

    open spec fn deep_view(&self) -> FileActionView {
        self@
    }
}

impl FileActionView {
    pub open spec fn path(self) -> Seq<char> {
        match self {
            FileActionView::Write { path, .. } => path,
            FileActionView::Remove { path } => path,
        }
    }
}

/// The columns that were updated for one model. A model whose changes
/// touch no column has an empty list.
#[derive(Debug, Clone, PartialEq, Eq)]
pub struct Report {
    pub model_id: String,
    pub columns: Vec<String>,
}

pub struct ReportView {
    pub model_id: Seq<char>,
    pub columns: Seq<Seq<char>>,
}

impl View for Report {
    type V = ReportView;

    open spec fn view(&self) -> ReportView {
        ReportView { model_id: self.model_id@, columns: self.columns.deep_view() }
    }
}

impl DeepView for Report {
    type V = ReportView;

    open spec fn deep_view(&self) -> ReportView {
        self@
    }
}

/// The error of one group of changes, with the file that the group targets.
#[derive(Debug, Clone, PartialEq, Eq)]
pub struct GroupError {
    pub path: Option<String>,
    pub error: WriteBackError,
}

pub struct GroupErrorView {
    pub path: Option<Seq<char>>,
    pub error: WriteBackErrorView,
}

impl View for GroupError {
    type V = GroupErrorView;

    open spec fn view(&self) -> GroupErrorView {
        GroupErrorView { path: self.path.deep_view(), error: self.error@ }
    }
}

impl DeepView for GroupError {
    type V = GroupErrorView;

    open spec fn deep_view(&self) -> GroupErrorView {
        self@
    }
}

/// The outcome of a writeback.
#[derive(Debug, Clone, PartialEq, Eq)]
pub struct Writeback {
    /// One entry for each model whose changes were applied.
    pub reports: Vec<Report>,
    /// What is to be done to the files, at most one action for each.
    pub actions: Vec<FileAction>,
    /// The groups that failed; nothing of them was applied.
    pub errors: Vec<GroupError>,
    /// The model files that are to move, for the groups that did not fail.
    pub moves: Vec<FileMove>,
}

pub struct WritebackView {
    pub reports: Seq<ReportView>,
    pub actions: Seq<FileActionView>,
    pub errors: Seq<GroupErrorView>,
    pub moves: Seq<FileMoveView>,
}

impl View for Writeback {
    type V = WritebackView;

    open spec fn view(&self) -> WritebackView {
        WritebackView {
            reports: self.reports.deep_view(),
            actions: self.actions.deep_view(),
            errors: self.errors.deep_view(),
            moves: self.moves.deep_view(),
        }
    }
}

/// The files that the documents were read from, each as its components
/// give it.
pub open spec fn document_paths(documents: Seq<StoredDocumentView>) -> Seq<Seq<char>> {
    Seq::new(documents.len(), |i: int| normal_path(documents[i].path))
}

pub open spec fn slot_paths(store: Seq<SlotView>) -> Seq<Seq<char>> {
    Seq::new(store.len(), |i: int| store[i].path)
}

/// The slot that a file gets when the engine first needs it: what was
/// read of it, or a blank document for a file that was not read.
pub open spec fn first_slot(documents: Seq<StoredDocumentView>, path: Seq<char>) -> SlotView {
    if position(document_paths(documents), path) < documents.len() {
        SlotView {
            path,
            exists: documents[position(document_paths(documents), path)].exists,
            touched: false,
            document: documents[position(document_paths(documents), path)].document,
        }
    } else {
        SlotView { path, exists: false, touched: false, document: PropertyFileView::blank() }
    }
}

/// The document at `path` as the engine has it.
pub open spec fn document_at(
    store: Seq<SlotView>,
    documents: Seq<StoredDocumentView>,
    path: Seq<char>,
) -> PropertyFileView {
    if position(slot_paths(store), path) < store.len() {
        store[position(slot_paths(store), path)].document
    } else {
        first_slot(documents, path).document
    }
}

/// The store after `document` was put at `path`.
pub open spec fn put(
    store: Seq<SlotView>,
    documents: Seq<StoredDocumentView>,
    path: Seq<char>,
    document: PropertyFileView,
) -> Seq<SlotView> {
    if position(slot_paths(store), path) < store.len() {
        store.update(
            position(slot_paths(store), path),
            SlotView { touched: true, document, ..store[position(slot_paths(store), path)] },
        )
    } else {
        store.push(SlotView { touched: true, document, ..first_slot(documents, path) })
    }
}

/// One step of the writeback.
pub enum Op {
    /// The changes of the next model target `path`.
    Target { path: String },
    /// The block of the model moves from `origin` to `dest`.
    Move { model_id: String, model_name: String, origin: Option<String>, dest: String },
    /// `property` is merged into the block of the model.
    Merge { model_name: String, property: ModelProperty },
    /// The column takes the description `new`.
    Describe { model_id: String, model_name: String, column_name: String, new: Option<String> },
    /// A change of the model names no file to start from.
    Refuse { model_id: String },
}

pub enum OpView {
    Target { path: Seq<char> },
    Move {
        model_id: Seq<char>,
        model_name: Seq<char>,
        origin: Option<Seq<char>>,
        dest: Seq<char>,
    },
    Merge { model_name: Seq<char>, property: ModelPropertyView },
    Describe {
        model_id: Seq<char>,
        model_name: Seq<char>,
        column_name: Seq<char>,
        new: Option<Seq<char>>,
    },
    Refuse { model_id: Seq<char> },
}

impl View for Op {
    type V = OpView;

    open spec fn view(&self) -> OpView {
        match self {
            Op::Target { path } => OpView::Target { path: path@ },
            Op::Move { model_id, model_name, origin, dest } => OpView::Move {
                model_id: model_id@,
                model_name: model_name@,
                origin: origin.deep_view(),
                dest: dest@,
            },
            Op::Merge { model_name, property } => OpView::Merge {
                model_name: model_name@,
                property: property@,
            },
            Op::Describe { model_id, model_name, column_name, new } => OpView::Describe {
                model_id: model_id@,
                model_name: model_name@,
                column_name: column_name@,
                new: new.deep_view(),
            },
            Op::Refuse { model_id } => OpView::Refuse { model_id: model_id@ },
        }
    }
}

impl DeepView for Op {
    type V = OpView;

    open spec fn deep_view(&self) -> OpView {
        self@
    }
}

/// The documents in work and the file that changes currently go to.
pub struct StateView {
    pub store: Seq<SlotView>,
    pub current: Seq<char>,
}

/// The state after one step, or the error that stops the group.
///
/// A move takes the block of the model out of the document at its origin
/// and puts it into the document at its destination; from then on the
/// changes of the model go to the destination. A merge goes to the block
/// of the model, which is added when the document lacks it. A description
/// goes to the block of the column, which must exist.
pub open spec fn apply_op(
    state: StateView,
    documents: Seq<StoredDocumentView>,
    op: OpView,
) -> Result<StateView, WriteBackErrorView> {
    match op {
        OpView::Target { path } => Ok(StateView { current: path, ..state }),
        OpView::Move { model_id, model_name, origin, dest } => match origin {
            None => Err(WriteBackErrorView::PatchPathMissing { model_id }),
            Some(from) => if from == dest {
                Ok(StateView { current: dest, ..state })
            } else if !document_at(state.store, documents, from).has_model(model_name) {
                Err(WriteBackErrorView::ModelMissing { model_id })
            } else {
                let source = document_at(state.store, documents, from);
                let block = source.model_blocks()[source.model_position(model_name)].named(
                    model_name,
                );
                let taken = put(
                    state.store,
                    documents,
                    from,
                    source.without_model(model_name),
                );
                Ok(
                    StateView {
                        store: put(
                            taken,
                            documents,
                            dest,
                            document_at(taken, documents, dest).with_model(block),
                        ),
                        current: dest,
                    },
                )
            },
        },
        OpView::Merge { model_name, property } => Ok(
            StateView {
                store: put(
                    state.store,
                    documents,
                    state.current,
                    document_at(state.store, documents, state.current).with_merged_model(
                        model_name,
                        property,
                    ),
                ),
                ..state
            },
        ),
        OpView::Describe { model_id, model_name, column_name, new } => {
            let document = document_at(state.store, documents, state.current);
            if !document.has_model(model_name) {
                Err(WriteBackErrorView::ModelMissing { model_id })
            } else if !document.has_column(model_name, column_name) {
                Err(WriteBackErrorView::ColumnMissing { model_id, column_name })
            } else {
                Ok(
                    StateView {
                        store: put(
                            state.store,
                            documents,
                            state.current,
                            document.with_description(model_name, column_name, new),
                        ),
                        ..state
                    },
                )
            }
        },
        OpView::Refuse { model_id } => Err(WriteBackErrorView::PatchPathMissing { model_id }),
    }
}

/// The state after the first `n` of `ops`, or the first error.
pub open spec fn apply_ops(
    state: StateView,
    documents: Seq<StoredDocumentView>,
    ops: Seq<OpView>,
    n: int,
) -> Result<StateView, WriteBackErrorView>
    decreases n,
{
    if n <= 0 {
        Ok(state)
    } else {
        match apply_ops(state, documents, ops, n - 1) {
            Ok(before) => apply_op(before, documents, ops[n - 1]),
            Err(e) => Err(e),
        }
    }
}

/// Once a step fails, the group has failed with that error.
pub proof fn lemma_error_stays(
    state: StateView,
    documents: Seq<StoredDocumentView>,
    ops: Seq<OpView>,
    i: int,
    n: int,
)
    requires
        0 <= i <= n,
        apply_ops(state, documents, ops, i) is Err,
    ensures
        apply_ops(state, documents, ops, n) == apply_ops(state, documents, ops, i),
    decreases n - i,
{
    if i < n {
        lemma_error_stays(state, documents, ops, i, n - 1);
    }
}

/// The step that a change to a model asks for.
pub open spec fn change_ops(root: Seq<char>, change: ModelChangeView) -> Seq<OpView> {
    match change {
        ModelChangeView::MovePropertiesFile { model_id, model_name, patch_path, new_path } => seq![
            OpView::Move {
                model_id,
                model_name,
                origin: match patch_path {
                    Some(p) => Some(resolved_path(root, p)),
                    None => None,
                },
                dest: resolved_path(root, new_path),
            },
        ],
        ModelChangeView::ChangePropertiesFile { model_name, property, .. } => match property {
            Some(p) => seq![OpView::Merge { model_name, property: p }],
            None => Seq::empty(),
        },
        ModelChangeView::MoveModelFile { model_id, patch_path, .. } => match patch_path {
            Some(_) => Seq::empty(),
            None => seq![OpView::Refuse { model_id }],
        },
        ModelChangeView::GeneratePropertiesFile { .. } => Seq::empty(),
    }
}

/// The move of a file that defines a model.
#[derive(Debug, Clone, PartialEq, Eq)]
pub struct FileMove {
    pub from: String,
    pub to: String,
}

pub struct FileMoveView {
    pub from: Seq<char>,
    pub to: Seq<char>,
}

impl View for FileMove {
    type V = FileMoveView;

    open spec fn view(&self) -> FileMoveView {
        FileMoveView { from: self.from@, to: self.to@ }
    }
}

impl DeepView for FileMove {
    type V = FileMoveView;

    open spec fn deep_view(&self) -> FileMoveView {
        self@
    }
}

/// The moves of model files that a change asks for, both ends resolved
/// against `root`.
pub open spec fn change_moves(root: Seq<char>, change: ModelChangeView) -> Seq<FileMoveView> {
    match change {
        ModelChangeView::MoveModelFile { patch_path: Some(from), new_path, .. } => seq![
            FileMoveView { from: resolved_path(root, from), to: resolved_path(root, new_path) },
        ],
        _ => Seq::empty(),
    }
}

/// The moves of model files that the first `n` changes ask for.
pub open spec fn changes_moves(root: Seq<char>, changes: Seq<ModelChangeView>, n: int) -> Seq<
    FileMoveView,
>
    decreases n,
{
    if n <= 0 {
        Seq::empty()
    } else {
        changes_moves(root, changes, n - 1) + change_moves(root, changes[n - 1])
    }
}

/// The moves of model files that the first `n` members of a group ask
/// for, in their order.
pub open spec fn group_moves(root: Seq<char>, group: Seq<ModelChangesView>, n: int) -> Seq<
    FileMoveView,
>
    decreases n,
{
    if n <= 0 {
        Seq::empty()
    } else {
        group_moves(root, group, n - 1) + changes_moves(
            root,
            group[n - 1].changes,
            group[n - 1].changes.len() as int,
        )
    }
}

pub open spec fn changes_ops(root: Seq<char>, changes: Seq<ModelChangeView>, n: int) -> Seq<OpView>
    decreases n,
{
    if n <= 0 {
        Seq::empty()
    } else {
        changes_ops(root, changes, n - 1) + change_ops(root, changes[n - 1])
    }
}

/// The step that a change to a column asks for.
pub open spec fn column_change_ops(change: ColumnChangeView) -> Seq<OpView> {
    match change {
        ColumnChangeView::DescriptionChanged { model_id, model_name, column_name, new, .. } => {
            seq![OpView::Describe { model_id, model_name, column_name, new }]
        },
        ColumnChangeView::ChangePropertiesFile => Seq::empty(),
    }
}

pub open spec fn set_ops(changes: Seq<ColumnChangeView>, n: int) -> Seq<OpView>
    decreases n,
{
    if n <= 0 {
        Seq::empty()
    } else {
        set_ops(changes, n - 1) + column_change_ops(changes[n - 1])
    }
}

pub open spec fn sets_ops(sets: Seq<ColumnChangeSetView>, n: int) -> Seq<OpView>
    decreases n,
{
    if n <= 0 {
        Seq::empty()
    } else {
        sets_ops(sets, n - 1) + set_ops(sets[n - 1].changes, sets[n - 1].changes.len() as int)
    }
}

/// The steps for one model: its changes go to `path` at first; the
/// changes to the model come in their order, then those to its columns.
pub open spec fn member_ops(root: Seq<char>, path: Seq<char>, member: ModelChangesView) -> Seq<
    OpView,
> {
    seq![OpView::Target { path }] + changes_ops(root, member.changes, member.changes.len() as int)
        + sets_ops(member.column_changes, member.column_changes.len() as int)
}

/// The steps for the first `n` models of a group.
pub open spec fn group_ops(
    root: Seq<char>,
    path: Seq<char>,
    group: Seq<ModelChangesView>,
    n: int,
) -> Seq<OpView>
    decreases n,
{
    if n <= 0 {
        Seq::empty()
    } else {
        group_ops(root, path, group, n - 1) + member_ops(root, path, group[n - 1])
    }
}

/// The columns that the payload of a change names.
pub open spec fn payload_columns(change: ModelChangeView) -> Seq<Seq<char>> {
    match change {
        ModelChangeView::ChangePropertiesFile { property: Some(p), .. } => column_names(p.columns),
        _ => Seq::empty(),
    }
}

pub open spec fn payloads_columns(changes: Seq<ModelChangeView>, n: int) -> Seq<Seq<char>>
    decreases n,
{
    if n <= 0 {
        Seq::empty()
    } else {
        payloads_columns(changes, n - 1) + payload_columns(changes[n - 1])
    }
}

/// The column that a change to a column describes.
pub open spec fn described_column(change: ColumnChangeView) -> Seq<Seq<char>> {
    match change {
        ColumnChangeView::DescriptionChanged { column_name, .. } => seq![column_name],
        ColumnChangeView::ChangePropertiesFile => Seq::empty(),
    }
}

pub open spec fn set_columns(changes: Seq<ColumnChangeView>, n: int) -> Seq<Seq<char>>
    decreases n,
{
    if n <= 0 {
        Seq::empty()
    } else {
        set_columns(changes, n - 1) + described_column(changes[n - 1])
    }
}

pub open spec fn sets_columns(sets: Seq<ColumnChangeSetView>, n: int) -> Seq<Seq<char>>
    decreases n,
{
    if n <= 0 {
        Seq::empty()
    } else {
        sets_columns(sets, n - 1) + set_columns(
            sets[n - 1].changes,
            sets[n - 1].changes.len() as int,
        )
    }
}

/// Whether changes are recorded for the model at all.
pub open spec fn has_descriptor(member: ModelChangesView) -> bool {
    member.changes.len() > 0 || member.column_changes.len() > 0
}

/// The report for one model: the columns that were described, then the
/// columns that its payloads name. A model without changes has no report.
pub open spec fn report_of(member: ModelChangesView) -> Option<ReportView> {
    if has_descriptor(member) {
        Some(
            ReportView {
                model_id: member.model_id,
                columns: sets_columns(member.column_changes, member.column_changes.len() as int)
                    + payloads_columns(member.changes, member.changes.len() as int),
            },
        )
    } else {
        None
    }
}

pub open spec fn group_reports(group: Seq<ModelChangesView>) -> Seq<ReportView> {
    present(Seq::new(group.len(), |i: int| report_of(group[i])))
}

/// How far the writeback has come.
pub struct OutcomeView {
    pub store: Seq<SlotView>,
    pub reports: Seq<ReportView>,
    pub errors: Seq<GroupErrorView>,
    pub moves: Seq<FileMoveView>,
}

/// The outcome after one more group: its changes are applied and reported,
/// or, when a step fails, the documents stay as they were and the error is
/// recorded.
pub open spec fn run_group(
    before: OutcomeView,
    root: Seq<char>,
    documents: Seq<StoredDocumentView>,
    group: FileGroupView,
) -> OutcomeView {
    let ops = group_ops(root, group.path, group.changes, group.changes.len() as int);
    match apply_ops(
        StateView { store: before.store, current: group.path },
        documents,
        ops,
        ops.len() as int,
    ) {
        Ok(state) => OutcomeView {
            store: state.store,
            reports: before.reports + group_reports(group.changes),
            errors: before.errors,
            moves: before.moves + group_moves(root, group.changes, group.changes.len() as int),
        },
        Err(error) => OutcomeView {
            store: before.store,
            reports: before.reports,
            errors: before.errors.push(GroupErrorView { path: Some(group.path), error }),
            moves: before.moves,
        },
    }
}

pub open spec fn run_groups(
    root: Seq<char>,
    documents: Seq<StoredDocumentView>,
    groups: Seq<FileGroupView>,
    n: int,
) -> OutcomeView
    decreases n,
{
    if n <= 0 {
        OutcomeView {
            store: Seq::empty(),
            reports: Seq::empty(),
            errors: Seq::empty(),
            moves: Seq::empty(),
        }
    } else {
        run_group(run_groups(root, documents, groups, n - 1), root, documents, groups[n - 1])
    }
}

/// The files that `changes` target, resolved against `root`.
pub open spec fn resolved_targets(root: Seq<char>, changes: Seq<ModelChangesView>) -> Seq<
    Option<Seq<char>>,
> {
    Seq::new(
        changes.len(),
        |i: int|
            match changes[i].patch_path {
                Some(p) => Some(resolved_path(root, p)),
                None => None,
            },
    )
}

/// The groups of `changes` by the resolved file that they target.
pub open spec fn resolved_groups(root: Seq<char>, changes: Seq<ModelChangesView>) -> Seq<
    FileGroupView,
> {
    let keys = resolved_targets(root, changes);
    let paths = group_paths(keys);
    Seq::new(
        paths.len(),
        |g: int|
            FileGroupView {
                path: paths[g],
                changes: changes_at(changes, members(keys, paths[g], keys.len() as int)),
            },
    )
}

/// The error of a model that has changes but names no file.
pub open spec fn pathless_error(member: ModelChangesView) -> Option<GroupErrorView> {
    if member.patch_path is None && has_descriptor(member) {
        Some(
            GroupErrorView {
                path: None,
                error: WriteBackErrorView::PatchPathMissing { model_id: member.model_id },
            },
        )
    } else {
        None
    }
}

pub open spec fn pathless_errors(changes: Seq<ModelChangesView>) -> Seq<GroupErrorView> {
    present(Seq::new(changes.len(), |i: int| pathless_error(changes[i])))
}

/// What is to be done to the file of a slot: nothing when its document was
/// not changed; else the document is written, or, when nothing is left in
/// it, the file is removed if it exists.
pub open spec fn action_of(slot: SlotView) -> Option<FileActionView> {
    if !slot.touched {
        None
    } else if slot.document.is_empty() {
        if slot.exists {
            Some(FileActionView::Remove { path: slot.path })
        } else {
            None
        }
    } else {
        Some(FileActionView::Write { path: slot.path, document: slot.document })
    }
}

pub open spec fn actions_of(store: Seq<SlotView>) -> Seq<FileActionView> {
    present(Seq::new(store.len(), |i: int| action_of(store[i])))
}

/// The outcome of writing `changes` back, given the documents that were
/// read. Paths are resolved against `root`.
pub open spec fn written_back(
    root: Seq<char>,
    changes: Seq<ModelChangesView>,
    documents: Seq<StoredDocumentView>,
) -> WritebackView {
    let groups = resolved_groups(root, changes);
    let done = run_groups(root, documents, groups, groups.len() as int);
    WritebackView {
        reports: done.reports,
        actions: actions_of(done.store),
        errors: pathless_errors(changes) + done.errors,
        moves: done.moves,
    }
}

fn find_slot(store: &Vec<Slot>, path: &String) -> (r: Option<usize>)
    ensures
        match r {
            Some(i) => i == position(slot_paths(store.deep_view()), path@) && i < store.len(),
            None => position(slot_paths(store.deep_view()), path@) == store.len(),
        },
{
    let ghost paths = slot_paths(store.deep_view());
    let mut i: usize = 0;
    while i < store.len()
        invariant
            i <= store.len(),
            paths == slot_paths(store.deep_view()),
            forall|j: int| 0 <= j < i ==> #[trigger] paths[j] != path@,
        decreases store.len() - i,
    {
        if store[i].path == *path {
            proof {
                lemma_position_is(paths, path@, i as int);
            }
            return Some(i);
        }
        i = i + 1;
    }
    proof {
        lemma_position_is(paths, path@, i as int);
    }
    None
}

fn make_first_slot(documents: &Vec<StoredDocument>, path: &String) -> (r: Slot)
    ensures
        r@ == first_slot(documents.deep_view(), path@),
{
    let ghost paths = document_paths(documents.deep_view());
    let mut i: usize = 0;
    while i < documents.len()
        invariant
            i <= documents.len(),
            paths == document_paths(documents.deep_view()),
            forall|j: int| 0 <= j < i ==> #[trigger] paths[j] != path@,
        decreases documents.len() - i,
    {
        assert(paths[i as int] == normal_path(documents@[i as int]@.path));
        if crate::text::normalize_path(documents[i].path.as_str()) == *path {
            proof {
                lemma_position_is(paths, path@, i as int);
            }
            return Slot {
                path: path.clone(),
                exists: documents[i].exists,
                touched: false,
                document: documents[i].document.duplicate(),
            };
        }
        i = i + 1;
    }
    proof {
        lemma_position_is(paths, path@, i as int);
    }
    Slot { path: path.clone(), exists: false, touched: false, document: PropertyFile::blank() }
}

fn read_document(store: &Vec<Slot>, documents: &Vec<StoredDocument>, path: &String) -> (r:
    PropertyFile)
    ensures
        r@ == document_at(store.deep_view(), documents.deep_view(), path@),
{
    match find_slot(store, path) {
        Some(i) => store[i].document.duplicate(),
        None => make_first_slot(documents, path).document,
    }
}

fn write_document(
    store: &mut Vec<Slot>,
    documents: &Vec<StoredDocument>,
    path: &String,
    document: PropertyFile,
)
    ensures
        final(store).deep_view() == put(
            old(store).deep_view(),
            documents.deep_view(),
            path@,
            document@,
        ),
{
    let ghost before = store.deep_view();
    match find_slot(store, path) {
        Some(i) => {
            let slot = Slot {
                path: store[i].path.clone(),
                exists: store[i].exists,
                touched: true,
                document,
            };
            store.set(i, slot);
            assert(store.deep_view() =~= before.update(i as int, slot@));
        },
        None => {
            let first = make_first_slot(documents, path);
            let slot = Slot { path: first.path, exists: first.exists, touched: true, document };
            store.push(slot);
            assert(store.deep_view() =~= before.push(slot@));
        },
    }
}

/// Applies one step to the documents in work.
fn run_op(
    store: &mut Vec<Slot>,
    current: &mut String,
    documents: &Vec<StoredDocument>,
    op: &Op,
) -> (r: Result<(), WriteBackError>)
    ensures
        match apply_op(
            StateView { store: old(store).deep_view(), current: old(current)@ },
            documents.deep_view(),
            op@,
        ) {
            Ok(state) => r is Ok && final(store).deep_view() == state.store && final(current)@
                == state.current,
            Err(e) => r matches Err(error) && error@ == e,
        },
{
    match op {
        Op::Target { path } => {
            *current = path.clone();
            Ok(())
        },
        Op::Move { model_id, model_name, origin, dest } => {
            let from = match origin {
                Some(from) => from,
                None => {
                    return Err(WriteBackError::PatchPathMissing { model_id: model_id.clone() });
                },
            };
            if *from == *dest {
                *current = dest.clone();
                return Ok(());
            }
            let mut source = read_document(store, documents, from);
            let block = match source.take_model(model_name.as_str()) {
                Some(block) => block.named(model_name.as_str()),
                None => {
                    return Err(WriteBackError::ModelMissing { model_id: model_id.clone() });
                },
            };
            write_document(store, documents, from, source);
            let mut target = read_document(store, documents, dest);
            target.upsert_model(block);
            write_document(store, documents, dest, target);
            *current = dest.clone();
            Ok(())
        },
        Op::Merge { model_name, property } => {
            let mut document = read_document(store, documents, current);
            document.merge_model(model_name.as_str(), property);
            write_document(store, documents, current, document);
            Ok(())
        },
        Op::Describe { model_id, model_name, column_name, new } => {
            let mut document = read_document(store, documents, current);
            let found = document.describe_column(model_name.as_str(), column_name.as_str(), new);
            if !found.0 {
                return Err(WriteBackError::ModelMissing { model_id: model_id.clone() });
            }
            if !found.1 {
                return Err(
                    WriteBackError::ColumnMissing {
                        model_id: model_id.clone(),
                        column_name: column_name.clone(),
                    },
                );
            }
            write_document(store, documents, current, document);
            Ok(())
        },
        Op::Refuse { model_id } => Err(
            WriteBackError::PatchPathMissing { model_id: model_id.clone() },
        ),
    }
}

fn push_member_moves(moves: &mut Vec<FileMove>, root: &str, member: &ModelChanges)
    ensures
        final(moves).deep_view() == old(moves).deep_view() + changes_moves(
            root@,
            member@.changes,
            member@.changes.len() as int,
        ),
{
    let ghost start = moves.deep_view();
    let ghost list = member@.changes;
    assert(start + changes_moves(root@, list, 0) =~= start);
    let mut c: usize = 0;
    while c < member.changes.len()
        invariant
            c <= member.changes.len(),
            list == member@.changes,
            moves.deep_view() == start + changes_moves(root@, list, c as int),
        decreases member.changes.len() - c,
    {
        let ghost before = moves.deep_view();
        match &member.changes[c] {
            ModelChange::MoveModelFile { patch_path: Some(from), new_path, .. } => {
                let entry = FileMove {
                    from: resolve_patch_path(root, from.as_str()),
                    to: resolve_patch_path(root, new_path.as_str()),
                };
                moves.push(entry);
                assert(moves.deep_view() =~= before + seq![entry@]);
            },
            _ => {
                assert(before + Seq::<FileMoveView>::empty() =~= before);
            },
        }
        assert(moves.deep_view() =~= start + changes_moves(root@, list, c + 1));
        c = c + 1;
    }
}

fn push_change_ops(ops: &mut Vec<Op>, root: &str, change: &ModelChange)
    ensures
        final(ops).deep_view() == old(ops).deep_view() + change_ops(root@, change@),
{
    let ghost before = ops.deep_view();
    match change {
        ModelChange::MovePropertiesFile { model_id, model_name, patch_path, new_path } => {
            let op = Op::Move {
                model_id: model_id.clone(),
                model_name: model_name.clone(),
                origin: match patch_path {
                    Some(p) => Some(resolve_patch_path(root, p.as_str())),
                    None => None,
                },
                dest: resolve_patch_path(root, new_path.as_str()),
            };
            ops.push(op);
            assert(ops.deep_view() =~= before + seq![op@]);
        },
        ModelChange::ChangePropertiesFile { model_name, property, .. } => {
            match property {
                Some(p) => {
                    let op = Op::Merge { model_name: model_name.clone(), property: p.duplicate() };
                    ops.push(op);
                    assert(ops.deep_view() =~= before + seq![op@]);
                },
                None => {
                    assert(before + Seq::<OpView>::empty() =~= before);
                },
            }
        },
        ModelChange::MoveModelFile { model_id, patch_path, .. } => {
            match patch_path {
                Some(_) => {
                    assert(before + Seq::<OpView>::empty() =~= before);
                },
                None => {
                    let op = Op::Refuse { model_id: model_id.clone() };
                    ops.push(op);
                    assert(ops.deep_view() =~= before + seq![op@]);
                },
            }
        },
        ModelChange::GeneratePropertiesFile { .. } => {
            assert(before + Seq::<OpView>::empty() =~= before);
        },
    }
}

fn push_column_change_ops(ops: &mut Vec<Op>, change: &ColumnChange)
    ensures
        final(ops).deep_view() == old(ops).deep_view() + column_change_ops(change@),
{
    let ghost before = ops.deep_view();
    match change {
        ColumnChange::DescriptionChanged { model_id, model_name, column_name, new, .. } => {
            let op = Op::Describe {
                model_id: model_id.clone(),
                model_name: model_name.clone(),
                column_name: column_name.clone(),
                new: crate::text::clone_opt_text(new),
            };
            ops.push(op);
            assert(ops.deep_view() =~= before + seq![op@]);
        },
        ColumnChange::ChangePropertiesFile => {
            assert(before + Seq::<OpView>::empty() =~= before);
        },
    }
}

fn push_member_ops(ops: &mut Vec<Op>, root: &str, path: &String, member: &ModelChanges)
    ensures
        final(ops).deep_view() == old(ops).deep_view() + member_ops(root@, path@, member@),
{
    let ghost start = ops.deep_view();
    let ghost changes = member@.changes;
    let ghost sets = member@.column_changes;
    let target = Op::Target { path: path.clone() };
    ops.push(target);
    let ghost head = start + seq![target@];
    assert(ops.deep_view() =~= head);
    assert(head + changes_ops(root@, changes, 0) =~= head);
    let mut i: usize = 0;
    while i < member.changes.len()
        invariant
            i <= member.changes.len(),
            changes == member@.changes,
            ops.deep_view() == head + changes_ops(root@, changes, i as int),
        decreases member.changes.len() - i,
    {
        let ghost before = ops.deep_view();
        push_change_ops(ops, root, &member.changes[i]);
        assert(ops.deep_view() =~= head + changes_ops(root@, changes, i + 1));
        i = i + 1;
    }
    let ghost middle = ops.deep_view();
    assert(middle + sets_ops(sets, 0) =~= middle);
    let mut s: usize = 0;
    while s < member.column_changes.len()
        invariant
            s <= member.column_changes.len(),
            sets == member@.column_changes,
            ops.deep_view() == middle + sets_ops(sets, s as int),
        decreases member.column_changes.len() - s,
    {
        let set = &member.column_changes[s];
        let ghost list = set@.changes;
        let ghost outer = ops.deep_view();
        assert(outer + set_ops(list, 0) =~= outer);
        let mut c: usize = 0;
        while c < set.changes.len()
            invariant
                c <= set.changes.len(),
                list == set@.changes,
                ops.deep_view() == outer + set_ops(list, c as int),
            decreases set.changes.len() - c,
        {
            push_column_change_ops(ops, &set.changes[c]);
            assert(ops.deep_view() =~= outer + set_ops(list, c + 1));
            c = c + 1;
        }
        assert(sets[s as int] == set@);
        assert(ops.deep_view() =~= middle + sets_ops(sets, s + 1));
        s = s + 1;
    }
    assert(ops.deep_view() =~= start + member_ops(root@, path@, member@));
}

fn payload_names(change: &ModelChange) -> (r: Vec<String>)
    ensures
        r.deep_view() == payload_columns(change@),
{
    let mut out: Vec<String> = Vec::new();
    match change {
        ModelChange::ChangePropertiesFile { property: Some(p), .. } => {
            let mut i: usize = 0;
            while i < p.columns.len()
                invariant
                    i <= p.columns.len(),
                    out@.len() == i,
                    forall|j: int| 0 <= j < i ==> (#[trigger] out@[j])@ == p.columns@[j]@.name,
                decreases p.columns.len() - i,
            {
                out.push(p.columns[i].name.clone());
                i = i + 1;
            }
            assert(out.deep_view() =~= column_names(p@.columns));
        },
        _ => {
            assert(out.deep_view() =~= Seq::empty());
        },
    }
    out
}

fn append_names(list: &mut Vec<String>, more: Vec<String>)
    ensures
        final(list).deep_view() == old(list).deep_view() + more.deep_view(),
{
    let ghost start = list.deep_view();
    let ghost extra = more.deep_view();
    let mut rest = more;
    list.append(&mut rest);
    assert(list.deep_view() =~= start + extra);
}

fn make_report(member: &ModelChanges) -> (r: Option<Report>)
    ensures
        r.deep_view() == report_of(member@),
{
    if member.changes.len() == 0 && member.column_changes.len() == 0 {
        return None;
    }
    let ghost sets = member@.column_changes;
    let ghost changes = member@.changes;
    let mut columns: Vec<String> = Vec::new();
    assert(columns.deep_view() =~= sets_columns(sets, 0));
    let mut s: usize = 0;
    while s < member.column_changes.len()
        invariant
            s <= member.column_changes.len(),
            sets == member@.column_changes,
            columns.deep_view() == sets_columns(sets, s as int),
        decreases member.column_changes.len() - s,
    {
        let set = &member.column_changes[s];
        let ghost list = set@.changes;
        let ghost outer = columns.deep_view();
        assert(outer + set_columns(list, 0) =~= outer);
        let mut c: usize = 0;
        while c < set.changes.len()
            invariant
                c <= set.changes.len(),
                list == set@.changes,
                columns.deep_view() == outer + set_columns(list, c as int),
            decreases set.changes.len() - c,
        {
            let ghost before = columns.deep_view();
            match &set.changes[c] {
                ColumnChange::DescriptionChanged { column_name, .. } => {
                    columns.push(column_name.clone());
                    assert(columns.deep_view() =~= before + seq![column_name@]);
                },
                ColumnChange::ChangePropertiesFile => {
                    assert(before + Seq::<Seq<char>>::empty() =~= before);
                },
            }
            assert(columns.deep_view() =~= outer + set_columns(list, c + 1));
            c = c + 1;
        }
        assert(sets[s as int] == set@);
        s = s + 1;
    }
    let ghost described = columns.deep_view();
    assert(described + payloads_columns(changes, 0) =~= described);
    let mut i: usize = 0;
    while i < member.changes.len()
        invariant
            i <= member.changes.len(),
            changes == member@.changes,
            columns.deep_view() == described + payloads_columns(changes, i as int),
        decreases member.changes.len() - i,
    {
        append_names(&mut columns, payload_names(&member.changes[i]));
        assert(columns.deep_view() =~= described + payloads_columns(changes, i + 1));
        i = i + 1;
    }
    Some(Report { model_id: member.model_id.clone(), columns })
}

fn clone_store(store: &Vec<Slot>) -> (r: Vec<Slot>)
    ensures
        r.deep_view() == store.deep_view(),
{
    let mut out: Vec<Slot> = Vec::new();
    let mut i: usize = 0;
    while i < store.len()
        invariant
            i <= store.len(),
            out@.len() == i,
            forall|j: int| 0 <= j < i ==> (#[trigger] out@[j])@ == store@[j]@,
        decreases store.len() - i,
    {
        out.push(store[i].duplicate());
        i = i + 1;
    }
    assert(out.deep_view() =~= store.deep_view());
    out
}

/// Applies the steps to a copy of the store, which is handed back when
/// every step succeeds.
#[verifier::loop_isolation(false)]
fn run_ops(store: &Vec<Slot>, start: &String, documents: &Vec<StoredDocument>, ops: &Vec<Op>) -> (r:
    Result<Vec<Slot>, WriteBackError>)
    ensures
        match apply_ops(
            StateView { store: store.deep_view(), current: start@ },
            documents.deep_view(),
            ops.deep_view(),
            ops.len() as int,
        ) {
            Ok(state) => r matches Ok(done) && done.deep_view() == state.store,
            Err(e) => r matches Err(error) && error@ == e,
        },
{
    let mut work = clone_store(store);
    let mut current = start.clone();
    let ghost begin = StateView { store: store.deep_view(), current: start@ };
    let ghost all = ops.deep_view();
    let ghost docs = documents.deep_view();
    let mut i: usize = 0;
    while i < ops.len()
        invariant
            i <= ops.len(),
            all == ops.deep_view(),
            docs == documents.deep_view(),
            apply_ops(begin, docs, all, i as int) == Ok::<StateView, WriteBackErrorView>(
                StateView { store: work.deep_view(), current: current@ },
            ),
        decreases ops.len() - i,
    {
        assert(all[i as int] == ops@[i as int]@);
        match run_op(&mut work, &mut current, documents, &ops[i]) {
            Ok(_) => {},
            Err(error) => {
                proof {
                    assert(apply_ops(begin, docs, all, i + 1) is Err);
                    lemma_error_stays(begin, docs, all, i + 1, ops.len() as int);
                }
                return Err(error);
            },
        }
        i = i + 1;
    }
    Ok(work)
}

fn collect_actions(store: &Vec<Slot>) -> (r: Vec<FileAction>)
    ensures
        r.deep_view() == actions_of(store.deep_view()),
{
    let ghost candidates = Seq::new(
        store.deep_view().len(),
        |i: int| action_of(store.deep_view()[i]),
    );
    let mut out: Vec<FileAction> = Vec::new();
    let mut i: usize = 0;
    assert(candidates.take(0) =~= Seq::empty());
    while i < store.len()
        invariant
            i <= store.len(),
            candidates == Seq::new(
                store.deep_view().len(),
                |i: int| action_of(store.deep_view()[i]),
            ),
            out.deep_view() == present(candidates.take(i as int)),
        decreases store.len() - i,
    {
        proof {
            lemma_present_step(candidates, i as int);
        }
        let slot = &store[i];
        assert(store.deep_view()[i as int] == slot@);
        if slot.touched {
            let ghost before = out.deep_view();
            if slot.document.is_empty() {
                if slot.exists {
                    let action = FileAction::Remove { path: slot.path.clone() };
                    out.push(action);
                    assert(out.deep_view() =~= before.push(action@));
                }
            } else {
                let action = FileAction::Write {
                    path: slot.path.clone(),
                    document: slot.document.duplicate(),
                };
                out.push(action);
                assert(out.deep_view() =~= before.push(action@));
            }
        }
        i = i + 1;
    }
    assert(candidates.take(store.len() as int) =~= candidates);
    out
}

/// Applies `changes` to the documents that were read, and says what is to
/// be written. The changes are taken in ascending order of the ids of
/// their models. A file that `documents` does not hold counts as not yet
/// existing and starts blank.
pub fn apply_with_rust(
    project_root: &str,
    changes: &Vec<ModelChanges>,
    documents: &Vec<StoredDocument>,
) -> (r: Writeback)
    ensures
        r@ == written_back(project_root@, by_model(changes.deep_view()), documents.deep_view()),
{
    let ordered = crate::writeback::changes::sort_changes(changes);
    apply_in_order(project_root, &ordered, documents)
}

fn apply_in_order(
    project_root: &str,
    changes: &Vec<ModelChanges>,
    documents: &Vec<StoredDocument>,
) -> (r: Writeback)
    ensures
        r@ == written_back(project_root@, changes.deep_view(), documents.deep_view()),
{
    let ghost root = project_root@;
    let ghost all = changes.deep_view();
    let ghost docs = documents.deep_view();
    let mut keys: Vec<Option<String>> = Vec::new();
    let mut errors: Vec<GroupError> = Vec::new();
    let ghost lacking = Seq::new(all.len(), |i: int| pathless_error(all[i]));
    assert(lacking.take(0) =~= Seq::empty());
    let mut i: usize = 0;
    while i < changes.len()
        invariant
            i <= changes.len(),
            all == changes.deep_view(),
            root == project_root@,
            lacking == Seq::new(all.len(), |i: int| pathless_error(all[i])),
            keys.len() == i,
            forall|j: int|
                0 <= j < i ==> (#[trigger] keys@[j]).deep_view() == resolved_targets(root, all)[j],
            errors.deep_view() == present(lacking.take(i as int)),
        decreases changes.len() - i,
    {
        proof {
            lemma_present_step(lacking, i as int);
        }
        let member = &changes[i];
        assert(all[i as int] == member@);
        match &member.patch_path {
            Some(p) => {
                keys.push(Some(resolve_patch_path(project_root, p.as_str())));
            },
            None => {
                keys.push(None);
                if member.changes.len() > 0 || member.column_changes.len() > 0 {
                    let ghost before = errors.deep_view();
                    let error = GroupError {
                        path: None,
                        error: WriteBackError::PatchPathMissing {
                            model_id: member.model_id.clone(),
                        },
                    };
                    errors.push(error);
                    assert(errors.deep_view() =~= before.push(error@));
                }
            },
        }
        i = i + 1;
    }
    assert(lacking.take(changes.len() as int) =~= lacking);
    assert(keys.deep_view() =~= resolved_targets(root, all));
    let groups = group_positions(&keys);
    let ghost planned = resolved_groups(root, all);
    let ghost first_errors = errors.deep_view();
    let mut store: Vec<Slot> = Vec::new();
    let mut reports: Vec<Report> = Vec::new();
    let mut failed: Vec<GroupError> = Vec::new();
    let mut moves: Vec<FileMove> = Vec::new();
    assert(moves.deep_view() =~= Seq::empty());
    assert(store.deep_view() =~= Seq::empty());
    assert(reports.deep_view() =~= Seq::empty());
    assert(failed.deep_view() =~= Seq::empty());
    let mut g: usize = 0;
    while g < groups.len()
        invariant
            g <= groups.len(),
            all == changes.deep_view(),
            docs == documents.deep_view(),
            root == project_root@,
            keys.deep_view() == resolved_targets(root, all),
            keys.len() == changes.len(),
            planned == resolved_groups(root, all),
            groups.len() == planned.len(),
            groups_of(groups@, keys.deep_view()),
            forall|h: int, x: int|
                0 <= h < groups.len() && 0 <= x < groups@[h].members.len() ==> #[trigger] groups@[h].members@[x]
                    < keys.len(),
            store.deep_view() == run_groups(root, docs, planned, g as int).store,
            reports.deep_view() == run_groups(root, docs, planned, g as int).reports,
            failed.deep_view() == run_groups(root, docs, planned, g as int).errors,
            moves.deep_view() == run_groups(root, docs, planned, g as int).moves,
        decreases groups.len() - g,
    {
        let group = &groups[g];
        let ghost view = planned[g as int];
        assert(view.path == group.path@);
        let mut ops: Vec<Op> = Vec::new();
        let mut made: Vec<Report> = Vec::new();
        let mut found: Vec<FileMove> = Vec::new();
        assert(found.deep_view() =~= group_moves(root, view.changes, 0));
        let ghost wanted = Seq::new(view.changes.len(), |x: int| report_of(view.changes[x]));
        assert(ops.deep_view() =~= group_ops(root, view.path, view.changes, 0));
        assert(wanted.take(0) =~= Seq::empty());
        assert(made.deep_view() =~= present(wanted.take(0)));
        let mut x: usize = 0;
        while x < group.members.len()
            invariant
                x <= group.members.len(),
                all == changes.deep_view(),
                root == project_root@,
                view.path == group.path@,
                view.changes.len() == group.members.len(),
                wanted == Seq::new(view.changes.len(), |x: int| report_of(view.changes[x])),
                forall|y: int|
                    0 <= y < group.members.len() ==> #[trigger] group.members@[y] < changes.len(),
                forall|y: int|
                    0 <= y < group.members.len() ==> #[trigger] view.changes[y]
                        == all[group.members@[y] as int],
                ops.deep_view() == group_ops(root, view.path, view.changes, x as int),
                made.deep_view() == present(wanted.take(x as int)),
                found.deep_view() == group_moves(root, view.changes, x as int),
            decreases group.members.len() - x,
        {
            assert(group.members@[x as int] < changes.len());
            let member = &changes[group.members[x]];
            assert(view.changes[x as int] == member@);
            proof {
                lemma_present_step(wanted, x as int);
            }
            push_member_ops(&mut ops, project_root, &group.path, member);
            push_member_moves(&mut found, project_root, member);
            match make_report(member) {
                Some(report) => {
                    let ghost before = made.deep_view();
                    made.push(report);
                    assert(made.deep_view() =~= before.push(report@));
                },
                None => {},
            }
            x = x + 1;
        }
        assert(wanted.take(group.members.len() as int) =~= wanted);
        let ghost before_reports = reports.deep_view();
        match run_ops(&store, &group.path, documents, &ops) {
            Ok(done) => {
                store = done;
                let mut rest = made;
                let ghost extra = rest.deep_view();
                reports.append(&mut rest);
                assert(reports.deep_view() =~= before_reports + extra);
                let ghost before_moves = moves.deep_view();
                let ghost more = found.deep_view();
                moves.append(&mut found);
                assert(moves.deep_view() =~= before_moves + more);
            },
            Err(error) => {
                let ghost before = failed.deep_view();
                let entry = GroupError { path: Some(group.path.clone()), error };
                failed.push(entry);
                assert(failed.deep_view() =~= before.push(entry@));
            },
        }
        g = g + 1;
    }
    let actions = collect_actions(&store);
    let ghost tail = failed.deep_view();
    errors.append(&mut failed);
    assert(errors.deep_view() =~= first_errors + tail);
    Writeback { reports, actions, errors, moves }
}

} // verus!
