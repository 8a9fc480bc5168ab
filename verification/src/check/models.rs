//! The rules on models, and the evaluation of one model: every selected
//! rule runs, a rule that may be fixed changes the working copy of the
//! model and records a change instead of a failure.

use vstd::prelude::*;
use crate::sorting::lemma_before_is_transitive;
use crate::sorting::lemma_not_before_itself;
use crate::sorting::lemma_place_is;
use crate::sorting::transitive;
use crate::sorting::place_of;
use crate::sorting::text_comes_before;
use crate::sorting::comes_before;
use crate::text::description_missing;
use crate::text::is_description_missing;
use crate::text::clone_opt_text;
use crate::text::starts_with;
use crate::text::last_segment;
use crate::text::after_last;
use crate::text::dir_of;
use crate::text::file_name_of;
use crate::text::join_path;
use crate::text::path_dir;
use crate::text::path_file_name;
use crate::text::path_join;
use crate::text::same_dir;
use crate::text::joined;
use crate::text::join;
use crate::text::texts_of;
use crate::text::position;
use crate::text::lemma_position_is;
use crate::lists::with_prefix;
use crate::lists::not_a_test;
use crate::lists::optional;
use crate::lists::filter_prefixed;
use crate::lists::count_prefixed;
use crate::lists::count_not_tests;
use crate::lists::copy_texts;
use crate::lists::picked_once;
use crate::lists::among;
use crate::lists::lemma_picked_once;
use crate::sorting::arranged;
use crate::sorting::text_order;
use crate::sorting::strictly_ascending;
use crate::sorting::lemma_arranged_texts;
use crate::sorting::sort_texts;
use crate::lists::has_text;
use crate::config::Config;
use crate::config::ConfigView;
use crate::config::Selector;
use crate::manifest::Manifest;
use crate::manifest::ManifestView;
use crate::manifest::Node;
use crate::manifest::NodeView;
use crate::manifest::NodeKind;
use crate::manifest::Access;
use crate::graph::DbtGraph;
use crate::graph::GraphView;
use crate::change_descriptors::ColumnChangeSet;
use crate::change_descriptors::ColumnChangeSetView;
use crate::change_descriptors::ModelChange;
use crate::change_descriptors::ModelChangeView;
use crate::change_descriptors::ModelChanges;
use crate::change_descriptors::ModelChangesView;
use crate::change_descriptors::clone_column_changes;
use crate::writeback::properties::model_property_from_manifest_differences;
use crate::writeback::properties::model_difference;
use crate::check::columns::ColumnResult;
use crate::check::columns::ColumnResultView;
use crate::check::columns::check_model_columns;
use crate::check::columns::column_results;
use crate::check::columns::fixed_columns;

verus! {

/// Why a model fails.
#[derive(Debug, Clone, PartialEq, Eq)]
pub enum ModelFailure {
    DescriptionMissing,
    TagsMissing(Vec<String>),
    /// The sources among two or more direct dependencies.
    DirectJoinToSource(Vec<String>),
    MissingPropertiesFile,
    /// The number of models that consume the model directly.
    ModelFanout(usize),
    /// The tests of which the model has none.
    MissingRequiredTests(Vec<String>),
    RootModel,
    MissingPrimaryKey,
    /// The sources that the model joins.
    MultipleSourcesJoined(Vec<String>),
    /// The direct dependencies from which another one is reached.
    RejoiningOfUpstreamConcepts(Vec<String>),
    PublicModelWithoutContract,
    DeadModel,
    ModelSeparateFromPropertiesFile { patch_path: String, original_file_path: String },
}

pub enum ModelFailureView {
    DescriptionMissing,
    TagsMissing(Seq<Seq<char>>),
    DirectJoinToSource(Seq<Seq<char>>),
    MissingPropertiesFile,
    ModelFanout(nat),
    MissingRequiredTests(Seq<Seq<char>>),
    RootModel,
    MissingPrimaryKey,
    MultipleSourcesJoined(Seq<Seq<char>>),
    RejoiningOfUpstreamConcepts(Seq<Seq<char>>),
    PublicModelWithoutContract,
    DeadModel,
    ModelSeparateFromPropertiesFile { patch_path: Seq<char>, original_file_path: Seq<char> },
}

impl View for ModelFailure {
    type V = ModelFailureView;

    open spec fn view(&self) -> ModelFailureView {
        match self {
            ModelFailure::DescriptionMissing => ModelFailureView::DescriptionMissing,
            ModelFailure::TagsMissing(tags) => ModelFailureView::TagsMissing(tags.deep_view()),
            ModelFailure::DirectJoinToSource(sources) => ModelFailureView::DirectJoinToSource(
                sources.deep_view(),
            ),
            ModelFailure::MissingPropertiesFile => ModelFailureView::MissingPropertiesFile,
            ModelFailure::ModelFanout(count) => ModelFailureView::ModelFanout(*count as nat),
            ModelFailure::MissingRequiredTests(tests) => ModelFailureView::MissingRequiredTests(
                tests.deep_view(),
            ),
            ModelFailure::RootModel => ModelFailureView::RootModel,
            ModelFailure::MissingPrimaryKey => ModelFailureView::MissingPrimaryKey,
            ModelFailure::MultipleSourcesJoined(sources) => {
                ModelFailureView::MultipleSourcesJoined(sources.deep_view())
            },
            ModelFailure::RejoiningOfUpstreamConcepts(concepts) => {
                ModelFailureView::RejoiningOfUpstreamConcepts(concepts.deep_view())
            },
            ModelFailure::PublicModelWithoutContract => {
                ModelFailureView::PublicModelWithoutContract
            },
            ModelFailure::DeadModel => ModelFailureView::DeadModel,
            ModelFailure::ModelSeparateFromPropertiesFile { patch_path, original_file_path } => {
                ModelFailureView::ModelSeparateFromPropertiesFile {
                    patch_path: patch_path@,
                    original_file_path: original_file_path@,
                }
            },
        }
    }
}

impl DeepView for ModelFailure {
    type V = ModelFailureView;

    open spec fn deep_view(&self) -> ModelFailureView {
        self@
    }
}

/// A failure's name followed by a list in brackets.
pub open spec fn with_list(name: Seq<char>, label: Seq<char>, items: Seq<Seq<char>>) -> Seq<char> {
    name + " ("@ + label + ": "@ + joined(items, ","@) + ")"@
}

impl ModelFailureView {
    /// The text that reports the failure: its name, and what it found.
    pub open spec fn text(self) -> Seq<char> {
        match self {
            ModelFailureView::DescriptionMissing => "DescriptionMissing"@,
            ModelFailureView::TagsMissing(tags) => with_list("TagsMissing"@, "tags"@, tags),
            ModelFailureView::DirectJoinToSource(sources) => with_list(
                "DirectJoinToSource"@,
                "sources"@,
                sources,
            ),
            ModelFailureView::MissingPropertiesFile => "MissingPropertiesFile"@,
            ModelFailureView::ModelFanout(_) => "ModelFanout"@,
            ModelFailureView::MissingRequiredTests(tests) => with_list(
                "MissingRequiredTests"@,
                "tests"@,
                tests,
            ),
            ModelFailureView::RootModel => "RootModel"@,
            ModelFailureView::MissingPrimaryKey => "MissingPrimaryKey"@,
            ModelFailureView::MultipleSourcesJoined(sources) => with_list(
                "MultipleSourcesJoined"@,
                "sources"@,
                sources,
            ),
            ModelFailureView::RejoiningOfUpstreamConcepts(concepts) => with_list(
                "RejoiningOfUpstreamConcepts"@,
                "concepts"@,
                concepts,
            ),
            ModelFailureView::PublicModelWithoutContract => "PublicModelWithoutContract"@,
            ModelFailureView::DeadModel => "DeadModel"@,
            ModelFailureView::ModelSeparateFromPropertiesFile { patch_path, original_file_path } => {
                "ModelSeparateFromPropertiesFile (patch_path: "@ + patch_path
                    + ", original_file_path: "@ + original_file_path + ")"@
            },
        }
    }
}

fn listed(name: &str, label: &str, items: &Vec<String>) -> (r: String)
    ensures
        r@ == with_list(name@, label@, items.deep_view()),
{
    assert(texts_of(items@) =~= items.deep_view());
    name.to_owned().concat(" (").concat(label).concat(": ").concat(
        join(items, ",").as_str(),
    ).concat(")")
}

impl ModelFailure {
    pub fn to_string(&self) -> (r: String)
        ensures
            r@ == self@.text(),
    {
        match self {
            ModelFailure::DescriptionMissing => "DescriptionMissing".to_owned(),
            ModelFailure::TagsMissing(tags) => listed("TagsMissing", "tags", tags),
            ModelFailure::DirectJoinToSource(sources) => listed(
                "DirectJoinToSource",
                "sources",
                sources,
            ),
            ModelFailure::MissingPropertiesFile => "MissingPropertiesFile".to_owned(),
            ModelFailure::ModelFanout(_) => "ModelFanout".to_owned(),
            ModelFailure::MissingRequiredTests(tests) => listed(
                "MissingRequiredTests",
                "tests",
                tests,
            ),
            ModelFailure::RootModel => "RootModel".to_owned(),
            ModelFailure::MissingPrimaryKey => "MissingPrimaryKey".to_owned(),
            ModelFailure::MultipleSourcesJoined(sources) => listed(
                "MultipleSourcesJoined",
                "sources",
                sources,
            ),
            ModelFailure::RejoiningOfUpstreamConcepts(concepts) => listed(
                "RejoiningOfUpstreamConcepts",
                "concepts",
                concepts,
            ),
            ModelFailure::PublicModelWithoutContract => "PublicModelWithoutContract".to_owned(),
            ModelFailure::DeadModel => "DeadModel".to_owned(),
            ModelFailure::ModelSeparateFromPropertiesFile { patch_path, original_file_path } => {
                "ModelSeparateFromPropertiesFile (patch_path: ".to_owned().concat(
                    patch_path.as_str(),
                ).concat(", original_file_path: ").concat(original_file_path.as_str()).concat(")")
            },
        }
    }

    pub fn duplicate(&self) -> (r: ModelFailure)
        ensures
            r@ == self@,
    {
        match self {
            ModelFailure::DescriptionMissing => ModelFailure::DescriptionMissing,
            ModelFailure::TagsMissing(tags) => ModelFailure::TagsMissing(copy_texts(tags)),
            ModelFailure::DirectJoinToSource(sources) => ModelFailure::DirectJoinToSource(
                copy_texts(sources),
            ),
            ModelFailure::MissingPropertiesFile => ModelFailure::MissingPropertiesFile,
            ModelFailure::ModelFanout(count) => ModelFailure::ModelFanout(*count),
            ModelFailure::MissingRequiredTests(tests) => ModelFailure::MissingRequiredTests(
                copy_texts(tests),
            ),
            ModelFailure::RootModel => ModelFailure::RootModel,
            ModelFailure::MissingPrimaryKey => ModelFailure::MissingPrimaryKey,
            ModelFailure::MultipleSourcesJoined(sources) => ModelFailure::MultipleSourcesJoined(
                copy_texts(sources),
            ),
            ModelFailure::RejoiningOfUpstreamConcepts(concepts) => {
                ModelFailure::RejoiningOfUpstreamConcepts(copy_texts(concepts))
            },
            ModelFailure::PublicModelWithoutContract => ModelFailure::PublicModelWithoutContract,
            ModelFailure::DeadModel => ModelFailure::DeadModel,
            ModelFailure::ModelSeparateFromPropertiesFile { patch_path, original_file_path } => {
                ModelFailure::ModelSeparateFromPropertiesFile {
                    patch_path: patch_path.clone(),
                    original_file_path: original_file_path.clone(),
                }
            },
        }
    }
}

/// The outcome of the rules for one model.
#[derive(Debug, Clone, PartialEq, Eq)]
pub struct ModelResult {
    pub model_id: String,
    pub failures: Vec<ModelFailure>,
    pub column_results: Vec<ColumnResult>,
    pub changes: Option<ModelChanges>,
}

pub struct ModelResultView {
    pub model_id: Seq<char>,
    pub failures: Seq<ModelFailureView>,
    pub column_results: Seq<ColumnResultView>,
    pub changes: Option<ModelChangesView>,
}

impl View for ModelResult {
    type V = ModelResultView;

    open spec fn view(&self) -> ModelResultView {
        ModelResultView {
            model_id: self.model_id@,
            failures: self.failures.deep_view(),
            column_results: self.column_results.deep_view(),
            changes: self.changes.deep_view(),
        }
    }
}

impl DeepView for ModelResult {
    type V = ModelResultView;

    open spec fn deep_view(&self) -> ModelResultView {
        self@
    }
}

/// The failure lines of the columns `results`, column after column.
pub open spec fn column_reasons(results: Seq<ColumnResultView>) -> Seq<Seq<char>>
    decreases results.len(),
{
    if results.len() == 0 {
        Seq::empty()
    } else {
        column_reasons(results.drop_last()) + results.last().failure_reasons()
    }
}

impl ModelResultView {
    pub open spec fn has_column_failures(self) -> bool {
        exists|i: int|
            0 <= i < self.column_results.len() && !(#[trigger] self.column_results[i]).is_pass()
    }

    /// A model passes when neither it nor one of its columns fails. A model
    /// that passes may still carry changes.
    pub open spec fn is_pass(self) -> bool {
        self.failures.len() == 0 && !self.has_column_failures()
    }

    /// The report on the model: one line when it passes, else a heading
    /// and one indented line for each reason.
    pub open spec fn report(self) -> Seq<char> {
        if self.is_pass() {
            "ModelResult: Pass:"@ + self.model_id
        } else {
            "ModelResult: Fail:"@ + self.model_id + "\n"@ + crate::lists::indented(
                self.failure_reasons(),
                self.failure_reasons().len() as int,
            )
        }
    }

    /// The text of each failure of the model, then the lines of its columns.
    pub open spec fn failure_reasons(self) -> Seq<Seq<char>> {
        Seq::new(self.failures.len(), |i: int| self.failures[i].text()) + column_reasons(
            self.column_results,
        )
    }
}

impl ModelResult {
    pub fn model_id(&self) -> (r: &str)
        ensures
            r@ == self@.model_id,
    {
        self.model_id.as_str()
    }

    pub fn changes(&self) -> (r: Option<&ModelChanges>)
        ensures
            r.deep_view() == self@.changes,
    {
        self.changes.as_ref()
    }

    pub fn failures(&self) -> (r: &Vec<ModelFailure>)
        ensures
            r.deep_view() == self@.failures,
    {
        &self.failures
    }

    pub fn has_column_failures(&self) -> (r: bool)
        ensures
            r == self@.has_column_failures(),
    {
        let ghost results = self@.column_results;
        let mut i: usize = 0;
        while i < self.column_results.len()
            invariant
                i <= self.column_results.len(),
                results == self@.column_results,
                forall|j: int| 0 <= j < i ==> (#[trigger] results[j]).is_pass(),
            decreases self.column_results.len() - i,
        {
            if self.column_results[i].is_failure() {
                assert(!results[i as int].is_pass());
                return true;
            }
            i = i + 1;
        }
        false
    }

    pub fn is_pass(&self) -> (r: bool)
        ensures
            r == self@.is_pass(),
    {
        self.failures.len() == 0 && !self.has_column_failures()
    }

    pub fn is_failure(&self) -> (r: bool)
        ensures
            r == !self@.is_pass(),
    {
        !self.is_pass()
    }

    pub fn failure_reasons(&self) -> (r: Vec<String>)
        ensures
            r.deep_view() == self@.failure_reasons(),
    {
        let mut out: Vec<String> = Vec::new();
        let ghost own = Seq::new(self@.failures.len(), |i: int| self@.failures[i].text());
        let mut i: usize = 0;
        while i < self.failures.len()
            invariant
                i <= self.failures.len(),
                own == Seq::new(self@.failures.len(), |i: int| self@.failures[i].text()),
                out.deep_view() == own.take(i as int),
            decreases self.failures.len() - i,
        {
            let ghost before = out.deep_view();
            let line = self.failures[i].to_string();
            out.push(line);
            assert(out.deep_view() =~= before.push(line@));
            assert(own.take(i + 1) =~= own.take(i as int).push(own[i as int]));
            i = i + 1;
        }
        assert(own.take(self.failures.len() as int) =~= own);
        let ghost results = self@.column_results;
        let mut k: usize = 0;
        assert(results.take(0) =~= Seq::empty());
        assert(own + column_reasons(results.take(0)) =~= own);
        while k < self.column_results.len()
            invariant
                k <= self.column_results.len(),
                results == self@.column_results,
                out.deep_view() == own + column_reasons(results.take(k as int)),
            decreases self.column_results.len() - k,
        {
            let lines = self.column_results[k].failure_reasons();
            let ghost before = out.deep_view();
            proof {
                assert(results.take(k + 1).drop_last() =~= results.take(k as int));
                assert(results.take(k + 1).last() == results[k as int]);
            }
            let mut j: usize = 0;
            while j < lines.len()
                invariant
                    j <= lines.len(),
                    out.deep_view() == before + lines.deep_view().take(j as int),
                decreases lines.len() - j,
            {
                let ghost so_far = out.deep_view();
                out.push(lines[j].clone());
                assert(out.deep_view() =~= so_far.push(lines@[j as int]@));
                assert(lines.deep_view().take(j + 1) =~= lines.deep_view().take(j as int).push(
                    lines@[j as int]@,
                ));
                assert(before + lines.deep_view().take(j + 1) =~= (before
                    + lines.deep_view().take(j as int)).push(lines@[j as int]@));
                j = j + 1;
            }
            assert(lines.deep_view().take(lines.len() as int) =~= lines.deep_view());
            assert(own + column_reasons(results.take(k + 1)) =~= (own + column_reasons(
                results.take(k as int),
            )) + results[k as int].failure_reasons());
            k = k + 1;
        }
        assert(results.take(self.column_results.len() as int) =~= results);
        out
    }

    /// The report on the model: one line when it passes, else a heading
    /// and one indented line for each reason.
    pub fn to_string(&self) -> (r: String)
        ensures
            r@ == self@.report(),
    {
        if self.is_pass() {
            "ModelResult: Pass:".to_owned().concat(self.model_id.as_str())
        } else {
            let reasons = self.failure_reasons();
            "ModelResult: Fail:".to_owned().concat(self.model_id.as_str()).concat("\n").concat(
                crate::lists::indent_lines(&reasons).as_str(),
            )
        }
    }

    pub fn duplicate(&self) -> (r: ModelResult)
        ensures
            r@ == self@,
    {
        let mut failures: Vec<ModelFailure> = Vec::new();
        let mut i: usize = 0;
        while i < self.failures.len()
            invariant
                i <= self.failures.len(),
                failures@.len() == i,
                forall|j: int| 0 <= j < i ==> (#[trigger] failures@[j])@ == self.failures@[j]@,
            decreases self.failures.len() - i,
        {
            failures.push(self.failures[i].duplicate());
            i = i + 1;
        }
        assert(failures.deep_view() =~= self.failures.deep_view());
        let mut column_results: Vec<ColumnResult> = Vec::new();
        let mut k: usize = 0;
        while k < self.column_results.len()
            invariant
                k <= self.column_results.len(),
                column_results@.len() == k,
                forall|j: int|
                    0 <= j < k ==> (#[trigger] column_results@[j])@ == self.column_results@[j]@,
            decreases self.column_results.len() - k,
        {
            column_results.push(self.column_results[k].duplicate());
            k = k + 1;
        }
        assert(column_results.deep_view() =~= self.column_results.deep_view());
        ModelResult {
            model_id: self.model_id.clone(),
            failures,
            column_results,
            changes: match &self.changes {
                Some(c) => Some(c.duplicate()),
                None => None,
            },
        }
    }
}

/// A backing file that was generated for a model before the rules run.
#[derive(Debug, Clone, PartialEq, Eq)]
pub struct GeneratedFile {
    pub model_id: String,
    pub patch_path: String,
}

pub struct GeneratedFileView {
    pub model_id: Seq<char>,
    pub patch_path: Seq<char>,
}

impl View for GeneratedFile {
    type V = GeneratedFileView;

    open spec fn view(&self) -> GeneratedFileView {
        GeneratedFileView { model_id: self.model_id@, patch_path: self.patch_path@ }
    }
}

impl DeepView for GeneratedFile {
    type V = GeneratedFileView;

    open spec fn deep_view(&self) -> GeneratedFileView {
        self@
    }
}

pub open spec fn generated_ids(generated: Seq<GeneratedFileView>) -> Seq<Seq<char>> {
    Seq::new(generated.len(), |i: int| generated[i].model_id)
}

/// The file that was generated for the model `id`, if one was.
pub open spec fn generated_path(generated: Seq<GeneratedFileView>, id: Seq<char>) -> Option<
    Seq<char>,
> {
    if position(generated_ids(generated), id) < generated.len() {
        Some(generated[position(generated_ids(generated), id)].patch_path)
    } else {
        None
    }
}

pub fn find_generated(generated: &Vec<GeneratedFile>, id: &String) -> (r: Option<String>)
    ensures
        r.deep_view() == generated_path(generated.deep_view(), id@),
{
    let ghost ids = generated_ids(generated.deep_view());
    let mut i: usize = 0;
    while i < generated.len()
        invariant
            i <= generated.len(),
            ids == generated_ids(generated.deep_view()),
            forall|j: int| 0 <= j < i ==> #[trigger] ids[j] != id@,
        decreases generated.len() - i,
    {
        if generated[i].model_id == *id {
            proof {
                lemma_position_is(ids, id@, i as int);
            }
            return Some(generated[i].patch_path.clone());
        }
        i = i + 1;
    }
    proof {
        lemma_position_is(ids, id@, i as int);
    }
    None
}

/// What a rule without a fix reports.
pub open spec fn failure_of(r: Result<(), ModelFailure>) -> Option<ModelFailureView> {
    match r {
        Ok(_) => None,
        Err(f) => Some(f@),
    }
}

/// What a rule with a fix decides: a failure, a change, or neither.
pub struct RuleOutcome {
    pub failure: Option<ModelFailureView>,
    pub change: Option<ModelChangeView>,
}

impl RuleOutcome {
    pub open spec fn pass() -> RuleOutcome {
        RuleOutcome { failure: None, change: None }
    }

    pub open spec fn fail(f: ModelFailureView) -> RuleOutcome {
        RuleOutcome { failure: Some(f), change: None }
    }

    pub open spec fn fix(c: ModelChangeView) -> RuleOutcome {
        RuleOutcome { failure: None, change: Some(c) }
    }
}

pub open spec fn outcome_of(r: Result<Option<ModelChange>, ModelFailure>) -> RuleOutcome {
    match r {
        Ok(None) => RuleOutcome::pass(),
        Ok(Some(c)) => RuleOutcome::fix(c@),
        Err(f) => RuleOutcome::fail(f@),
    }
}

/// The description that a model gets when it has none and the rule is fixed.
pub open spec fn placeholder_description() -> Seq<char> {
    "Auto-generated description"@
}

/// The direct dependencies that are sources.
pub open spec fn source_deps(node: NodeView) -> Seq<Seq<char>> {
    node.depends_on.filter(with_prefix("source."@))
}

/// The name of a model as its id gives it: the part behind the last dot.
pub open spec fn name_from_id(id: Seq<char>) -> Seq<char> {
    after_last(id, '.')
}

pub open spec fn multiple_sources_joined_rule(node: NodeView, config: ConfigView) -> Option<
    ModelFailureView,
> {
    if config.selected(Selector::MultipleSourcesJoined) && source_deps(node).len() > 1 {
        Some(ModelFailureView::MultipleSourcesJoined(source_deps(node)))
    } else {
        None
    }
}

/// A model fails when more than one of its direct dependencies is a source.
pub fn multiple_sources_joined(model: &Node, config: &Config) -> (r: Result<(), ModelFailure>)
    ensures
        failure_of(r) == multiple_sources_joined_rule(model@, config@),
{
    if !config.is_selected(Selector::MultipleSourcesJoined) {
        return Ok(());
    }
    let sources = filter_prefixed(&model.depends_on, "source.");
    if sources.len() > 1 {
        Err(ModelFailure::MultipleSourcesJoined(sources))
    } else {
        Ok(())
    }
}

pub open spec fn direct_join_to_source_rule(node: NodeView, config: ConfigView) -> Option<
    ModelFailureView,
> {
    if config.selected(Selector::DirectJoinToSource) && node.depends_on.len() >= 2 && source_deps(
        node,
    ).len() > 0 {
        Some(ModelFailureView::DirectJoinToSource(source_deps(node)))
    } else {
        None
    }
}

/// A model fails when it has two or more direct dependencies and one of
/// them is a source.
pub fn direct_join_to_source(model: &Node, config: &Config) -> (r: Result<(), ModelFailure>)
    ensures
        failure_of(r) == direct_join_to_source_rule(model@, config@),
{
    if !config.is_selected(Selector::DirectJoinToSource) {
        return Ok(());
    }
    if model.depends_on.len() < 2 {
        return Ok(());
    }
    let sources = filter_prefixed(&model.depends_on, "source.");
    if sources.len() > 0 {
        Err(ModelFailure::DirectJoinToSource(sources))
    } else {
        Ok(())
    }
}

pub open spec fn root_model_rule(node: NodeView, config: ConfigView) -> Option<ModelFailureView> {
    if config.selected(Selector::RootModels) && node.depends_on.len() == 0 {
        Some(ModelFailureView::RootModel)
    } else {
        None
    }
}

/// A model fails when it has no dependency at all.
pub fn root_model(model: &Node, config: &Config) -> (r: Result<(), ModelFailure>)
    ensures
        failure_of(r) == root_model_rule(model@, config@),
{
    if !config.is_selected(Selector::RootModels) {
        return Ok(());
    }
    if model.depends_on.len() == 0 {
        Err(ModelFailure::RootModel)
    } else {
        Ok(())
    }
}

pub open spec fn missing_model_tags_rule(node: NodeView, config: ConfigView) -> Option<
    ModelFailureView,
> {
    if config.selected(Selector::MissingModelTags) && node.tags is None {
        Some(ModelFailureView::TagsMissing(Seq::empty()))
    } else {
        None
    }
}

/// A model fails when no tags are declared for it.
pub fn missing_model_tags(model: &Node, config: &Config) -> (r: Result<(), ModelFailure>)
    ensures
        failure_of(r) == missing_model_tags_rule(model@, config@),
{
    if !config.is_selected(Selector::MissingModelTags) {
        return Ok(());
    }
    match &model.tags {
        Some(_) => Ok(()),
        None => {
            let none: Vec<String> = Vec::new();
            assert(none.deep_view() =~= Seq::empty());
            Err(ModelFailure::TagsMissing(none))
        },
    }
}

pub open spec fn missing_primary_key_rule(node: NodeView, config: ConfigView) -> Option<
    ModelFailureView,
> {
    if config.selected(Selector::MissingPrimaryKey) && (match node.primary_key {
        Some(key) => key.len() == 0,
        None => true,
    }) {
        Some(ModelFailureView::MissingPrimaryKey)
    } else {
        None
    }
}

/// A model fails when its primary key is absent or empty.
pub fn missing_primary_key(model: &Node, config: &Config) -> (r: Result<(), ModelFailure>)
    ensures
        failure_of(r) == missing_primary_key_rule(model@, config@),
{
    if !config.is_selected(Selector::MissingPrimaryKey) {
        return Ok(());
    }
    let missing = match &model.primary_key {
        Some(key) => key.len() == 0,
        None => true,
    };
    if missing {
        Err(ModelFailure::MissingPrimaryKey)
    } else {
        Ok(())
    }
}

pub open spec fn public_model_without_contract_rule(node: NodeView, config: ConfigView) -> Option<
    ModelFailureView,
> {
    if config.selected(Selector::PublicModelsWithoutContract) && node.access == Some(
        Access::Public,
    ) && !node.contract_enforced {
        Some(ModelFailureView::PublicModelWithoutContract)
    } else {
        None
    }
}

pub fn is_public_model(model: &Node) -> (r: bool)
    ensures
        r == (model@.access == Some(Access::Public)),
{
    match model.access {
        Some(Access::Public) => true,
        _ => false,
    }
}

/// A model fails when it is public and no contract is enforced for it.
pub fn public_model_without_contract(model: &Node, config: &Config) -> (r: Result<
    (),
    ModelFailure,
>)
    ensures
        failure_of(r) == public_model_without_contract_rule(model@, config@),
{
    if !config.is_selected(Selector::PublicModelsWithoutContract) {
        return Ok(());
    }
    if is_public_model(model) && !model.contract_enforced {
        Err(ModelFailure::PublicModelWithoutContract)
    } else {
        Ok(())
    }
}

/// How many models consume `model_id` directly.
pub open spec fn fanout(g: GraphView, model_id: Seq<char>) -> nat {
    g.children(model_id).filter(with_prefix("model."@)).len()
}

pub open spec fn model_fanout_rule(g: GraphView, model_id: Seq<char>, config: ConfigView) -> Option<
    ModelFailureView,
> {
    if config.selected(Selector::ModelFanout) && fanout(g, model_id)
        > config.model_fanout_threshold {
        Some(ModelFailureView::ModelFanout(fanout(g, model_id)))
    } else {
        None
    }
}

/// A model fails when more models consume it directly than the threshold
/// allows; the failure carries their number.
pub fn model_fanout(graph: &DbtGraph, model_id: &str, config: &Config) -> (r: Result<
    (),
    ModelFailure,
>)
    ensures
        failure_of(r) == model_fanout_rule(graph@, model_id@, config@),
{
    if !config.is_selected(Selector::ModelFanout) {
        return Ok(());
    }
    let children = graph.children(model_id);
    let downstream_models = count_prefixed(&children, "model.");
    if downstream_models > config.model_fanout_threshold {
        Err(ModelFailure::ModelFanout(downstream_models))
    } else {
        Ok(())
    }
}

pub open spec fn dead_model_rule(g: GraphView, node: NodeView, config: ConfigView) -> Option<
    ModelFailureView,
> {
    if config.selected(Selector::DeadModel) && g.children(node.unique_id).filter(
        not_a_test(),
    ).len() == 0 {
        Some(ModelFailureView::DeadModel)
    } else {
        None
    }
}

/// A model is dead when nothing but tests consumes it.
pub fn dead_model(model: &Node, graph: &DbtGraph, config: &Config) -> (r: Result<
    (),
    ModelFailure,
>)
    ensures
        failure_of(r) == dead_model_rule(graph@, model@, config@),
{
    if !config.is_selected(Selector::DeadModel) {
        return Ok(());
    }
    let children = graph.children(model.unique_id.as_str());
    if count_not_tests(&children) == 0 {
        Err(ModelFailure::DeadModel)
    } else {
        Ok(())
    }
}

/// Whether another direct dependency is reached from `q`.
pub open spec fn is_rejoined(g: GraphView, deps: Seq<Seq<char>>, q: Seq<char>) -> bool {
    exists|k: int| 0 <= k < deps.len() && #[trigger] deps[k] != q && g.reaches(q, deps[k])
}

/// The first `n` direct dependencies from which another one is reached,
/// each once, as they are found.
pub open spec fn rejoined_among(g: GraphView, deps: Seq<Seq<char>>, n: int) -> Seq<Seq<char>>
    decreases n,
{
    if n <= 0 {
        Seq::empty()
    } else {
        let before = rejoined_among(g, deps, n - 1);
        if is_rejoined(g, deps, deps[n - 1]) && !before.contains(deps[n - 1]) {
            before.push(deps[n - 1])
        } else {
            before
        }
    }
}

/// The direct dependencies from which another one is reached, each once,
/// in ascending order of their ids.
pub open spec fn rejoined(g: GraphView, deps: Seq<Seq<char>>) -> Seq<Seq<char>> {
    arranged(rejoined_among(g, deps, deps.len() as int), text_order(false))
}

/// Whether another direct dependency is reached from a dependency.
pub open spec fn reaching(g: GraphView, deps: Seq<Seq<char>>) -> spec_fn(Seq<char>) -> bool {
    |q: Seq<char>| is_rejoined(g, deps, q)
}

proof fn lemma_rejoined_are_picked(g: GraphView, deps: Seq<Seq<char>>, n: int)
    ensures
        rejoined_among(g, deps, n) == picked_once(deps, reaching(g, deps), n),
    decreases n,
{
    if n > 0 {
        lemma_rejoined_are_picked(g, deps, n - 1);
    }
}

/// What the rule lists: exactly the direct dependencies from which another
/// one is reached, without duplicates, each before all that follow it in
/// the order of texts.
pub proof fn lemma_rejoined_list(g: GraphView, deps: Seq<Seq<char>>)
    ensures
        rejoined(g, deps).no_duplicates(),
        strictly_ascending(rejoined(g, deps), text_order(false)),
        forall|x: Seq<char>|
            #[trigger] rejoined(g, deps).contains(x) <==> deps.contains(x) && reaching(
                g,
                deps,
            )(x),
{
    let n = deps.len() as int;
    let keep = reaching(g, deps);
    let found = picked_once(deps, keep, n);
    lemma_rejoined_are_picked(g, deps, n);
    lemma_picked_once(deps, keep, n);
    lemma_arranged_texts(found, false);
    assert forall|x: Seq<char>| #[trigger] rejoined(g, deps).contains(x) <==> deps.contains(x)
        && keep(x) by {
        assert(rejoined(g, deps).contains(x) <==> found.contains(x));
        if among(deps, n, x) {
            let i = choose|i: int| 0 <= i < n && i < deps.len() && #[trigger] deps[i] == x;
            assert(deps.contains(x));
        }
        if deps.contains(x) {
            let i = choose|i: int| 0 <= i < deps.len() && deps[i] == x;
            assert(among(deps, n, x));
        }
    }
}

pub open spec fn rejoining_rule(g: GraphView, node: NodeView, config: ConfigView) -> Option<
    ModelFailureView,
> {
    if config.selected(Selector::RejoiningOfUpstreamConcepts) && rejoined(g, node.depends_on).len()
        > 0 {
        Some(ModelFailureView::RejoiningOfUpstreamConcepts(rejoined(g, node.depends_on)))
    } else {
        None
    }
}

fn reaches_another(graph: &DbtGraph, deps: &Vec<String>, q: &String) -> (r: bool)
    ensures
        r == is_rejoined(graph@, deps.deep_view(), q@),
{
    let ghost all = deps.deep_view();
    let mut k: usize = 0;
    while k < deps.len()
        invariant
            k <= deps.len(),
            all == deps.deep_view(),
            forall|j: int| 0 <= j < k ==> !(#[trigger] all[j] != q@ && graph@.reaches(q@, all[j])),
        decreases deps.len() - k,
    {
        if deps[k] != *q && graph.reaches(q.as_str(), deps[k].as_str()) {
            assert(all[k as int] != q@ && graph@.reaches(q@, all[k as int]));
            return true;
        }
        k = k + 1;
    }
    false
}

/// A model fails when one of its direct dependencies reaches another one
/// along any path of the graph; the failure lists those dependencies in
/// ascending order, each once.
pub fn rejoining_of_upstream_concepts(graph: &DbtGraph, model: &Node, config: &Config) -> (r:
    Result<(), ModelFailure>)
    ensures
        failure_of(r) == rejoining_rule(graph@, model@, config@),
{
    if !config.is_selected(Selector::RejoiningOfUpstreamConcepts) {
        return Ok(());
    }
    let deps = &model.depends_on;
    let ghost all = deps.deep_view();
    let mut rejoined: Vec<String> = Vec::new();
    let mut i: usize = 0;
    while i < deps.len()
        invariant
            i <= deps.len(),
            all == deps.deep_view(),
            rejoined.deep_view() == rejoined_among(graph@, all, i as int),
        decreases deps.len() - i,
    {
        assert(all[i as int] == deps@[i as int]@);
        if reaches_another(graph, deps, &deps[i]) && !has_text(&rejoined, &deps[i]) {
            let ghost before = rejoined.deep_view();
            rejoined.push(deps[i].clone());
            assert(rejoined.deep_view() =~= before.push(all[i as int]));
        }
        i = i + 1;
    }
    let listed = sort_texts(&rejoined, false);
    if listed.len() == 0 {
        Ok(())
    } else {
        Err(ModelFailure::RejoiningOfUpstreamConcepts(listed))
    }
}

/// The name of the test that the consumer `child` is, if it is one.
pub open spec fn test_name_of(m: ManifestView, child: Seq<char>) -> Option<Seq<char>> {
    if "test."@.is_prefix_of(child) {
        match m.node(child) {
            Some(n) => if n.kind == NodeKind::Test {
                n.test_name
            } else {
                None
            },
            None => None,
        }
    } else {
        None
    }
}

/// Whether one of the consumers of `model_id` is one of the required tests.
pub open spec fn has_required_test(
    m: ManifestView,
    model_id: Seq<char>,
    required: Seq<Seq<char>>,
) -> bool {
    exists|j: int|
        0 <= j < m.children_of(model_id).len() && (test_name_of(
            m,
            #[trigger] m.children_of(model_id)[j],
        ) matches Some(t) && required.contains(t))
}

pub open spec fn missing_required_tests_rule(m: ManifestView, node: NodeView, config: ConfigView) -> Option<
    ModelFailureView,
> {
    if config.selected(Selector::MissingRequiredTests) && config.required_tests.len() > 0
        && !has_required_test(m, node.unique_id, config.required_tests) {
        Some(ModelFailureView::MissingRequiredTests(config.required_tests))
    } else {
        None
    }
}

fn lookup_test_name(manifest: &Manifest, child: &String) -> (r: Option<String>)
    ensures
        r.deep_view() == test_name_of(manifest@, child@),
{
    if !starts_with(child.as_str(), "test.") {
        return None;
    }
    match manifest.node(child) {
        Some(n) => match n.kind {
            NodeKind::Test => clone_opt_text(&n.test_name),
            _ => None,
        },
        None => None,
    }
}

/// A model fails when tests are required and none of the tests that
/// consume it is one of them; the failure lists the required tests.
pub fn missing_required_tests(manifest: &Manifest, model: &Node, config: &Config) -> (r: Result<
    (),
    ModelFailure,
>)
    ensures
        failure_of(r) == missing_required_tests_rule(manifest@, model@, config@),
{
    if !config.is_selected(Selector::MissingRequiredTests) || config.required_tests.len() == 0 {
        return Ok(());
    }
    let ghost kids = manifest@.children_of(model@.unique_id);
    let ghost required = config@.required_tests;
    let mut found = false;
    match manifest.children_of(&model.unique_id) {
        Some(children) => {
            let mut j: usize = 0;
            while j < children.len() && !found
                invariant
                    j <= children.len(),
                    kids == children.deep_view(),
                    required == config@.required_tests,
                    !found ==> forall|k: int|
                        0 <= k < j ==> !(test_name_of(manifest@, #[trigger] kids[k]) matches Some(
                            t,
                        ) && required.contains(t)),
                    found ==> exists|k: int|
                        0 <= k < kids.len() && (test_name_of(
                            manifest@,
                            #[trigger] kids[k],
                        ) matches Some(t) && required.contains(t)),
                decreases children.len() - j,
            {
                assert(kids[j as int] == children@[j as int]@);
                match lookup_test_name(manifest, &children[j]) {
                    Some(name) => {
                        if has_text(&config.required_tests, &name) {
                            found = true;
                        }
                    },
                    None => {},
                }
                j = j + 1;
            }
        },
        None => {},
    }
    if found {
        Ok(())
    } else {
        Err(ModelFailure::MissingRequiredTests(copy_texts(&config.required_tests)))
    }
}

/// Whether a backing file is expected for the node but none is recorded.
pub open spec fn lacks_properties_file(node: NodeView) -> bool {
    node.is_column_provider() && node.patch_path is None
}

/// The rule on missing backing files. Where it may be fixed, a model for
/// which a file was generated takes that file; any other node fails.
pub open spec fn missing_properties_file_rule(
    node: NodeView,
    config: ConfigView,
    generated: Seq<GeneratedFileView>,
) -> RuleOutcome {
    if !config.selected(Selector::MissingPropertiesFile) || !lacks_properties_file(node) {
        RuleOutcome::pass()
    } else if config.can_fix(Selector::MissingPropertiesFile) && node.kind == NodeKind::Model
        && generated_path(generated, node.unique_id) is Some {
        RuleOutcome::fix(
            ModelChangeView::GeneratePropertiesFile {
                model_id: node.unique_id,
                model_name: node.name,
                patch_path: generated_path(generated, node.unique_id),
            },
        )
    } else {
        RuleOutcome::fail(ModelFailureView::MissingPropertiesFile)
    }
}

pub fn missing_properties_file(node: &Node, config: &Config, generated: &Vec<GeneratedFile>) -> (r:
    Result<Option<ModelChange>, ModelFailure>)
    ensures
        outcome_of(r) == missing_properties_file_rule(node@, config@, generated.deep_view()),
{
    if !config.is_selected(Selector::MissingPropertiesFile) {
        return Ok(None);
    }
    let missing = node.is_column_provider() && node.patch_path.is_none();
    if !missing {
        return Ok(None);
    }
    if config.is_fixable(Selector::MissingPropertiesFile) {
        match node.kind {
            NodeKind::Model => {
                match find_generated(generated, &node.unique_id) {
                    Some(path) => {
                        return Ok(
                            Some(
                                ModelChange::GeneratePropertiesFile {
                                    model_id: node.unique_id.clone(),
                                    model_name: node.name.clone(),
                                    patch_path: Some(path),
                                },
                            ),
                        );
                    },
                    None => {},
                }
            },
            _ => {},
        }
    }
    Err(ModelFailure::MissingPropertiesFile)
}

/// Whether the rule on model descriptions finds the description missing.
pub open spec fn model_description_missing(node: NodeView, config: ConfigView) -> bool {
    config.selected(Selector::MissingModelDescriptions) && description_missing(
        node.description,
        config.invalid_descriptions,
    )
}

/// The rule on model descriptions: a missing description fails, or, where
/// the rule may be fixed, is replaced by the placeholder.
pub open spec fn missing_model_description_rule(node: NodeView, config: ConfigView) -> RuleOutcome {
    if !model_description_missing(node, config) {
        RuleOutcome::pass()
    } else if config.can_fix(Selector::MissingModelDescriptions) {
        RuleOutcome::fix(
            ModelChangeView::ChangePropertiesFile {
                model_id: node.unique_id,
                model_name: name_from_id(node.unique_id),
                patch_path: node.patch_path,
                property: None,
            },
        )
    } else {
        RuleOutcome::fail(ModelFailureView::DescriptionMissing)
    }
}

/// The working copy after the rule on model descriptions.
pub open spec fn described(node: NodeView, config: ConfigView) -> NodeView {
    if model_description_missing(node, config) && config.can_fix(
        Selector::MissingModelDescriptions,
    ) {
        NodeView { description: Some(placeholder_description()), ..node }
    } else {
        node
    }
}

pub fn missing_model_description(model: &mut Node, config: &Config) -> (r: Result<
    Option<ModelChange>,
    ModelFailure,
>)
    ensures
        outcome_of(r) == missing_model_description_rule(old(model)@, config@),
        final(model)@ == described(old(model)@, config@),
{
    if !config.is_selected(Selector::MissingModelDescriptions) {
        return Ok(None);
    }
    if !is_description_missing(&model.description, &config.invalid_descriptions) {
        return Ok(None);
    }
    if config.is_fixable(Selector::MissingModelDescriptions) {
        model.description = Some("Auto-generated description".to_owned());
        let model_id = model.unique_id.clone();
        let model_name = last_segment(model_id.as_str(), '.');
        let patch_path = clone_opt_text(&model.patch_path);
        Ok(
            Some(
                ModelChange::ChangePropertiesFile {
                    model_id,
                    model_name,
                    patch_path,
                    property: None,
                },
            ),
        )
    } else {
        Err(ModelFailure::DescriptionMissing)
    }
}

/// Where the backing file belongs: beside the file that defines the node,
/// under its own file name.
pub open spec fn sibling_path(patch_path: Seq<char>, original_file_path: Seq<char>) -> Seq<char> {
    join_path(dir_of(original_file_path), file_name_of(patch_path))
}

/// The rule on the place of the backing file: it fails when the file lies
/// in another directory than the file that defines the node, or, where the
/// rule may be fixed and the file has a name, asks for the file to move.
pub open spec fn separate_file_rule(node: NodeView, config: ConfigView) -> RuleOutcome {
    if !config.selected(Selector::ModelsSeparateFromPropertiesFile) || !node.is_column_provider() {
        RuleOutcome::pass()
    } else {
        match node.patch_path {
            None => RuleOutcome::pass(),
            Some(patch) => if dir_of(patch) == dir_of(node.original_file_path) {
                RuleOutcome::pass()
            } else if config.can_fix(Selector::ModelsSeparateFromPropertiesFile) && file_name_of(
                patch,
            ).len() > 0 {
                RuleOutcome::fix(
                    ModelChangeView::MovePropertiesFile {
                        model_id: node.unique_id,
                        model_name: name_from_id(node.unique_id),
                        patch_path: Some(patch),
                        new_path: sibling_path(patch, node.original_file_path),
                    },
                )
            } else {
                RuleOutcome::fail(
                    ModelFailureView::ModelSeparateFromPropertiesFile {
                        patch_path: patch,
                        original_file_path: node.original_file_path,
                    },
                )
            },
        }
    }
}

pub fn model_separate_from_properties_file(node: &Node, config: &Config) -> (r: Result<
    Option<ModelChange>,
    ModelFailure,
>)
    ensures
        outcome_of(r) == separate_file_rule(node@, config@),
{
    if !config.is_selected(Selector::ModelsSeparateFromPropertiesFile) {
        return Ok(None);
    }
    if !node.is_column_provider() {
        return Ok(None);
    }
    let patch = match &node.patch_path {
        Some(patch) => patch,
        None => {
            return Ok(None);
        },
    };
    if same_dir(patch.as_str(), node.original_file_path.as_str()) {
        return Ok(None);
    }
    let file_name = path_file_name(patch.as_str());
    if config.is_fixable(Selector::ModelsSeparateFromPropertiesFile) && file_name.as_str().unicode_len()
        > 0 {
        let parent = path_dir(node.original_file_path.as_str());
        let new_path = path_join(parent.as_str(), file_name.as_str());
        let model_id = node.unique_id.clone();
        let model_name = last_segment(model_id.as_str(), '.');
        Ok(
            Some(
                ModelChange::MovePropertiesFile {
                    model_id,
                    model_name,
                    patch_path: Some(patch.clone()),
                    new_path,
                },
            ),
        )
    } else {
        Err(
            ModelFailure::ModelSeparateFromPropertiesFile {
                patch_path: patch.clone(),
                original_file_path: node.original_file_path.clone(),
            },
        )
    }
}

/// The layer that a model belongs to, judged by where its file lies.
pub open spec fn layer_of(path: Seq<char>) -> Seq<char> {
    if "models/staging/"@.is_prefix_of(path) {
        "staging"@
    } else if "models/marts/"@.is_prefix_of(path) {
        "mart"@
    } else if "models/intermediate/"@.is_prefix_of(path) {
        "intermediate"@
    } else {
        "other"@
    }
}

pub fn model_type(model: &Node) -> (r: &'static str)
    ensures
        r@ == layer_of(model@.original_file_path),
{
    let path = model.original_file_path.as_str();
    if starts_with(path, "models/staging/") {
        "staging"
    } else if starts_with(path, "models/marts/") {
        "mart"
    } else if starts_with(path, "models/intermediate/") {
        "intermediate"
    } else {
        "other"
    }
}

/// The working copy with the backing file that was generated for it.
pub open spec fn with_generated_file(node: NodeView, outcome: RuleOutcome) -> NodeView {
    match outcome.change {
        Some(ModelChangeView::GeneratePropertiesFile { patch_path: Some(path), .. }) => NodeView {
            patch_path: Some(path),
            ..node
        },
        _ => node,
    }
}

pub open spec fn changed_names(sets: Seq<ColumnChangeSetView>) -> Seq<Seq<char>> {
    Seq::new(sets.len(), |i: int| sets[i].column_name)
}

/// The column changes of a model after the result of one more column: a
/// column with changes gets an entry unless its name has one.
pub open spec fn note_column(sets: Seq<ColumnChangeSetView>, result: ColumnResultView) -> Seq<
    ColumnChangeSetView,
> {
    if result.changes.len() == 0 || changed_names(sets).contains(result.column_name) {
        sets
    } else {
        sets.push(
            ColumnChangeSetView { column_name: result.column_name, changes: result.changes },
        )
    }
}

/// The column changes that the results of the columns amount to.
pub open spec fn noted_columns(results: Seq<ColumnResultView>) -> Seq<ColumnChangeSetView>
    decreases results.len(),
{
    if results.len() == 0 {
        Seq::empty()
    } else {
        note_column(noted_columns(results.drop_last()), results.last())
    }
}

/// The working copy of a model once its backing file and its description
/// are settled.
pub open spec fn settled(
    generated: Seq<GeneratedFileView>,
    loaded: NodeView,
    config: ConfigView,
) -> NodeView {
    described(
        with_generated_file(loaded, missing_properties_file_rule(loaded, config, generated)),
        config,
    )
}

/// The failures of the two rules that run first, on the backing file and
/// on the description.
pub open spec fn opening_failures(
    generated: Seq<GeneratedFileView>,
    loaded: NodeView,
    config: ConfigView,
) -> Seq<ModelFailureView> {
    optional(missing_properties_file_rule(loaded, config, generated).failure) + optional(
        missing_model_description_rule(
            with_generated_file(
                loaded,
                missing_properties_file_rule(loaded, config, generated),
            ),
            config,
        ).failure,
    )
}

/// The failures of the rules on what the model is and how it is joined,
/// in the order in which they run.
pub open spec fn structural_failures(
    m: ManifestView,
    g: GraphView,
    working: NodeView,
    model_id: Seq<char>,
    config: ConfigView,
) -> Seq<ModelFailureView> {
    optional(missing_model_tags_rule(working, config)) + optional(
        missing_required_tests_rule(m, working, config),
    ) + optional(missing_primary_key_rule(working, config)) + optional(
        public_model_without_contract_rule(working, config),
    ) + optional(direct_join_to_source_rule(working, config)) + optional(
        model_fanout_rule(g, model_id, config),
    ) + optional(root_model_rule(working, config)) + optional(
        multiple_sources_joined_rule(working, config),
    ) + optional(rejoining_rule(g, working, config)) + optional(
        dead_model_rule(g, working, config),
    )
}

/// The failures of a model, in the order in which the rules run.
pub open spec fn model_failures(
    m: ManifestView,
    g: GraphView,
    generated: Seq<GeneratedFileView>,
    loaded: NodeView,
    config: ConfigView,
) -> Seq<ModelFailureView> {
    opening_failures(generated, loaded, config) + structural_failures(
        m,
        g,
        settled(generated, loaded, config),
        loaded.unique_id,
        config,
    ) + optional(separate_file_rule(loaded, config).failure)
}

/// The working copy of a model after all rules ran.
pub open spec fn fixed_model(
    m: ManifestView,
    generated: Seq<GeneratedFileView>,
    finalized: Seq<ModelChangesView>,
    loaded: NodeView,
    config: ConfigView,
) -> NodeView {
    let filed = with_generated_file(
        loaded,
        missing_properties_file_rule(loaded, config, generated),
    );
    let working = described(filed, config);
    NodeView { columns: fixed_columns(m, finalized, loaded, working, config), ..working }
}

/// The property payload of a model: what its working copy changed, when
/// fixing is on and a rule asked for a change of its properties.
pub open spec fn property_payload(
    m: ManifestView,
    generated: Seq<GeneratedFileView>,
    finalized: Seq<ModelChangesView>,
    loaded: NodeView,
    config: ConfigView,
) -> Option<ModelChangeView> {
    let filed = with_generated_file(
        loaded,
        missing_properties_file_rule(loaded, config, generated),
    );
    let working = described(filed, config);
    let columns = column_results(m, finalized, loaded, working, config);
    let fixed = fixed_model(m, generated, finalized, loaded, config);
    if config.fix && (missing_model_description_rule(filed, config).change is Some
        || noted_columns(columns).len() > 0) && model_difference(loaded, fixed) is Some {
        Some(
            ModelChangeView::ChangePropertiesFile {
                model_id: loaded.unique_id,
                model_name: name_from_id(loaded.unique_id),
                patch_path: fixed.patch_path,
                property: model_difference(loaded, fixed),
            },
        )
    } else {
        None
    }
}

/// The changes to the model itself, in the order in which they are to be
/// applied: the generated file, the move of the backing file, the payload.
pub open spec fn model_level_changes(
    m: ManifestView,
    generated: Seq<GeneratedFileView>,
    finalized: Seq<ModelChangesView>,
    loaded: NodeView,
    config: ConfigView,
) -> Seq<ModelChangeView> {
    optional(missing_properties_file_rule(loaded, config, generated).change) + optional(
        separate_file_rule(loaded, config).change,
    ) + optional(property_payload(m, generated, finalized, loaded, config))
}

/// The result of evaluating the model `loaded`.
pub open spec fn evaluated(
    m: ManifestView,
    g: GraphView,
    generated: Seq<GeneratedFileView>,
    finalized: Seq<ModelChangesView>,
    loaded: NodeView,
    config: ConfigView,
) -> ModelResultView {
    let filed = with_generated_file(
        loaded,
        missing_properties_file_rule(loaded, config, generated),
    );
    let working = described(filed, config);
    let columns = column_results(m, finalized, loaded, working, config);
    let changes = model_level_changes(m, generated, finalized, loaded, config);
    ModelResultView {
        model_id: loaded.unique_id,
        failures: model_failures(m, g, generated, loaded, config),
        column_results: columns,
        changes: if changes.len() == 0 && noted_columns(columns).len() == 0 {
            None
        } else {
            Some(
                ModelChangesView {
                    model_id: loaded.unique_id,
                    patch_path: working.patch_path,
                    changes,
                    column_changes: noted_columns(columns),
                },
            )
        },
    }
}

/// The result for the id `model_id`: that of the model it names, and an
/// empty result that passes when it names no model.
pub open spec fn model_result(
    m: ManifestView,
    g: GraphView,
    generated: Seq<GeneratedFileView>,
    model_id: Seq<char>,
    finalized: Seq<ModelChangesView>,
    config: ConfigView,
) -> ModelResultView {
    match m.node(model_id) {
        Some(n) => if n.kind == NodeKind::Model {
            evaluated(m, g, generated, finalized, n, config)
        } else {
            ModelResultView {
                model_id,
                failures: Seq::empty(),
                column_results: Seq::empty(),
                changes: None,
            }
        },
        None => ModelResultView {
            model_id,
            failures: Seq::empty(),
            column_results: Seq::empty(),
            changes: None,
        },
    }
}

fn has_changed_name(sets: &Vec<ColumnChangeSet>, name: &String) -> (r: bool)
    ensures
        r == changed_names(sets.deep_view()).contains(name@),
{
    let ghost names = changed_names(sets.deep_view());
    let mut i: usize = 0;
    while i < sets.len()
        invariant
            i <= sets.len(),
            names == changed_names(sets.deep_view()),
            forall|j: int| 0 <= j < i ==> #[trigger] names[j] != name@,
        decreases sets.len() - i,
    {
        if sets[i].column_name == *name {
            assert(names[i as int] == name@);
            return true;
        }
        i = i + 1;
    }
    false
}

fn collect_column_changes(results: &Vec<ColumnResult>) -> (r: Vec<ColumnChangeSet>)
    ensures
        r.deep_view() == noted_columns(results.deep_view()),
{
    let ghost all = results.deep_view();
    let mut sets: Vec<ColumnChangeSet> = Vec::new();
    let mut i: usize = 0;
    assert(all.take(0) =~= Seq::empty());
    while i < results.len()
        invariant
            i <= results.len(),
            all == results.deep_view(),
            sets.deep_view() == noted_columns(all.take(i as int)),
        decreases results.len() - i,
    {
        proof {
            assert(all.take(i + 1).drop_last() =~= all.take(i as int));
            assert(all.take(i + 1).last() == results@[i as int]@);
        }
        let result = &results[i];
        if result.changes.len() > 0 && !has_changed_name(&sets, &result.column_name) {
            let ghost before = sets.deep_view();
            let set = ColumnChangeSet {
                column_name: result.column_name.clone(),
                changes: clone_column_changes(&result.changes),
            };
            sets.push(set);
            assert(sets.deep_view() =~= before.push(set@));
        }
        i = i + 1;
    }
    assert(all.take(results.len() as int) =~= all);
    sets
}

fn empty_result(model_id: &str) -> (r: ModelResult)
    ensures
        r@ == (ModelResultView {
            model_id: model_id@,
            failures: Seq::empty(),
            column_results: Seq::empty(),
            changes: None,
        }),
{
    let r = ModelResult {
        model_id: model_id.to_owned(),
        failures: Vec::new(),
        column_results: Vec::new(),
        changes: None,
    };
    assert(r@.failures =~= Seq::empty());
    assert(r@.column_results =~= Seq::empty());
    r
}

/// Appends the failure of a rule, if it reports one.
fn note_failure(failures: &mut Vec<ModelFailure>, r: Result<(), ModelFailure>)
    ensures
        final(failures).deep_view() == old(failures).deep_view() + optional(failure_of(r)),
{
    let ghost before = failures.deep_view();
    match r {
        Ok(_) => {
            assert(before + Seq::<ModelFailureView>::empty() =~= before);
        },
        Err(f) => {
            failures.push(f);
            assert(failures.deep_view() =~= before + seq![f@]);
        },
    }
}

/// What the first two rules leave: the working copy, their failures, the
/// change for a generated file, and whether the description was replaced.
struct Opening {
    working: Node,
    failures: Vec<ModelFailure>,
    changes: Vec<ModelChange>,
    described: bool,
}

/// Runs the rules on the backing file and on the description.
fn open_model(loaded: &Node, config: &Config, generated: &Vec<GeneratedFile>) -> (r: Opening)
    ensures
        r.working@ == settled(generated.deep_view(), loaded@, config@),
        r.failures.deep_view() == opening_failures(generated.deep_view(), loaded@, config@),
        r.changes.deep_view() == optional(
            missing_properties_file_rule(loaded@, config@, generated.deep_view()).change,
        ),
        r.described == (missing_model_description_rule(
            with_generated_file(
                loaded@,
                missing_properties_file_rule(loaded@, config@, generated.deep_view()),
            ),
            config@,
        ).change is Some),
{
    let mut working = loaded.duplicate();
    let mut failures: Vec<ModelFailure> = Vec::new();
    let mut changes: Vec<ModelChange> = Vec::new();
    let mut described = false;
    assert(failures.deep_view() =~= Seq::empty());
    assert(changes.deep_view() =~= Seq::empty());
    let ghost file_rule = missing_properties_file_rule(loaded@, config@, generated.deep_view());
    match missing_properties_file(loaded, config, generated) {
        Ok(Some(change)) => {
            match &change {
                ModelChange::GeneratePropertiesFile { patch_path: Some(path), .. } => {
                    working.patch_path = Some(path.clone());
                },
                _ => {},
            }
            changes.push(change);
        },
        Ok(None) => {},
        Err(failure) => {
            failures.push(failure);
        },
    }
    let ghost filed = with_generated_file(loaded@, file_rule);
    assert(working@ == filed);
    assert(failures.deep_view() =~= optional(file_rule.failure));
    assert(changes.deep_view() =~= optional(file_rule.change));
    let ghost first = failures.deep_view();
    let ghost description_rule = missing_model_description_rule(filed, config@);
    match missing_model_description(&mut working, config) {
        Ok(Some(_)) => {
            described = true;
        },
        Ok(None) => {},
        Err(failure) => {
            failures.push(failure);
        },
    }
    assert(failures.deep_view() =~= first + optional(description_rule.failure));
    Opening { working, failures, changes, described }
}

/// Runs the rules on what the model is and how it is joined.
fn check_structure(
    manifest: &Manifest,
    graph: &DbtGraph,
    working: &Node,
    model_id: &str,
    config: &Config,
) -> (r: Vec<ModelFailure>)
    ensures
        r.deep_view() == structural_failures(manifest@, graph@, working@, model_id@, config@),
{
    let mut failures: Vec<ModelFailure> = Vec::new();
    assert(failures.deep_view() =~= Seq::empty());
    note_failure(&mut failures, missing_model_tags(working, config));
    assert(failures.deep_view() =~= optional(missing_model_tags_rule(working@, config@)));
    note_failure(&mut failures, missing_required_tests(manifest, working, config));
    note_failure(&mut failures, missing_primary_key(working, config));
    note_failure(&mut failures, public_model_without_contract(working, config));
    note_failure(&mut failures, direct_join_to_source(working, config));
    note_failure(&mut failures, model_fanout(graph, model_id, config));
    note_failure(&mut failures, root_model(working, config));
    note_failure(&mut failures, multiple_sources_joined(working, config));
    note_failure(&mut failures, rejoining_of_upstream_concepts(graph, working, config));
    note_failure(&mut failures, dead_model(working, graph, config));
    failures
}

/// Appends `more` to `list`.
fn append_failures(list: &mut Vec<ModelFailure>, more: Vec<ModelFailure>)
    ensures
        final(list).deep_view() == old(list).deep_view() + more.deep_view(),
{
    let ghost start = list.deep_view();
    let ghost extra = more.deep_view();
    let mut rest = more;
    list.append(&mut rest);
    assert(list.deep_view() =~= start + extra);
}

/// Evaluates one model: every rule runs on a working copy of the model,
/// fixes change that copy, and the result holds the failures, the results
/// of the columns and the changes. An id that names no model passes with
/// an empty result.
pub fn check_model(
    manifest: &Manifest,
    graph: &DbtGraph,
    generated: &Vec<GeneratedFile>,
    model_id: &str,
    prior_changes: &Vec<ModelChanges>,
    config: &Config,
) -> (r: ModelResult)
    ensures
        r@ == model_result(
            manifest@,
            graph@,
            generated.deep_view(),
            model_id@,
            prior_changes.deep_view(),
            config@,
        ),
{
    let loaded = match manifest.node(&model_id.to_owned()) {
        Some(n) => n,
        None => {
            return empty_result(model_id);
        },
    };
    match loaded.kind {
        NodeKind::Model => {},
        _ => {
            return empty_result(model_id);
        },
    }
    proof {
        crate::text::lemma_position(manifest@.node_ids(), model_id@);
        assert(loaded@.unique_id == model_id@);
    }
    evaluate(manifest, graph, generated, loaded, prior_changes, config)
}

/// Evaluates the model `loaded`.
pub fn evaluate(
    manifest: &Manifest,
    graph: &DbtGraph,
    generated: &Vec<GeneratedFile>,
    loaded: &Node,
    prior_changes: &Vec<ModelChanges>,
    config: &Config,
) -> (r: ModelResult)
    ensures
        r@ == evaluated(
            manifest@,
            graph@,
            generated.deep_view(),
            prior_changes.deep_view(),
            loaded@,
            config@,
        ),
{
    let ghost m = manifest@;
    let ghost g = graph@;
    let ghost made = generated.deep_view();
    let ghost finalized = prior_changes.deep_view();
    let ghost n = loaded@;
    let opening = open_model(loaded, config, generated);
    let mut working = opening.working;
    let mut failures = opening.failures;
    let mut model_level = opening.changes;
    let mut property_change_required = opening.described;
    let ghost w = settled(made, n, config@);
    let model_unique_id = working.unique_id.clone();
    let model_name = last_segment(model_unique_id.as_str(), '.');

    let structure = check_structure(manifest, graph, &working, loaded.unique_id.as_str(), config);
    append_failures(&mut failures, structure);
    let ghost f12 = failures.deep_view();

    let ghost move_rule = separate_file_rule(n, config@);
    let ghost c1 = model_level.deep_view();
    match model_separate_from_properties_file(loaded, config) {
        Ok(Some(change)) => {
            model_level.push(change);
            assert(model_level.deep_view() =~= c1 + optional(move_rule.change));
            assert(failures.deep_view() =~= f12 + optional(move_rule.failure));
        },
        Ok(None) => {
            assert(model_level.deep_view() =~= c1 + optional(move_rule.change));
            assert(failures.deep_view() =~= f12 + optional(move_rule.failure));
        },
        Err(failure) => {
            failures.push(failure);
            assert(model_level.deep_view() =~= c1 + optional(move_rule.change));
            assert(failures.deep_view() =~= f12 + optional(move_rule.failure));
        },
    }
    assert(failures.deep_view() == model_failures(m, g, made, n, config@));
    let ghost c2 = model_level.deep_view();

    let results = check_model_columns(manifest, loaded, &mut working, prior_changes, config);
    assert(working@ == fixed_model(m, made, finalized, n, config@));

    let column_changes = collect_column_changes(&results);
    if column_changes.len() > 0 {
        property_change_required = true;
    }
    let patch_path = clone_opt_text(&working.patch_path);
    let ghost payload = property_payload(m, made, finalized, n, config@);
    if config.fix && property_change_required {
        match model_property_from_manifest_differences(loaded, &working) {
            Some(property) => {
                let change = ModelChange::ChangePropertiesFile {
                    model_id: model_unique_id.clone(),
                    model_name: model_name.clone(),
                    patch_path: clone_opt_text(&patch_path),
                    property: Some(property),
                };
                model_level.push(change);
                assert(model_level.deep_view() =~= c2 + optional(payload));
            },
            None => {
                assert(model_level.deep_view() =~= c2 + optional(payload));
            },
        }
    } else {
        assert(model_level.deep_view() =~= c2 + optional(payload));
    }
    assert(model_level.deep_view() == model_level_changes(m, made, finalized, n, config@));

    let changes = if model_level.len() == 0 && column_changes.len() == 0 {
        None
    } else {
        Some(
            ModelChanges {
                model_id: model_unique_id.clone(),
                patch_path,
                changes: model_level,
                column_changes,
            },
        )
    };
    ModelResult { model_id: model_unique_id, failures, column_results: results, changes }
}

/// The failures of the two rules on joins with sources.
pub open spec fn is_join_failure(f: ModelFailureView) -> bool {
    f is DirectJoinToSource || f is MultipleSourcesJoined
}

/// Whether none of `failures` comes from the rules on joins with sources.
pub open spec fn free_of_joins(failures: Seq<ModelFailureView>) -> bool {
    forall|i: int| 0 <= i < failures.len() ==> !is_join_failure(#[trigger] failures[i])
}

proof fn lemma_free_concat(a: Seq<ModelFailureView>, b: Seq<ModelFailureView>)
    requires
        free_of_joins(a),
        free_of_joins(b),
    ensures
        free_of_joins(a + b),
{
    assert forall|i: int| 0 <= i < (a + b).len() implies !is_join_failure(
        #[trigger] (a + b)[i],
    ) by {
        if i < a.len() {
            assert((a + b)[i] == a[i]);
        } else {
            assert((a + b)[i] == b[i - a.len()]);
        }
    }
}

proof fn lemma_free_optional(o: Option<ModelFailureView>)
    requires
        o matches Some(f) ==> !is_join_failure(f),
    ensures
        free_of_joins(optional(o)),
{
}

proof fn lemma_no_source_deps(node: NodeView, config: ConfigView)
    requires
        node.depends_on.len() == 0,
    ensures
        direct_join_to_source_rule(node, config) is None,
        multiple_sources_joined_rule(node, config) is None,
{
    assert(source_deps(node) =~= Seq::empty()) by {
        reveal(Seq::filter);
    }
}

proof fn lemma_structure_without_dependencies(
    m: ManifestView,
    g: GraphView,
    working: NodeView,
    id: Seq<char>,
    config: ConfigView,
)
    requires
        working.depends_on.len() == 0,
    ensures
        free_of_joins(structural_failures(m, g, working, id, config)),
        config.selected(Selector::RootModels) ==> structural_failures(
            m,
            g,
            working,
            id,
            config,
        ).contains(ModelFailureView::RootModel),
{
    lemma_no_source_deps(working, config);
    let a2 = optional(missing_model_tags_rule(working, config));
    let a3 = optional(missing_required_tests_rule(m, working, config));
    let a4 = optional(missing_primary_key_rule(working, config));
    let a5 = optional(public_model_without_contract_rule(working, config));
    let a6 = optional(direct_join_to_source_rule(working, config));
    let a7 = optional(model_fanout_rule(g, id, config));
    let a8 = optional(root_model_rule(working, config));
    let a9 = optional(multiple_sources_joined_rule(working, config));
    let a10 = optional(rejoining_rule(g, working, config));
    let a11 = optional(dead_model_rule(g, working, config));
    lemma_free_optional(missing_model_tags_rule(working, config));
    lemma_free_optional(missing_required_tests_rule(m, working, config));
    lemma_free_optional(missing_primary_key_rule(working, config));
    lemma_free_optional(public_model_without_contract_rule(working, config));
    lemma_free_optional(direct_join_to_source_rule(working, config));
    lemma_free_optional(model_fanout_rule(g, id, config));
    lemma_free_optional(root_model_rule(working, config));
    lemma_free_optional(multiple_sources_joined_rule(working, config));
    lemma_free_optional(rejoining_rule(g, working, config));
    lemma_free_optional(dead_model_rule(g, working, config));
    let b3 = a2 + a3;
    lemma_free_concat(a2, a3);
    let b4 = b3 + a4;
    lemma_free_concat(b3, a4);
    let b5 = b4 + a5;
    lemma_free_concat(b4, a5);
    let b6 = b5 + a6;
    lemma_free_concat(b5, a6);
    let b7 = b6 + a7;
    lemma_free_concat(b6, a7);
    let b8 = b7 + a8;
    lemma_free_concat(b7, a8);
    let b9 = b8 + a9;
    lemma_free_concat(b8, a9);
    let b10 = b9 + a10;
    lemma_free_concat(b9, a10);
    let b11 = b10 + a11;
    lemma_free_concat(b10, a11);
    assert(structural_failures(m, g, working, id, config) == b11);
    if config.selected(Selector::RootModels) {
        assert(a8 =~= seq![ModelFailureView::RootModel]);
        assert(b8[b7.len() as int] == ModelFailureView::RootModel);
        assert(b9[b7.len() as int] == b8[b7.len() as int]);
        assert(b10[b7.len() as int] == b9[b7.len() as int]);
        assert(b11[b7.len() as int] == b10[b7.len() as int]);
    }
}

/// A model without dependencies fails the rule on root models whenever
/// that rule runs, and never fails the rules on joins with sources.
pub proof fn lemma_model_without_dependencies(
    m: ManifestView,
    g: GraphView,
    generated: Seq<GeneratedFileView>,
    loaded: NodeView,
    config: ConfigView,
)
    requires
        loaded.depends_on.len() == 0,
    ensures
        config.selected(Selector::RootModels) ==> model_failures(
            m,
            g,
            generated,
            loaded,
            config,
        ).contains(ModelFailureView::RootModel),
        direct_join_to_source_rule(loaded, config) is None,
        multiple_sources_joined_rule(loaded, config) is None,
        free_of_joins(model_failures(m, g, generated, loaded, config)),
{
    lemma_no_source_deps(loaded, config);
    let working = settled(generated, loaded, config);
    assert(working.depends_on == loaded.depends_on);
    let id = loaded.unique_id;
    lemma_structure_without_dependencies(m, g, working, id, config);
    let file = missing_properties_file_rule(loaded, config, generated);
    let filed = with_generated_file(loaded, file);
    let a0 = optional(file.failure);
    let a1 = optional(missing_model_description_rule(filed, config).failure);
    lemma_free_optional(file.failure);
    lemma_free_optional(missing_model_description_rule(filed, config).failure);
    lemma_free_concat(a0, a1);
    let opening = opening_failures(generated, loaded, config);
    assert(opening == a0 + a1);
    let structure = structural_failures(m, g, working, id, config);
    lemma_free_concat(opening, structure);
    let last = optional(separate_file_rule(loaded, config).failure);
    lemma_free_optional(separate_file_rule(loaded, config).failure);
    lemma_free_concat(opening + structure, last);
    let all = model_failures(m, g, generated, loaded, config);
    assert(all == opening + structure + last);
    if config.selected(Selector::RootModels) {
        let at = choose|at: int|
            0 <= at < structure.len() && structure[at] == ModelFailureView::RootModel;
        assert((opening + structure)[opening.len() + at] == structure[at]);
        assert(all[opening.len() + at] == ModelFailureView::RootModel);
    }
}

/// The order of results of models: by id.
pub open spec fn model_result_order() -> spec_fn(ModelResultView, ModelResultView) -> bool {
    |a: ModelResultView, b: ModelResultView| comes_before(a.model_id, b.model_id, false)
}

/// The order of results of models is an order.
pub proof fn lemma_model_result_order()
    ensures
        transitive(model_result_order()),
{
    let before = model_result_order();
    assert forall|a: ModelResultView| !#[trigger] before(a, a) by {
        lemma_not_before_itself(a.model_id, false);
    }
    assert forall|a: ModelResultView, b: ModelResultView, c: ModelResultView|
        #![trigger before(a, b), before(b, c)]
        before(a, b) && before(b, c) implies before(a, c) by {
        lemma_before_is_transitive(a.model_id, b.model_id, c.model_id, false);
    }
}

fn place_for_model_result(sorted: &Vec<ModelResult>, x: &ModelResult) -> (p: usize)
    ensures
        p == place_of(sorted.deep_view(), x@, model_result_order()),
        p <= sorted.len(),
{
    let ghost all = sorted.deep_view();
    let mut j: usize = 0;
    while j < sorted.len()
        invariant
            j <= sorted.len(),
            all == sorted.deep_view(),
            forall|k: int| 0 <= k < j ==> !model_result_order()(x@, #[trigger] all[k]),
        decreases sorted.len() - j,
    {
        assert(all[j as int] == sorted@[j as int]@);
        if text_comes_before(x.model_id.as_str(), sorted[j].model_id.as_str(), false) {
            proof {
                lemma_place_is(all, x@, model_result_order(), j as int);
            }
            return j;
        }
        j = j + 1;
    }
    proof {
        lemma_place_is(all, x@, model_result_order(), j as int);
    }
    j
}

/// The results of models in ascending order of their ids.
pub fn sort_model_results(results: &Vec<ModelResult>) -> (r: Vec<ModelResult>)
    ensures
        r.deep_view() == arranged(results.deep_view(), model_result_order()),
{
    let ghost all = results.deep_view();
    let mut out: Vec<ModelResult> = Vec::new();
    let mut i: usize = 0;
    assert(out.deep_view() =~= arranged(all.take(0), model_result_order()));
    while i < results.len()
        invariant
            i <= results.len(),
            all == results.deep_view(),
            out.deep_view() == arranged(all.take(i as int), model_result_order()),
        decreases results.len() - i,
    {
        let p = place_for_model_result(&out, &results[i]);
        let ghost before = out.deep_view();
        assert(all[i as int] == results@[i as int]@);
        out.insert(p, results[i].duplicate());
        assert(out.deep_view() =~= before.insert(p as int, all[i as int]));
        assert(all.take(i + 1).drop_last() =~= all.take(i as int));
        assert(all.take(i + 1).last() == all[i as int]);
        i = i + 1;
    }
    assert(all.take(results.len() as int) =~= all);
    out
}

} // verus!
