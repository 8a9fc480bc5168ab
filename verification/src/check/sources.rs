//! The rules on source tables.

use vstd::prelude::*;
use crate::sorting::lemma_before_is_transitive;
use crate::sorting::lemma_not_before_itself;
use crate::sorting::lemma_place_is;
use crate::sorting::transitive;
use crate::sorting::place_of;
use crate::sorting::arranged;
use crate::sorting::text_comes_before;
use crate::sorting::comes_before;
use crate::text::description_missing;
use crate::text::is_description_missing;
use crate::text::is_blank_or_marker;
use crate::text::text_is_blank_or_marker;
use crate::text::clone_opt_text;
use crate::text::first_some;
use crate::text::lemma_first_some_is;
use crate::lists::optional;
use crate::config::Config;
use crate::config::ConfigView;
use crate::config::Selector;
use crate::manifest::Manifest;
use crate::manifest::ManifestView;
use crate::manifest::Source;
use crate::manifest::SourceView;
use crate::change_descriptors::SourceChange;
use crate::change_descriptors::SourceChangeView;
use crate::change_descriptors::SourceChanges;
use crate::change_descriptors::SourceChangesView;
use crate::writeback::properties::source_property_from_manifest_differences;
use crate::writeback::properties::source_difference;
use crate::check::models::placeholder_description;

verus! {

/// Why a source table fails.
#[derive(Debug, Clone, PartialEq, Eq)]
pub enum SourceFailure {
    MissingDescription,
    /// The id of another table with the same name in the warehouse.
    DuplicateDefinition(String),
    UnusedSource,
    MissingFreshness,
    MissingSourceDescription,
    SourceTableColumnDescriptions,
    SourceFanout,
}

pub enum SourceFailureView {
    MissingDescription,
    DuplicateDefinition(Seq<char>),
    UnusedSource,
    MissingFreshness,
    MissingSourceDescription,
    SourceTableColumnDescriptions,
    SourceFanout,
}

impl View for SourceFailure {
    type V = SourceFailureView;

    open spec fn view(&self) -> SourceFailureView {
        match self {
            SourceFailure::MissingDescription => SourceFailureView::MissingDescription,
            SourceFailure::DuplicateDefinition(id) => SourceFailureView::DuplicateDefinition(id@),
            SourceFailure::UnusedSource => SourceFailureView::UnusedSource,
            SourceFailure::MissingFreshness => SourceFailureView::MissingFreshness,
            SourceFailure::MissingSourceDescription => SourceFailureView::MissingSourceDescription,
            SourceFailure::SourceTableColumnDescriptions => {
                SourceFailureView::SourceTableColumnDescriptions
            },
            SourceFailure::SourceFanout => SourceFailureView::SourceFanout,
        }
    }
}

impl DeepView for SourceFailure {
    type V = SourceFailureView;

    open spec fn deep_view(&self) -> SourceFailureView {
        self@
    }
}

impl SourceFailureView {
    /// The text that reports the failure.
    pub open spec fn text(self) -> Seq<char> {
        match self {
            SourceFailureView::MissingDescription => "MissingDescription"@,
            SourceFailureView::DuplicateDefinition(id) => "DuplicateDefinition:"@ + id,
            SourceFailureView::UnusedSource => "UnusedSource"@,
            SourceFailureView::MissingFreshness => "MissingFreshness"@,
            SourceFailureView::MissingSourceDescription => "MissingSourceDescription"@,
            SourceFailureView::SourceTableColumnDescriptions => "SourceTableColumnDescriptions"@,
            SourceFailureView::SourceFanout => "SourceFanout"@,
        }
    }
}

impl SourceFailure {
    pub fn to_string(&self) -> (r: String)
        ensures
            r@ == self@.text(),
    {
        match self {
            SourceFailure::MissingDescription => "MissingDescription".to_owned(),
            SourceFailure::DuplicateDefinition(id) => "DuplicateDefinition:".to_owned().concat(
                id.as_str(),
            ),
            SourceFailure::UnusedSource => "UnusedSource".to_owned(),
            SourceFailure::MissingFreshness => "MissingFreshness".to_owned(),
            SourceFailure::MissingSourceDescription => "MissingSourceDescription".to_owned(),
            SourceFailure::SourceTableColumnDescriptions => {
                "SourceTableColumnDescriptions".to_owned()
            },
            SourceFailure::SourceFanout => "SourceFanout".to_owned(),
        }
    }

    pub fn duplicate(&self) -> (r: SourceFailure)
        ensures
            r@ == self@,
    {
        match self {
            SourceFailure::MissingDescription => SourceFailure::MissingDescription,
            SourceFailure::DuplicateDefinition(id) => SourceFailure::DuplicateDefinition(
                id.clone(),
            ),
            SourceFailure::UnusedSource => SourceFailure::UnusedSource,
            SourceFailure::MissingFreshness => SourceFailure::MissingFreshness,
            SourceFailure::MissingSourceDescription => SourceFailure::MissingSourceDescription,
            SourceFailure::SourceTableColumnDescriptions => {
                SourceFailure::SourceTableColumnDescriptions
            },
            SourceFailure::SourceFanout => SourceFailure::SourceFanout,
        }
    }
}

/// The outcome of the rules for one source table.
#[derive(Debug, Clone, PartialEq, Eq)]
pub struct SourceResult {
    pub source_id: String,
    pub failures: Vec<SourceFailure>,
    pub changes: Option<SourceChanges>,
}

pub struct SourceResultView {
    pub source_id: Seq<char>,
    pub failures: Seq<SourceFailureView>,
    pub changes: Option<SourceChangesView>,
}

impl View for SourceResult {
    type V = SourceResultView;

    open spec fn view(&self) -> SourceResultView {
        SourceResultView {
            source_id: self.source_id@,
            failures: self.failures.deep_view(),
            changes: self.changes.deep_view(),
        }
    }
}

impl DeepView for SourceResult {
    type V = SourceResultView;

    open spec fn deep_view(&self) -> SourceResultView {
        self@
    }
}

impl SourceResultView {
    pub open spec fn is_pass(self) -> bool {
        self.failures.len() == 0
    }

    pub open spec fn failure_reasons(self) -> Seq<Seq<char>> {
        Seq::new(self.failures.len(), |i: int| self.failures[i].text())
    }

    /// The report on the source table: one line when it passes, else a
    /// heading and one indented line for each reason.
    pub open spec fn report(self) -> Seq<char> {
        if self.is_pass() {
            "SourceResult: Pass:"@ + self.source_id
        } else {
            "SourceResult: Fail:"@ + self.source_id + "\n"@ + crate::lists::indented(
                self.failure_reasons(),
                self.failure_reasons().len() as int,
            )
        }
    }
}

impl SourceResult {
    pub fn source_id(&self) -> (r: &str)
        ensures
            r@ == self@.source_id,
    {
        self.source_id.as_str()
    }

    pub fn is_pass(&self) -> (r: bool)
        ensures
            r == self@.is_pass(),
    {
        self.failures.len() == 0
    }

    pub fn is_failure(&self) -> (r: bool)
        ensures
            r == !self@.is_pass(),
    {
        !self.is_pass()
    }

    /// This result if it is a failure.
    pub fn as_failure(&self) -> (r: Option<&Self>)
        ensures
            r is Some <==> !self@.is_pass(),
            r matches Some(s) ==> *s == *self,
    {
        if self.is_failure() {
            Some(self)
        } else {
            None
        }
    }

    pub fn failure_reasons(&self) -> (r: Vec<String>)
        ensures
            r.deep_view() == self@.failure_reasons(),
    {
        let mut out: Vec<String> = Vec::new();
        let mut i: usize = 0;
        while i < self.failures.len()
            invariant
                i <= self.failures.len(),
                out@.len() == i,
                forall|j: int| 0 <= j < i ==> (#[trigger] out@[j])@ == self@.failures[j].text(),
            decreases self.failures.len() - i,
        {
            out.push(self.failures[i].to_string());
            i = i + 1;
        }
        assert(out.deep_view() =~= self@.failure_reasons());
        out
    }

    pub fn changes(&self) -> (r: Option<&SourceChanges>)
        ensures
            r.deep_view() == self@.changes,
    {
        self.changes.as_ref()
    }

    /// The report on the source table: one line when it passes, else a
    /// heading and one indented line for each reason.
    pub fn to_string(&self) -> (r: String)
        ensures
            r@ == self@.report(),
    {
        if self.is_pass() {
            "SourceResult: Pass:".to_owned().concat(self.source_id.as_str())
        } else {
            let reasons = self.failure_reasons();
            "SourceResult: Fail:".to_owned().concat(self.source_id.as_str()).concat("\n").concat(
                crate::lists::indent_lines(&reasons).as_str(),
            )
        }
    }

    pub fn duplicate(&self) -> (r: SourceResult)
        ensures
            r@ == self@,
    {
        let mut failures: Vec<SourceFailure> = Vec::new();
        let mut i: usize = 0;
        while i < self.failures.len()
            invariant
                i <= self.failures.len(),
                failures@.len() == i,
                forall|j: int| 0 <= j < i ==> (#[trigger] failures@[j])@ == self.failures@[j]@,
            decreases self.failures.len() - i,
        {
            failures.push(self.failures[i].duplicate());
            i = i + 1;
        }
        assert(failures.deep_view() =~= self.failures.deep_view());
        SourceResult {
            source_id: self.source_id.clone(),
            failures,
            changes: match &self.changes {
                Some(c) => Some(c.duplicate()),
                None => None,
            },
        }
    }
}

/// What a rule on sources without a fix reports.
pub open spec fn source_failure_of(r: Result<(), SourceFailure>) -> Option<SourceFailureView> {
    match r {
        Ok(_) => None,
        Err(f) => Some(f@),
    }
}

/// Whether the rule on table descriptions finds the description missing.
pub open spec fn table_description_missing(source: SourceView, config: ConfigView) -> bool {
    config.selected(Selector::MissingSourceTableDescriptions) && description_missing(
        source.description,
        config.invalid_descriptions,
    )
}

/// Whether the rule on table descriptions replaces the description.
pub open spec fn table_description_fixed(source: SourceView, config: ConfigView) -> bool {
    table_description_missing(source, config) && config.can_fix(
        Selector::MissingSourceTableDescriptions,
    )
}

pub open spec fn table_description_failure(source: SourceView, config: ConfigView) -> Option<
    SourceFailureView,
> {
    if table_description_missing(source, config) && !config.can_fix(
        Selector::MissingSourceTableDescriptions,
    ) {
        Some(SourceFailureView::MissingDescription)
    } else {
        None
    }
}

/// The working copy after the rule on table descriptions.
pub open spec fn described_table(source: SourceView, config: ConfigView) -> SourceView {
    if table_description_fixed(source, config) {
        SourceView { description: Some(placeholder_description()), ..source }
    } else {
        source
    }
}

/// The change that stands for a fixed table description; its payload is
/// filled in later.
pub open spec fn table_change(source: SourceView, property: Option<
    crate::writeback::properties::SourcePropertyView,
>) -> SourceChangeView {
    SourceChangeView::ChangePropertiesFile {
        source_id: source.unique_id,
        source_name: source.source_name,
        table_name: source.name,
        patch_path: source.patch_path,
        property,
    }
}

/// The rule on table descriptions: a missing description fails, or, where
/// the rule may be fixed, is replaced by the placeholder.
pub fn missing_source_table_description(source: &mut Source, config: &Config) -> (r: Result<
    Option<SourceChange>,
    SourceFailure,
>)
    ensures
        final(source)@ == described_table(old(source)@, config@),
        match r {
            Ok(None) => !table_description_missing(old(source)@, config@),
            Ok(Some(c)) => table_description_fixed(old(source)@, config@) && c@ == table_change(
                old(source)@,
                None,
            ),
            Err(f) => table_description_failure(old(source)@, config@) == Some(f@),
        },
{
    if !config.is_selected(Selector::MissingSourceTableDescriptions) {
        return Ok(None);
    }
    if !is_description_missing(&source.description, &config.invalid_descriptions) {
        return Ok(None);
    }
    if config.is_fixable(Selector::MissingSourceTableDescriptions) {
        source.description = Some("Auto-generated description".to_owned());
        Ok(
            Some(
                SourceChange::ChangePropertiesFile {
                    source_id: source.unique_id.clone(),
                    source_name: source.source_name.clone(),
                    table_name: source.name.clone(),
                    patch_path: clone_opt_text(&source.patch_path),
                    property: None,
                },
            ),
        )
    } else {
        Err(SourceFailure::MissingDescription)
    }
}

/// Whether a column of the table lacks a description.
pub open spec fn has_undescribed_column(source: SourceView, config: ConfigView) -> bool {
    exists|i: int|
        0 <= i < source.columns.len() && description_missing(
            (#[trigger] source.columns[i]).description,
            config.invalid_descriptions,
        )
}

pub open spec fn column_descriptions_rule(source: SourceView, config: ConfigView) -> Option<
    SourceFailureView,
> {
    if config.selected(Selector::MissingSourceColumnDescriptions) && has_undescribed_column(
        source,
        config,
    ) {
        Some(SourceFailureView::SourceTableColumnDescriptions)
    } else {
        None
    }
}

/// A source table fails when one of its columns lacks a description.
#[verifier::loop_isolation(false)]
pub fn missing_source_column_descriptions(source: &mut Source, config: &Config) -> (r: Result<
    (),
    SourceFailure,
>)
    ensures
        final(source)@ == old(source)@,
        source_failure_of(r) == column_descriptions_rule(old(source)@, config@),
{
    if !config.is_selected(Selector::MissingSourceColumnDescriptions) {
        return Ok(());
    }
    let ghost columns = source@.columns;
    let mut i: usize = 0;
    while i < source.columns.len()
        invariant
            i <= source.columns.len(),
            *source == *old(source),
            columns == source@.columns,
            forall|j: int|
                0 <= j < i ==> !description_missing(
                    (#[trigger] columns[j]).description,
                    config@.invalid_descriptions,
                ),
        decreases source.columns.len() - i,
    {
        if is_description_missing(&source.columns[i].description, &config.invalid_descriptions) {
            assert(description_missing(columns[i as int].description, config@.invalid_descriptions));
            return Err(SourceFailure::SourceTableColumnDescriptions);
        }
        i = i + 1;
    }
    Ok(())
}

pub open spec fn source_description_rule(source: SourceView, config: ConfigView) -> Option<
    SourceFailureView,
> {
    if config.selected(Selector::MissingSourceDescriptions) && is_blank_or_marker(
        source.source_description,
        config.invalid_descriptions,
    ) {
        Some(SourceFailureView::MissingSourceDescription)
    } else {
        None
    }
}

/// A source table fails when the source it belongs to has no description.
pub fn missing_source_description(source: &Source, config: &Config) -> (r: Result<
    (),
    SourceFailure,
>)
    ensures
        source_failure_of(r) == source_description_rule(source@, config@),
{
    if !config.is_selected(Selector::MissingSourceDescriptions) {
        return Ok(());
    }
    if text_is_blank_or_marker(source.source_description.as_str(), &config.invalid_descriptions) {
        Err(SourceFailure::MissingSourceDescription)
    } else {
        Ok(())
    }
}

pub open spec fn source_fanout_rule(m: ManifestView, source: SourceView, config: ConfigView) -> Option<
    SourceFailureView,
> {
    if config.selected(Selector::SourceFanout) && m.children_of(source.unique_id).len() > 1 {
        Some(SourceFailureView::SourceFanout)
    } else {
        None
    }
}

/// A source table fails when more than one node consumes it.
pub fn source_fanout(manifest: &Manifest, source: &Source, config: &Config) -> (r: Result<
    (),
    SourceFailure,
>)
    ensures
        source_failure_of(r) == source_fanout_rule(manifest@, source@, config@),
{
    if !config.is_selected(Selector::SourceFanout) {
        return Ok(());
    }
    let downstream_count = match manifest.children_of(&source.unique_id) {
        Some(children) => children.len(),
        None => 0,
    };
    if downstream_count > 1 {
        Err(SourceFailure::SourceFanout)
    } else {
        Ok(())
    }
}

pub open spec fn unused_source_rule(m: ManifestView, source: SourceView, config: ConfigView) -> Option<
    SourceFailureView,
> {
    if config.selected(Selector::UnusedSources) && m.children_of(source.unique_id).len() == 0 {
        Some(SourceFailureView::UnusedSource)
    } else {
        None
    }
}

/// A source table fails when no node consumes it.
pub fn unused_source(manifest: &Manifest, source: &Source, config: &Config) -> (r: Result<
    (),
    SourceFailure,
>)
    ensures
        source_failure_of(r) == unused_source_rule(manifest@, source@, config@),
{
    if !config.is_selected(Selector::UnusedSources) {
        return Ok(());
    }
    let has_downstream = match manifest.children_of(&source.unique_id) {
        Some(children) => children.len() > 0,
        None => false,
    };
    if !has_downstream {
        Err(SourceFailure::UnusedSource)
    } else {
        Ok(())
    }
}

pub open spec fn freshness_rule(source: SourceView, config: ConfigView) -> Option<SourceFailureView> {
    if config.selected(Selector::MissingSourceFreshness) && (match source.freshness {
        Some(f) => f.warn_after is None && f.error_after is None,
        None => true,
    }) {
        Some(SourceFailureView::MissingFreshness)
    } else {
        None
    }
}

/// A source table fails when neither a warning nor an error threshold is
/// declared for its freshness.
pub fn missing_source_freshness(source: &Source, config: &Config) -> (r: Result<
    (),
    SourceFailure,
>)
    ensures
        source_failure_of(r) == freshness_rule(source@, config@),
{
    if !config.is_selected(Selector::MissingSourceFreshness) {
        return Ok(());
    }
    match &source.freshness {
        Some(freshness) => {
            if freshness.warn_after.is_none() && freshness.error_after.is_none() {
                Err(SourceFailure::MissingFreshness)
            } else {
                Ok(())
            }
        },
        None => Err(SourceFailure::MissingFreshness),
    }
}

/// The id of `other` if it is another table under the same name in the
/// warehouse and the same source.
pub open spec fn duplicate_candidate(other: SourceView, source: SourceView) -> Option<Seq<char>> {
    if other.identifier == source.identifier && other.source_name == source.source_name
        && other.unique_id != source.unique_id {
        Some(other.unique_id)
    } else {
        None
    }
}

/// The first table of the node set that duplicates `source`.
pub open spec fn first_duplicate(m: ManifestView, source: SourceView) -> Option<Seq<char>> {
    first_some(Seq::new(m.sources.len(), |i: int| duplicate_candidate(m.sources[i], source)))
}

pub open spec fn duplicate_source_rule(m: ManifestView, source: SourceView, config: ConfigView) -> Option<
    SourceFailureView,
> {
    if config.selected(Selector::DuplicateSources) && source.name != source.identifier {
        match first_duplicate(m, source) {
            Some(id) => Some(SourceFailureView::DuplicateDefinition(id)),
            None => None,
        }
    } else {
        None
    }
}

/// A source table whose declared name differs from its name in the
/// warehouse fails when another table of the same source has that name in
/// the warehouse; the failure names the first such table.
#[verifier::loop_isolation(false)]
pub fn duplicate_source(manifest: &Manifest, source: &Source, config: &Config) -> (r: Result<
    (),
    SourceFailure,
>)
    ensures
        source_failure_of(r) == duplicate_source_rule(manifest@, source@, config@),
{
    if !config.is_selected(Selector::DuplicateSources) || source.name == source.identifier {
        return Ok(());
    }
    let ghost candidates = Seq::new(
        manifest@.sources.len(),
        |i: int| duplicate_candidate(manifest@.sources[i], source@),
    );
    let mut i: usize = 0;
    while i < manifest.sources.len()
        invariant
            i <= manifest.sources.len(),
            candidates == Seq::new(
                manifest@.sources.len(),
                |i: int| duplicate_candidate(manifest@.sources[i], source@),
            ),
            forall|j: int| 0 <= j < i ==> (#[trigger] candidates[j]) is None,
        decreases manifest.sources.len() - i,
    {
        let other = &manifest.sources[i];
        if other.identifier == source.identifier && other.source_name == source.source_name
            && other.unique_id != source.unique_id {
            proof {
                lemma_first_some_is(candidates, i as int);
            }
            return Err(SourceFailure::DuplicateDefinition(other.unique_id.clone()));
        }
        assert(candidates[i as int] is None);
        i = i + 1;
    }
    proof {
        lemma_first_some_is(candidates, i as int);
    }
    Ok(())
}

/// The failures of a source table, in the order in which the rules run.
pub open spec fn source_failures(m: ManifestView, source: SourceView, config: ConfigView) -> Seq<
    SourceFailureView,
> {
    let working = described_table(source, config);
    optional(table_description_failure(source, config)) + optional(
        column_descriptions_rule(working, config),
    ) + optional(duplicate_source_rule(m, source, config)) + optional(
        unused_source_rule(m, source, config),
    ) + optional(freshness_rule(source, config)) + optional(
        source_description_rule(working, config),
    ) + optional(source_fanout_rule(m, source, config))
}

/// The changes of a source table: where its description was fixed, one
/// change with what the working copy changed.
pub open spec fn source_changes(source: SourceView, config: ConfigView) -> Option<SourceChangesView> {
    if table_description_fixed(source, config) {
        Some(
            SourceChangesView {
                source_id: source.unique_id,
                source_name: source.source_name,
                table_name: source.name,
                patch_path: source.patch_path,
                changes: seq![
                    table_change(
                        source,
                        source_difference(source, described_table(source, config)),
                    ),
                ],
            },
        )
    } else {
        None
    }
}

/// The result of evaluating one source table.
pub open spec fn source_result(m: ManifestView, source: SourceView, config: ConfigView) -> SourceResultView {
    SourceResultView {
        source_id: source.unique_id,
        failures: source_failures(m, source, config),
        changes: source_changes(source, config),
    }
}

fn note_source_failure(failures: &mut Vec<SourceFailure>, r: Result<(), SourceFailure>)
    ensures
        final(failures).deep_view() == old(failures).deep_view() + optional(source_failure_of(r)),
{
    let ghost before = failures.deep_view();
    match r {
        Ok(_) => {
            assert(before + Seq::<SourceFailureView>::empty() =~= before);
        },
        Err(f) => {
            failures.push(f);
            assert(failures.deep_view() =~= before + seq![f@]);
        },
    }
}

/// Evaluates one source table.
pub fn check_source(manifest: &Manifest, source: &Source, config: &Config) -> (r: SourceResult)
    ensures
        r@ == source_result(manifest@, source@, config@),
{
    let mut working = source.duplicate();
    let mut failures: Vec<SourceFailure> = Vec::new();
    assert(failures.deep_view() =~= Seq::empty());
    let mut fixed = false;
    match missing_source_table_description(&mut working, config) {
        Ok(Some(_)) => {
            fixed = true;
        },
        Ok(None) => {},
        Err(failure) => {
            failures.push(failure);
        },
    }
    assert(failures.deep_view() =~= optional(table_description_failure(source@, config@)));
    note_source_failure(&mut failures, missing_source_column_descriptions(&mut working, config));
    note_source_failure(&mut failures, duplicate_source(manifest, source, config));
    note_source_failure(&mut failures, unused_source(manifest, source, config));
    note_source_failure(&mut failures, missing_source_freshness(source, config));
    note_source_failure(&mut failures, missing_source_description(&working, config));
    note_source_failure(&mut failures, source_fanout(manifest, source, config));
    let changes = if fixed {
        let change = SourceChange::ChangePropertiesFile {
            source_id: source.unique_id.clone(),
            source_name: source.source_name.clone(),
            table_name: source.name.clone(),
            patch_path: clone_opt_text(&source.patch_path),
            property: source_property_from_manifest_differences(source, &working),
        };
        let mut list: Vec<SourceChange> = Vec::new();
        list.push(change);
        assert(list.deep_view() =~= seq![change@]);
        Some(
            SourceChanges {
                source_id: source.unique_id.clone(),
                source_name: source.source_name.clone(),
                table_name: source.name.clone(),
                patch_path: clone_opt_text(&source.patch_path),
                changes: list,
            },
        )
    } else {
        None
    };
    SourceResult { source_id: source.unique_id.clone(), failures, changes }
}

/// The results of all source tables of `m`, in their order.
pub open spec fn source_results(m: ManifestView, config: ConfigView) -> Seq<SourceResultView> {
    Seq::new(m.sources.len(), |i: int| source_result(m, m.sources[i], config))
}

/// Evaluates all source tables.
pub fn check_sources(manifest: &Manifest, config: &Config) -> (r: Vec<SourceResult>)
    ensures
        r.deep_view() == source_results(manifest@, config@),
{
    let mut out: Vec<SourceResult> = Vec::new();
    let mut i: usize = 0;
    while i < manifest.sources.len()
        invariant
            i <= manifest.sources.len(),
            out@.len() == i,
            forall|j: int|
                0 <= j < i ==> (#[trigger] out@[j])@ == source_result(
                    manifest@,
                    manifest@.sources[j],
                    config@,
                ),
        decreases manifest.sources.len() - i,
    {
        out.push(check_source(manifest, &manifest.sources[i], config));
        i = i + 1;
    }
    assert(out.deep_view() =~= source_results(manifest@, config@));
    out
}

/// The order of results of source tables: by id.
pub open spec fn source_result_order() -> spec_fn(SourceResultView, SourceResultView) -> bool {
    |a: SourceResultView, b: SourceResultView| comes_before(a.source_id, b.source_id, false)
}

/// The order of results of source tables is an order.
pub proof fn lemma_source_result_order()
    ensures
        transitive(source_result_order()),
{
    let before = source_result_order();
    assert forall|a: SourceResultView| !#[trigger] before(a, a) by {
        lemma_not_before_itself(a.source_id, false);
    }
    assert forall|a: SourceResultView, b: SourceResultView, c: SourceResultView|
        #![trigger before(a, b), before(b, c)]
        before(a, b) && before(b, c) implies before(a, c) by {
        lemma_before_is_transitive(a.source_id, b.source_id, c.source_id, false);
    }
}

fn place_for_source_result(sorted: &Vec<SourceResult>, x: &SourceResult) -> (p: usize)
    ensures
        p == place_of(sorted.deep_view(), x@, source_result_order()),
        p <= sorted.len(),
{
    let ghost all = sorted.deep_view();
    let mut j: usize = 0;
    while j < sorted.len()
        invariant
            j <= sorted.len(),
            all == sorted.deep_view(),
            forall|k: int| 0 <= k < j ==> !source_result_order()(x@, #[trigger] all[k]),
        decreases sorted.len() - j,
    {
        assert(all[j as int] == sorted@[j as int]@);
        if text_comes_before(x.source_id.as_str(), sorted[j].source_id.as_str(), false) {
            proof {
                lemma_place_is(all, x@, source_result_order(), j as int);
            }
            return j;
        }
        j = j + 1;
    }
    proof {
        lemma_place_is(all, x@, source_result_order(), j as int);
    }
    j
}

/// The results of source tables in ascending order of their ids.
pub fn sort_source_results(results: &Vec<SourceResult>) -> (r: Vec<SourceResult>)
    ensures
        r.deep_view() == arranged(results.deep_view(), source_result_order()),
{
    let ghost all = results.deep_view();
    let mut out: Vec<SourceResult> = Vec::new();
    let mut i: usize = 0;
    assert(out.deep_view() =~= arranged(all.take(0), source_result_order()));
    while i < results.len()
        invariant
            i <= results.len(),
            all == results.deep_view(),
            out.deep_view() == arranged(all.take(i as int), source_result_order()),
        decreases results.len() - i,
    {
        let p = place_for_source_result(&out, &results[i]);
        let ghost before = out.deep_view();
        assert(all[i as int] == results@[i as int]@);
        out.insert(p, results[i].duplicate());
        assert(out.deep_view() =~= before.insert(p as int, all[i as int]));
        assert(all.take(i + 1).drop_last() =~= all.take(i as int));
        assert(all.take(i + 1).last() == all[i as int]);
        i = i + 1;
    }
    assert(all.take(results.len() as int) =~= all);
    out
}

} // verus!
