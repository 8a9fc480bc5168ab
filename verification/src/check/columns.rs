//! The rules on the columns of a model.

use vstd::prelude::*;
use crate::sorting::comes_before;
use crate::sorting::text_comes_before;
use crate::sorting::arranged;
use crate::sorting::ascending;
use crate::sorting::place_of;
use crate::sorting::transitive;
use crate::sorting::lemma_place_is;
use crate::sorting::lemma_arranged;
use crate::sorting::lemma_not_before_itself;
use crate::sorting::lemma_before_is_transitive;
use crate::text::description_missing;
use crate::text::is_description_missing;
use crate::text::clone_opt_text;
use crate::config::Config;
use crate::config::ConfigView;
use crate::config::Selector;
use crate::manifest::Manifest;
use crate::manifest::ManifestView;
use crate::manifest::Node;
use crate::manifest::NodeView;
use crate::manifest::Column;
use crate::manifest::ColumnView;
use crate::change_descriptors::ColumnChange;
use crate::change_descriptors::ColumnChangeView;
use crate::change_descriptors::ModelChanges;
use crate::change_descriptors::ModelChangesView;
use crate::change_descriptors::clone_column_changes;
use crate::osmosis::get_upstream_col_desc;
use crate::osmosis::upstream_description;

verus! {

/// Why a column fails.
#[derive(Debug, Clone, Copy, PartialEq, Eq, Structural)]
pub enum ColumnFailure {
    DescriptionMissing,
}

impl ColumnFailure {
    /// The failure's name.
    pub fn to_string(&self) -> (r: String)
        ensures
            r@ == "DescriptionMissing"@,
    {
        "DescriptionMissing".to_owned()
    }
}

/// The outcome of the rules for one column: it passes when no failure is
/// recorded; a column that passes may have been fixed.
#[derive(Debug, Clone, PartialEq, Eq)]
pub struct ColumnResult {
    pub column_name: String,
    pub failures: Vec<ColumnFailure>,
    pub changes: Vec<ColumnChange>,
}

pub struct ColumnResultView {
    pub column_name: Seq<char>,
    pub failures: Seq<ColumnFailure>,
    pub changes: Seq<ColumnChangeView>,
}

impl View for ColumnResult {
    type V = ColumnResultView;

    open spec fn view(&self) -> ColumnResultView {
        ColumnResultView {
            column_name: self.column_name@,
            failures: self.failures@,
            changes: self.changes.deep_view(),
        }
    }
}

impl DeepView for ColumnResult {
    type V = ColumnResultView;

    open spec fn deep_view(&self) -> ColumnResultView {
        self@
    }
}

/// The line that reports a column without a description.
pub open spec fn missing_description_line(column_name: Seq<char>) -> Seq<char> {
    "Column `"@ + column_name + "`: Missing Description"@
}

impl ColumnResultView {
    pub open spec fn is_pass(self) -> bool {
        self.failures.len() == 0
    }

    /// One line for each failure.
    pub open spec fn failure_reasons(self) -> Seq<Seq<char>> {
        Seq::new(self.failures.len(), |i: int| missing_description_line(self.column_name))
    }
}

impl ColumnResult {
    pub fn is_pass(&self) -> (r: bool)
        ensures
            r == self@.is_pass(),
    {
        self.failures.len() == 0
    }

    pub fn is_failure(&self) -> (r: bool)
        ensures
            r == !self@.is_pass(),
    {
        !self.is_pass()
    }

    pub fn changes(&self) -> (r: &Vec<ColumnChange>)
        ensures
            r.deep_view() == self@.changes,
    {
        &self.changes
    }

    pub fn failure_reasons(&self) -> (r: Vec<String>)
        ensures
            r.deep_view() == self@.failure_reasons(),
    {
        let mut out: Vec<String> = Vec::new();
        let mut i: usize = 0;
        while i < self.failures.len()
            invariant
                i <= self.failures.len(),
                out@.len() == i,
                forall|j: int|
                    0 <= j < i ==> (#[trigger] out@[j])@ == missing_description_line(
                        self.column_name@,
                    ),
            decreases self.failures.len() - i,
        {
            out.push(
                "Column `".to_owned().concat(self.column_name.as_str()).concat(
                    "`: Missing Description",
                ),
            );
            i = i + 1;
        }
        assert(out.deep_view() =~= self@.failure_reasons());
        out
    }

    pub fn duplicate(&self) -> (r: ColumnResult)
        ensures
            r@ == self@,
    {
        let mut failures: Vec<ColumnFailure> = Vec::new();
        let mut i: usize = 0;
        while i < self.failures.len()
            invariant
                i <= self.failures.len(),
                failures@ == self.failures@.take(i as int),
            decreases self.failures.len() - i,
        {
            failures.push(self.failures[i]);
            assert(self.failures@.take(i + 1) =~= self.failures@.take(i as int).push(
                self.failures@[i as int],
            ));
            i = i + 1;
        }
        assert(self.failures@.take(self.failures.len() as int) =~= self.failures@);
        ColumnResult {
            column_name: self.column_name.clone(),
            failures,
            changes: clone_column_changes(&self.changes),
        }
    }
}

/// A column's description is missing when it is absent, blank after
/// trimming, or one of the configured invalid markers.
pub fn missing_description(column: &Column, config: &Config) -> (r: Result<(), ColumnFailure>)
    ensures
        r is Err <==> description_missing(column@.description, config@.invalid_descriptions),
{
    if is_description_missing(&column.description, &config.invalid_descriptions) {
        Err(ColumnFailure::DescriptionMissing)
    } else {
        Ok(())
    }
}

/// What the rule on column descriptions decides for one column.
pub enum ColumnVerdict {
    /// The rule does not run, or the column has a description.
    Keep,
    /// The column inherits this description.
    Fix(Seq<char>),
    /// The column lacks a description and none can be inherited.
    Fail,
}

/// The verdict for `column` of the model `model_id`. A description is
/// inherited only when the rule may be fixed, and never invented: without
/// one to inherit the column fails.
pub open spec fn column_verdict(
    m: ManifestView,
    finalized: Seq<ModelChangesView>,
    model_id: Seq<char>,
    column: ColumnView,
    config: ConfigView,
) -> ColumnVerdict {
    if !config.selected(Selector::MissingColumnDescriptions) || !description_missing(
        column.description,
        config.invalid_descriptions,
    ) {
        ColumnVerdict::Keep
    } else if !config.can_fix(Selector::MissingColumnDescriptions) {
        ColumnVerdict::Fail
    } else {
        match upstream_description(m, finalized, model_id, column.name, config) {
            Some(text) => ColumnVerdict::Fix(text),
            None => ColumnVerdict::Fail,
        }
    }
}

/// The result that a verdict gives for the column `name`.
pub open spec fn column_result(verdict: ColumnVerdict, name: Seq<char>) -> ColumnResultView {
    match verdict {
        ColumnVerdict::Keep => ColumnResultView {
            column_name: name,
            failures: Seq::empty(),
            changes: Seq::empty(),
        },
        ColumnVerdict::Fix(_) => ColumnResultView {
            column_name: name,
            failures: Seq::empty(),
            changes: seq![ColumnChangeView::ChangePropertiesFile],
        },
        ColumnVerdict::Fail => ColumnResultView {
            column_name: name,
            failures: seq![ColumnFailure::DescriptionMissing],
            changes: Seq::empty(),
        },
    }
}

/// The working copy of a column after the verdict.
pub open spec fn fixed_column(verdict: ColumnVerdict, column: ColumnView) -> ColumnView {
    match verdict {
        ColumnVerdict::Fix(text) => ColumnView { description: Some(text), ..column },
        _ => column,
    }
}

/// The rule on the description of one column. On a fix the working copy
/// of the column takes the inherited description.
fn missing_column_description(
    manifest: &Manifest,
    model: &Node,
    original_column: &Column,
    working_column: &mut Column,
    prior_changes: &Vec<ModelChanges>,
    config: &Config,
) -> (r: Result<Option<ColumnChange>, ColumnFailure>)
    ensures
        final(working_column)@ == fixed_column(
            column_verdict(
                manifest@,
                prior_changes.deep_view(),
                model@.unique_id,
                original_column@,
                config@,
            ),
            old(working_column)@,
        ),
        match column_verdict(
            manifest@,
            prior_changes.deep_view(),
            model@.unique_id,
            original_column@,
            config@,
        ) {
            ColumnVerdict::Keep => r matches Ok(None),
            ColumnVerdict::Fix(text) => r matches Ok(Some(c)) && c@
                == ColumnChangeView::ChangePropertiesFile,
            ColumnVerdict::Fail => r matches Err(ColumnFailure::DescriptionMissing),
        },
{
    if !config.is_selected(Selector::MissingColumnDescriptions) || missing_description(
        original_column,
        config,
    ).is_ok() {
        return Ok(None);
    }
    if !config.is_fixable(Selector::MissingColumnDescriptions) {
        return Err(ColumnFailure::DescriptionMissing);
    }
    match get_upstream_col_desc(
        manifest,
        Some(prior_changes),
        model.unique_id.as_str(),
        original_column.name.as_str(),
        config,
    ) {
        Some(text) => {
            working_column.description = Some(text);
            Ok(Some(ColumnChange::ChangePropertiesFile))
        },
        None => Err(ColumnFailure::DescriptionMissing),
    }
}

/// The rules for one column.
fn check_model_column(
    manifest: &Manifest,
    model: &Node,
    original_column: &Column,
    working_column: &mut Column,
    prior_changes: &Vec<ModelChanges>,
    config: &Config,
) -> (r: ColumnResult)
    ensures
        r@ == column_result(
            column_verdict(
                manifest@,
                prior_changes.deep_view(),
                model@.unique_id,
                original_column@,
                config@,
            ),
            original_column@.name,
        ),
        final(working_column)@ == fixed_column(
            column_verdict(
                manifest@,
                prior_changes.deep_view(),
                model@.unique_id,
                original_column@,
                config@,
            ),
            old(working_column)@,
        ),
{
    let mut failures: Vec<ColumnFailure> = Vec::new();
    let mut changes: Vec<ColumnChange> = Vec::new();
    match missing_column_description(
        manifest,
        model,
        original_column,
        working_column,
        prior_changes,
        config,
    ) {
        Ok(Some(change)) => {
            changes.push(change);
        },
        Ok(None) => {},
        Err(failure) => {
            failures.push(failure);
        },
    }
    let r = ColumnResult { column_name: original_column.name.clone(), failures, changes };
    proof {
        let v = column_verdict(
            manifest@,
            prior_changes.deep_view(),
            model@.unique_id,
            original_column@,
            config@,
        );
        assert(r@.failures =~= column_result(v, original_column@.name).failures);
        assert(r@.changes =~= column_result(v, original_column@.name).changes);
    }
    r
}

/// The number of columns that are checked: those that both the model and
/// its working copy have.
pub open spec fn checked_count(loaded: NodeView, working: NodeView) -> int {
    if loaded.columns.len() <= working.columns.len() {
        loaded.columns.len() as int
    } else {
        working.columns.len() as int
    }
}

/// The verdict for the column at `i` of the model.
pub open spec fn verdict_at(
    m: ManifestView,
    finalized: Seq<ModelChangesView>,
    loaded: NodeView,
    config: ConfigView,
    i: int,
) -> ColumnVerdict {
    column_verdict(m, finalized, loaded.unique_id, loaded.columns[i], config)
}

/// The results for the columns of the model, as the columns stand.
pub open spec fn results_in_column_order(
    m: ManifestView,
    finalized: Seq<ModelChangesView>,
    loaded: NodeView,
    working: NodeView,
    config: ConfigView,
) -> Seq<ColumnResultView> {
    Seq::new(
        checked_count(loaded, working) as nat,
        |i: int|
            column_result(verdict_at(m, finalized, loaded, config, i), loaded.columns[i].name),
    )
}

/// The order of column results: by the name of the column.
pub open spec fn result_order() -> spec_fn(ColumnResultView, ColumnResultView) -> bool {
    |a: ColumnResultView, b: ColumnResultView| comes_before(a.column_name, b.column_name, false)
}

/// The order of column results is an order.
pub proof fn lemma_result_order()
    ensures
        transitive(result_order()),
{
    let before = result_order();
    assert forall|a: ColumnResultView| !#[trigger] before(a, a) by {
        lemma_not_before_itself(a.column_name, false);
    }
    assert forall|a: ColumnResultView, b: ColumnResultView, c: ColumnResultView|
        #![trigger before(a, b), before(b, c)]
        before(a, b) && before(b, c) implies before(a, c) by {
        lemma_before_is_transitive(a.column_name, b.column_name, c.column_name, false);
    }
}

/// The results for the columns of the model, in ascending order of the
/// names of the columns.
pub open spec fn column_results(
    m: ManifestView,
    finalized: Seq<ModelChangesView>,
    loaded: NodeView,
    working: NodeView,
    config: ConfigView,
) -> Seq<ColumnResultView> {
    arranged(results_in_column_order(m, finalized, loaded, working, config), result_order())
}

/// The results are those of the columns, one for each, in ascending order
/// of the names.
pub proof fn lemma_column_results(
    m: ManifestView,
    finalized: Seq<ModelChangesView>,
    loaded: NodeView,
    working: NodeView,
    config: ConfigView,
)
    ensures
        column_results(m, finalized, loaded, working, config).len() == checked_count(
            loaded,
            working,
        ),
        ascending(column_results(m, finalized, loaded, working, config), result_order()),
        forall|x: ColumnResultView|
            #[trigger] column_results(m, finalized, loaded, working, config).contains(x)
                <==> results_in_column_order(m, finalized, loaded, working, config).contains(x),
{
    lemma_result_order();
    lemma_arranged(results_in_column_order(m, finalized, loaded, working, config), result_order());
}

/// Every result is that of a column.
pub proof fn lemma_result_of_column(
    m: ManifestView,
    finalized: Seq<ModelChangesView>,
    loaded: NodeView,
    working: NodeView,
    config: ConfigView,
    k: int,
) -> (i: int)
    requires
        0 <= k < column_results(m, finalized, loaded, working, config).len(),
    ensures
        0 <= i < checked_count(loaded, working),
        column_results(m, finalized, loaded, working, config)[k] == column_result(
            verdict_at(m, finalized, loaded, config, i),
            loaded.columns[i].name,
        ),
{
    lemma_column_results(m, finalized, loaded, working, config);
    let sorted = column_results(m, finalized, loaded, working, config);
    let plain = results_in_column_order(m, finalized, loaded, working, config);
    assert(sorted.contains(sorted[k]));
    assert(plain.contains(sorted[k]));
    let i = choose|i: int| 0 <= i < plain.len() && plain[i] == sorted[k];
    i
}

/// Every column has its result.
pub proof fn lemma_column_has_result(
    m: ManifestView,
    finalized: Seq<ModelChangesView>,
    loaded: NodeView,
    working: NodeView,
    config: ConfigView,
    i: int,
) -> (k: int)
    requires
        0 <= i < checked_count(loaded, working),
    ensures
        0 <= k < column_results(m, finalized, loaded, working, config).len(),
        column_results(m, finalized, loaded, working, config)[k] == column_result(
            verdict_at(m, finalized, loaded, config, i),
            loaded.columns[i].name,
        ),
{
    lemma_column_results(m, finalized, loaded, working, config);
    let sorted = column_results(m, finalized, loaded, working, config);
    let plain = results_in_column_order(m, finalized, loaded, working, config);
    assert(plain.contains(plain[i]));
    assert(sorted.contains(plain[i]));
    let k = choose|k: int| 0 <= k < sorted.len() && sorted[k] == plain[i];
    k
}

fn place_for_result(sorted: &Vec<ColumnResult>, x: &ColumnResult) -> (p: usize)
    ensures
        p == place_of(sorted.deep_view(), x@, result_order()),
        p <= sorted.len(),
{
    let ghost all = sorted.deep_view();
    let mut j: usize = 0;
    while j < sorted.len()
        invariant
            j <= sorted.len(),
            all == sorted.deep_view(),
            forall|k: int| 0 <= k < j ==> !result_order()(x@, #[trigger] all[k]),
        decreases sorted.len() - j,
    {
        assert(all[j as int] == sorted@[j as int]@);
        if text_comes_before(x.column_name.as_str(), sorted[j].column_name.as_str(), false) {
            proof {
                lemma_place_is(all, x@, result_order(), j as int);
            }
            return j;
        }
        j = j + 1;
    }
    proof {
        lemma_place_is(all, x@, result_order(), j as int);
    }
    j
}

/// The results in ascending order of the names of their columns.
pub fn sort_column_results(results: &Vec<ColumnResult>) -> (r: Vec<ColumnResult>)
    ensures
        r.deep_view() == arranged(results.deep_view(), result_order()),
{
    let ghost all = results.deep_view();
    let mut out: Vec<ColumnResult> = Vec::new();
    let mut i: usize = 0;
    assert(out.deep_view() =~= arranged(all.take(0), result_order()));
    while i < results.len()
        invariant
            i <= results.len(),
            all == results.deep_view(),
            out.deep_view() == arranged(all.take(i as int), result_order()),
        decreases results.len() - i,
    {
        let p = place_for_result(&out, &results[i]);
        let ghost before = out.deep_view();
        assert(all[i as int] == results@[i as int]@);
        out.insert(p, results[i].duplicate());
        assert(out.deep_view() =~= before.insert(p as int, all[i as int]));
        assert(all.take(i + 1).drop_last() =~= all.take(i as int));
        assert(all.take(i + 1).last() == all[i as int]);
        i = i + 1;
    }
    assert(all.take(results.len() as int) =~= all);
    out
}

/// The columns of the working copy after the rules ran.
pub open spec fn fixed_columns(
    m: ManifestView,
    finalized: Seq<ModelChangesView>,
    loaded: NodeView,
    working: NodeView,
    config: ConfigView,
) -> Seq<ColumnView> {
    Seq::new(
        working.columns.len(),
        |i: int|
            if i < checked_count(loaded, working) {
                fixed_column(verdict_at(m, finalized, loaded, config, i), working.columns[i])
            } else {
                working.columns[i]
            },
    )
}

/// Checks all columns of a model. The results come in ascending order of
/// the names of the columns; the working copy takes the descriptions that
/// its columns inherit.
pub fn check_model_columns(
    manifest: &Manifest,
    original_model: &Node,
    working_model: &mut Node,
    prior_changes: &Vec<ModelChanges>,
    config: &Config,
) -> (r: Vec<ColumnResult>)
    ensures
        r.deep_view() == column_results(
            manifest@,
            prior_changes.deep_view(),
            original_model@,
            old(working_model)@,
            config@,
        ),
        final(working_model)@ == (NodeView {
            columns: fixed_columns(
                manifest@,
                prior_changes.deep_view(),
                original_model@,
                old(working_model)@,
                config@,
            ),
            ..old(working_model)@
        }),
{
    let mut results: Vec<ColumnResult> = Vec::new();
    let n = if original_model.columns.len() <= working_model.columns.len() {
        original_model.columns.len()
    } else {
        working_model.columns.len()
    };
    let ghost start = working_model@;
    let ghost m = manifest@;
    let ghost finalized = prior_changes.deep_view();
    let mut i: usize = 0;
    while i < n
        invariant
            i <= n,
            n == checked_count(original_model@, start),
            working_model@.columns.len() == start.columns.len(),
            working_model@ == (NodeView { columns: working_model@.columns, ..start }),
            m == manifest@,
            finalized == prior_changes.deep_view(),
            results@.len() == i,
            forall|j: int|
                0 <= j < i ==> (#[trigger] results@[j])@ == column_result(
                    verdict_at(m, finalized, original_model@, config@, j),
                    original_model@.columns[j].name,
                ),
            forall|j: int|
                0 <= j < i ==> #[trigger] working_model@.columns[j] == fixed_column(
                    verdict_at(m, finalized, original_model@, config@, j),
                    start.columns[j],
                ),
            forall|j: int|
                i <= j < start.columns.len() ==> #[trigger] working_model@.columns[j]
                    == start.columns[j],
        decreases n - i,
    {
        let mut working_column = Column {
            name: working_model.columns[i].name.clone(),
            description: clone_opt_text(&working_model.columns[i].description),
        };
        assert(working_column@ == working_model@.columns[i as int]);
        let result = check_model_column(
            manifest,
            original_model,
            &original_model.columns[i],
            &mut working_column,
            prior_changes,
            config,
        );
        let ghost before = working_model@.columns;
        working_model.columns.set(i, working_column);
        assert(working_model@.columns =~= before.update(i as int, working_column@));
        results.push(result);
        i = i + 1;
    }
    assert(results.deep_view() =~= results_in_column_order(
        m,
        finalized,
        original_model@,
        start,
        config@,
    ));
    assert(working_model@.columns =~= fixed_columns(
        m,
        finalized,
        original_model@,
        start,
        config@,
    ));
    sort_column_results(&results)
}

} // verus!
