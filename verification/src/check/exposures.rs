//! The rules on exposures.

use vstd::prelude::*;
use crate::sorting::lemma_before_is_transitive;
use crate::sorting::lemma_not_before_itself;
use crate::sorting::lemma_place_is;
use crate::sorting::transitive;
use crate::sorting::place_of;
use crate::sorting::arranged;
use crate::sorting::text_comes_before;
use crate::sorting::comes_before;
use crate::text::joined;
use crate::text::join;
use crate::text::texts_of;
use crate::text::starts_with;
use crate::lists::optional;
use crate::lists::copy_texts;
use crate::lists::lemma_filter_step;
use crate::config::Config;
use crate::config::ConfigView;
use crate::config::Selector;
use crate::manifest::Manifest;
use crate::manifest::ManifestView;
use crate::manifest::Exposure;
use crate::manifest::ExposureView;
use crate::manifest::NodeKind;
use crate::manifest::Access;
use crate::manifest::Materialization;

verus! {

/// Why an exposure fails.
#[derive(Debug, Clone, PartialEq, Eq)]
pub enum ExposureFailure {
    /// The private models that the exposure depends on.
    DependentOnPrivateModel(Vec<String>),
    /// The models that the exposure depends on and that are built neither
    /// as a table nor incrementally.
    DependentOnMaterializedModel(Vec<String>),
}

pub enum ExposureFailureView {
    DependentOnPrivateModel(Seq<Seq<char>>),
    DependentOnMaterializedModel(Seq<Seq<char>>),
}

impl View for ExposureFailure {
    type V = ExposureFailureView;

    open spec fn view(&self) -> ExposureFailureView {
        match self {
            ExposureFailure::DependentOnPrivateModel(models) => {
                ExposureFailureView::DependentOnPrivateModel(models.deep_view())
            },
            ExposureFailure::DependentOnMaterializedModel(models) => {
                ExposureFailureView::DependentOnMaterializedModel(models.deep_view())
            },
        }
    }
}

impl DeepView for ExposureFailure {
    type V = ExposureFailureView;

    open spec fn deep_view(&self) -> ExposureFailureView {
        self@
    }
}

impl ExposureFailureView {
    /// The text that reports the failure: its name and the models.
    pub open spec fn text(self) -> Seq<char> {
        match self {
            ExposureFailureView::DependentOnPrivateModel(models) => "DependentOnPrivateModel("@
                + joined(models, ", "@) + ")"@,
            ExposureFailureView::DependentOnMaterializedModel(models) => {
                "DependentOnMaterializedModel("@ + joined(models, ", "@) + ")"@
            },
        }
    }
}

impl ExposureFailure {
    pub fn to_string(&self) -> (r: String)
        ensures
            r@ == self@.text(),
    {
        match self {
            ExposureFailure::DependentOnPrivateModel(models) => {
                assert(texts_of(models@) =~= models.deep_view());
                "DependentOnPrivateModel(".to_owned().concat(join(models, ", ").as_str()).concat(
                    ")",
                )
            },
            ExposureFailure::DependentOnMaterializedModel(models) => {
                assert(texts_of(models@) =~= models.deep_view());
                "DependentOnMaterializedModel(".to_owned().concat(
                    join(models, ", ").as_str(),
                ).concat(")")
            },
        }
    }

    pub fn duplicate(&self) -> (r: ExposureFailure)
        ensures
            r@ == self@,
    {
        match self {
            ExposureFailure::DependentOnPrivateModel(models) => {
                ExposureFailure::DependentOnPrivateModel(copy_texts(models))
            },
            ExposureFailure::DependentOnMaterializedModel(models) => {
                ExposureFailure::DependentOnMaterializedModel(copy_texts(models))
            },
        }
    }
}

/// A change to an exposure. No rule on exposures has a fix yet.
#[derive(Debug, Clone, Copy, PartialEq, Eq, Structural)]
pub enum ExposureChange {
    Placeholder,
}

/// The outcome of the rules for one exposure.
#[derive(Debug, Clone, PartialEq, Eq)]
pub struct ExposureResult {
    pub exposure_id: String,
    pub failures: Vec<ExposureFailure>,
    pub changes: Vec<ExposureChange>,
}

pub struct ExposureResultView {
    pub exposure_id: Seq<char>,
    pub failures: Seq<ExposureFailureView>,
    pub changes: Seq<ExposureChange>,
}

impl View for ExposureResult {
    type V = ExposureResultView;

    open spec fn view(&self) -> ExposureResultView {
        ExposureResultView {
            exposure_id: self.exposure_id@,
            failures: self.failures.deep_view(),
            changes: self.changes@,
        }
    }
}

impl DeepView for ExposureResult {
    type V = ExposureResultView;

    open spec fn deep_view(&self) -> ExposureResultView {
        self@
    }
}

impl ExposureResultView {
    pub open spec fn is_pass(self) -> bool {
        self.failures.len() == 0
    }
}

impl ExposureResult {
    pub fn is_pass(&self) -> (r: bool)
        ensures
            r == self@.is_pass(),
    {
        self.failures.len() == 0
    }

    pub fn failure_reasons(&self) -> (r: Vec<String>)
        ensures
            r.deep_view() == Seq::new(
                self@.failures.len(),
                |i: int| self@.failures[i].text(),
            ),
    {
        let mut out: Vec<String> = Vec::new();
        let mut i: usize = 0;
        while i < self.failures.len()
            invariant
                i <= self.failures.len(),
                out@.len() == i,
                forall|j: int| 0 <= j < i ==> (#[trigger] out@[j])@ == self@.failures[j].text(),
            decreases self.failures.len() - i,
        {
            out.push(self.failures[i].to_string());
            i = i + 1;
        }
        assert(out.deep_view() =~= Seq::new(
            self@.failures.len(),
            |i: int| self@.failures[i].text(),
        ));
        out
    }

    pub fn duplicate(&self) -> (r: ExposureResult)
        ensures
            r@ == self@,
    {
        let mut failures: Vec<ExposureFailure> = Vec::new();
        let mut i: usize = 0;
        while i < self.failures.len()
            invariant
                i <= self.failures.len(),
                failures@.len() == i,
                forall|j: int| 0 <= j < i ==> (#[trigger] failures@[j])@ == self.failures@[j]@,
            decreases self.failures.len() - i,
        {
            failures.push(self.failures[i].duplicate());
            i = i + 1;
        }
        assert(failures.deep_view() =~= self.failures.deep_view());
        let mut changes: Vec<ExposureChange> = Vec::new();
        let mut k: usize = 0;
        while k < self.changes.len()
            invariant
                k <= self.changes.len(),
                changes@ == self.changes@.take(k as int),
            decreases self.changes.len() - k,
        {
            changes.push(self.changes[k]);
            assert(self.changes@.take(k + 1) =~= self.changes@.take(k as int).push(
                self.changes@[k as int],
            ));
            k = k + 1;
        }
        assert(self.changes@.take(self.changes.len() as int) =~= self.changes@);
        ExposureResult { exposure_id: self.exposure_id.clone(), failures, changes }
    }
}

/// The dependencies that are private models.
pub open spec fn is_private_model(m: ManifestView) -> spec_fn(Seq<char>) -> bool {
    |id: Seq<char>|
        "model"@.is_prefix_of(id) && (m.node(id) matches Some(n) && n.kind == NodeKind::Model
            && n.access == Some(Access::Private))
}

/// The dependencies that are models built neither as a table nor
/// incrementally.
pub open spec fn is_not_durable(m: ManifestView) -> spec_fn(Seq<char>) -> bool {
    |id: Seq<char>|
        "model"@.is_prefix_of(id) && (m.node(id) matches Some(n) && n.kind == NodeKind::Model
            && n.materialized != Some(Materialization::Table) && n.materialized != Some(
            Materialization::Incremental,
        ))
}

pub open spec fn private_model_rule(m: ManifestView, exposure: ExposureView, config: ConfigView) -> Option<
    ExposureFailureView,
> {
    if config.selected(Selector::ExposureDependentOnPrivateModel) && exposure.depends_on.filter(
        is_private_model(m),
    ).len() > 0 {
        Some(
            ExposureFailureView::DependentOnPrivateModel(
                exposure.depends_on.filter(is_private_model(m)),
            ),
        )
    } else {
        None
    }
}

pub open spec fn materialization_rule(m: ManifestView, exposure: ExposureView, config: ConfigView) -> Option<
    ExposureFailureView,
> {
    if config.selected(Selector::ExposureParentsMaterializations) && exposure.depends_on.filter(
        is_not_durable(m),
    ).len() > 0 {
        Some(
            ExposureFailureView::DependentOnMaterializedModel(
                exposure.depends_on.filter(is_not_durable(m)),
            ),
        )
    } else {
        None
    }
}

/// What a rule on exposures reports.
pub open spec fn exposure_failure_of(r: Result<Option<ExposureChange>, ExposureFailure>) -> Option<
    ExposureFailureView,
> {
    match r {
        Ok(_) => None,
        Err(f) => Some(f@),
    }
}

fn private_model(manifest: &Manifest, id: &String) -> (r: bool)
    ensures
        r == is_private_model(manifest@)(id@),
{
    if !starts_with(id.as_str(), "model") {
        return false;
    }
    match manifest.node(id) {
        Some(n) => match n.kind {
            NodeKind::Model => match n.access {
                Some(Access::Private) => true,
                _ => false,
            },
            _ => false,
        },
        None => false,
    }
}

fn not_durable(manifest: &Manifest, id: &String) -> (r: bool)
    ensures
        r == is_not_durable(manifest@)(id@),
{
    if !starts_with(id.as_str(), "model") {
        return false;
    }
    match manifest.node(id) {
        Some(n) => match n.kind {
            NodeKind::Model => match n.materialized {
                Some(Materialization::Table) => false,
                Some(Materialization::Incremental) => false,
                _ => true,
            },
            _ => false,
        },
        None => false,
    }
}

/// An exposure fails when it depends on a private model; the failure lists
/// those models. The rule has no fix.
pub fn exposure_dependent_on_private_model(
    exposure: &Exposure,
    manifest: &Manifest,
    config: &Config,
) -> (r: Result<Option<ExposureChange>, ExposureFailure>)
    ensures
        r is Ok ==> r matches Ok(None),
        exposure_failure_of(r) == private_model_rule(manifest@, exposure@, config@),
{
    if !config.is_selected(Selector::ExposureDependentOnPrivateModel) {
        return Ok(None);
    }
    let deps = &exposure.depends_on;
    let ghost all = deps.deep_view();
    let ghost pred = is_private_model(manifest@);
    let mut found: Vec<String> = Vec::new();
    let mut i: usize = 0;
    assert(all.take(0).filter(pred) =~= Seq::empty()) by {
        reveal(Seq::filter);
    }
    while i < deps.len()
        invariant
            i <= deps.len(),
            all == deps.deep_view(),
            pred == is_private_model(manifest@),
            found.deep_view() == all.take(i as int).filter(pred),
        decreases deps.len() - i,
    {
        proof {
            lemma_filter_step(all, pred, i as int);
        }
        if private_model(manifest, &deps[i]) {
            let ghost before = found.deep_view();
            found.push(deps[i].clone());
            assert(found.deep_view() =~= before.push(all[i as int]));
        }
        i = i + 1;
    }
    assert(all.take(deps.len() as int) =~= all);
    if found.len() > 0 {
        Err(ExposureFailure::DependentOnPrivateModel(found))
    } else {
        Ok(None)
    }
}

/// An exposure fails when it depends on a model that is built neither as a
/// table nor incrementally; the failure lists those models. The rule has
/// no fix.
pub fn exposure_parents_materializations(
    exposure: &Exposure,
    manifest: &Manifest,
    config: &Config,
) -> (r: Result<Option<ExposureChange>, ExposureFailure>)
    ensures
        r is Ok ==> r matches Ok(None),
        exposure_failure_of(r) == materialization_rule(manifest@, exposure@, config@),
{
    if !config.is_selected(Selector::ExposureParentsMaterializations) {
        return Ok(None);
    }
    let deps = &exposure.depends_on;
    let ghost all = deps.deep_view();
    let ghost pred = is_not_durable(manifest@);
    let mut found: Vec<String> = Vec::new();
    let mut i: usize = 0;
    assert(all.take(0).filter(pred) =~= Seq::empty()) by {
        reveal(Seq::filter);
    }
    while i < deps.len()
        invariant
            i <= deps.len(),
            all == deps.deep_view(),
            pred == is_not_durable(manifest@),
            found.deep_view() == all.take(i as int).filter(pred),
        decreases deps.len() - i,
    {
        proof {
            lemma_filter_step(all, pred, i as int);
        }
        if not_durable(manifest, &deps[i]) {
            let ghost before = found.deep_view();
            found.push(deps[i].clone());
            assert(found.deep_view() =~= before.push(all[i as int]));
        }
        i = i + 1;
    }
    assert(all.take(deps.len() as int) =~= all);
    if found.len() > 0 {
        Err(ExposureFailure::DependentOnMaterializedModel(found))
    } else {
        Ok(None)
    }
}

/// The result of evaluating one exposure.
pub open spec fn exposure_result(m: ManifestView, exposure: ExposureView, config: ConfigView) -> ExposureResultView {
    ExposureResultView {
        exposure_id: exposure.unique_id,
        failures: optional(private_model_rule(m, exposure, config)) + optional(
            materialization_rule(m, exposure, config),
        ),
        changes: Seq::empty(),
    }
}

/// Evaluates one exposure.
pub fn check_exposure(manifest: &Manifest, exposure: &Exposure, config: &Config) -> (r:
    ExposureResult)
    ensures
        r@ == exposure_result(manifest@, exposure@, config@),
{
    let mut failures: Vec<ExposureFailure> = Vec::new();
    let changes: Vec<ExposureChange> = Vec::new();
    assert(failures.deep_view() =~= Seq::empty());
    match exposure_dependent_on_private_model(exposure, manifest, config) {
        Err(failure) => {
            failures.push(failure);
        },
        _ => {},
    }
    let ghost first = failures.deep_view();
    assert(first =~= optional(private_model_rule(manifest@, exposure@, config@)));
    match exposure_parents_materializations(exposure, manifest, config) {
        Err(failure) => {
            failures.push(failure);
        },
        _ => {},
    }
    assert(failures.deep_view() =~= first + optional(
        materialization_rule(manifest@, exposure@, config@),
    ));
    ExposureResult { exposure_id: exposure.unique_id.clone(), failures, changes }
}

/// The results of all exposures of `m`, in their order.
pub open spec fn exposure_results(m: ManifestView, config: ConfigView) -> Seq<ExposureResultView> {
    Seq::new(m.exposures.len(), |i: int| exposure_result(m, m.exposures[i], config))
}

/// Evaluates all exposures.
pub fn check_exposures(manifest: &Manifest, config: &Config) -> (r: Vec<ExposureResult>)
    ensures
        r.deep_view() == exposure_results(manifest@, config@),
{
    let mut out: Vec<ExposureResult> = Vec::new();
    let mut i: usize = 0;
    while i < manifest.exposures.len()
        invariant
            i <= manifest.exposures.len(),
            out@.len() == i,
            forall|j: int|
                0 <= j < i ==> (#[trigger] out@[j])@ == exposure_result(
                    manifest@,
                    manifest@.exposures[j],
                    config@,
                ),
        decreases manifest.exposures.len() - i,
    {
        out.push(check_exposure(manifest, &manifest.exposures[i], config));
        i = i + 1;
    }
    assert(out.deep_view() =~= exposure_results(manifest@, config@));
    out
}

/// The order of results of exposures: by id.
pub open spec fn exposure_result_order() -> spec_fn(ExposureResultView, ExposureResultView) -> bool {
    |a: ExposureResultView, b: ExposureResultView| comes_before(a.exposure_id, b.exposure_id, false)
}

/// The order of results of exposures is an order.
pub proof fn lemma_exposure_result_order()
    ensures
        transitive(exposure_result_order()),
{
    let before = exposure_result_order();
    assert forall|a: ExposureResultView| !#[trigger] before(a, a) by {
        lemma_not_before_itself(a.exposure_id, false);
    }
    assert forall|a: ExposureResultView, b: ExposureResultView, c: ExposureResultView|
        #![trigger before(a, b), before(b, c)]
        before(a, b) && before(b, c) implies before(a, c) by {
        lemma_before_is_transitive(a.exposure_id, b.exposure_id, c.exposure_id, false);
    }
}

fn place_for_exposure_result(sorted: &Vec<ExposureResult>, x: &ExposureResult) -> (p: usize)
    ensures
        p == place_of(sorted.deep_view(), x@, exposure_result_order()),
        p <= sorted.len(),
{
    let ghost all = sorted.deep_view();
    let mut j: usize = 0;
    while j < sorted.len()
        invariant
            j <= sorted.len(),
            all == sorted.deep_view(),
            forall|k: int| 0 <= k < j ==> !exposure_result_order()(x@, #[trigger] all[k]),
        decreases sorted.len() - j,
    {
        assert(all[j as int] == sorted@[j as int]@);
        if text_comes_before(x.exposure_id.as_str(), sorted[j].exposure_id.as_str(), false) {
            proof {
                lemma_place_is(all, x@, exposure_result_order(), j as int);
            }
            return j;
        }
        j = j + 1;
    }
    proof {
        lemma_place_is(all, x@, exposure_result_order(), j as int);
    }
    j
}

/// The results of exposures in ascending order of their ids.
pub fn sort_exposure_results(results: &Vec<ExposureResult>) -> (r: Vec<ExposureResult>)
    ensures
        r.deep_view() == arranged(results.deep_view(), exposure_result_order()),
{
    let ghost all = results.deep_view();
    let mut out: Vec<ExposureResult> = Vec::new();
    let mut i: usize = 0;
    assert(out.deep_view() =~= arranged(all.take(0), exposure_result_order()));
    while i < results.len()
        invariant
            i <= results.len(),
            all == results.deep_view(),
            out.deep_view() == arranged(all.take(i as int), exposure_result_order()),
        decreases results.len() - i,
    {
        let p = place_for_exposure_result(&out, &results[i]);
        let ghost before = out.deep_view();
        assert(all[i as int] == results@[i as int]@);
        out.insert(p, results[i].duplicate());
        assert(out.deep_view() =~= before.insert(p as int, all[i as int]));
        assert(all.take(i + 1).drop_last() =~= all.take(i as int));
        assert(all.take(i + 1).last() == all[i as int]);
        i = i + 1;
    }
    assert(all.take(results.len() as int) =~= all);
    out
}

} // verus!
