//! The rule engine: every model is evaluated in dependency order, so that
//! the fixes of a model are final before a model that reads it is
//! evaluated; source tables and exposures follow.

pub mod columns;
pub mod docs;
pub mod exposures;
pub mod idempotence;
pub mod models;
pub mod order;
pub mod rerun;
pub mod run;
pub mod sources;

use vstd::prelude::*;
use crate::text::position;
use crate::text::lemma_position_is;
use crate::lists::lemma_filter_step;
use crate::config::Config;
use crate::config::ConfigView;
use crate::manifest::Manifest;
use crate::manifest::ManifestView;
use crate::manifest::NodeKind;
use crate::graph::DbtGraph;
use crate::graph::GraphView;
use crate::graph::graph_of;
use crate::change_descriptors::ModelChanges;
use crate::change_descriptors::ModelChangesView;
use crate::check::models::ModelResult;
use crate::check::models::ModelResultView;
use crate::check::models::GeneratedFile;
use crate::check::models::GeneratedFileView;
use crate::check::models::check_model;
use crate::check::models::model_result;
use crate::check::sources::SourceResult;
use crate::check::sources::SourceResultView;
use crate::check::sources::check_sources;
use crate::check::sources::source_results;
use crate::check::exposures::ExposureResult;
use crate::check::exposures::ExposureResultView;
use crate::check::exposures::check_exposures;
use crate::check::exposures::exposure_results;
use crate::check::order::nodes_in_dag_order;
use crate::check::order::dag_order;
use crate::sorting::arranged;
use crate::check::models::model_result_order;
use crate::check::models::sort_model_results;
use crate::check::sources::source_result_order;
use crate::check::sources::sort_source_results;
use crate::check::exposures::exposure_result_order;
use crate::check::exposures::sort_exposure_results;
use crate::writeback::changes::by_model;
use crate::writeback::changes::sort_changes;

verus! {

/// The outcome of a run: one result for each model, source table and
/// exposure, and the changes of the models that have any, each list in
/// ascending order of ids.
#[derive(Debug, Clone, PartialEq, Eq)]
pub struct CheckResult {
    pub models: Vec<ModelResult>,
    pub sources: Vec<SourceResult>,
    pub exposures: Vec<ExposureResult>,
    pub model_changes: Vec<ModelChanges>,
}

pub struct CheckResultView {
    pub models: Seq<ModelResultView>,
    pub sources: Seq<SourceResultView>,
    pub exposures: Seq<ExposureResultView>,
    pub model_changes: Seq<ModelChangesView>,
}

impl View for CheckResult {
    type V = CheckResultView;

    open spec fn view(&self) -> CheckResultView {
        CheckResultView {
            models: self.models.deep_view(),
            sources: self.sources.deep_view(),
            exposures: self.exposures.deep_view(),
            model_changes: self.model_changes.deep_view(),
        }
    }
}

/// What is reported while a run goes on.
#[derive(Debug, Clone, Copy)]
pub enum CheckEvent<'a> {
    Model(&'a ModelResult),
    Source(&'a SourceResult),
    Exposure(&'a ExposureResult),
}

pub open spec fn failing_model() -> spec_fn(ModelResultView) -> bool {
    |r: ModelResultView| !r.is_pass()
}

pub open spec fn failing_source() -> spec_fn(SourceResultView) -> bool {
    |r: SourceResultView| !r.is_pass()
}

impl CheckResultView {
    /// Whether a model, a source table or an exposure fails.
    pub open spec fn has_failures(self) -> bool {
        ||| exists|i: int| 0 <= i < self.models.len() && !(#[trigger] self.models[i]).is_pass()
        ||| exists|i: int| 0 <= i < self.sources.len() && !(#[trigger] self.sources[i]).is_pass()
        ||| exists|i: int|
            0 <= i < self.exposures.len() && !(#[trigger] self.exposures[i]).is_pass()
    }

    pub open spec fn model_ids(self) -> Seq<Seq<char>> {
        Seq::new(self.models.len(), |i: int| self.models[i].model_id)
    }

    pub open spec fn source_ids(self) -> Seq<Seq<char>> {
        Seq::new(self.sources.len(), |i: int| self.sources[i].source_id)
    }

    /// The result of the model `id`.
    pub open spec fn model(self, id: Seq<char>) -> Option<ModelResultView> {
        if position(self.model_ids(), id) < self.models.len() {
            Some(self.models[position(self.model_ids(), id)])
        } else {
            None
        }
    }

    /// The result of the source table `id`.
    pub open spec fn source(self, id: Seq<char>) -> Option<SourceResultView> {
        if position(self.source_ids(), id) < self.sources.len() {
            Some(self.sources[position(self.source_ids(), id)])
        } else {
            None
        }
    }
}

impl CheckResult {
    pub fn has_failures(&self) -> (r: bool)
        ensures
            r == self@.has_failures(),
    {
        let ghost v = self@;
        let mut i: usize = 0;
        while i < self.models.len()
            invariant
                i <= self.models.len(),
                v == self@,
                forall|j: int| 0 <= j < i ==> (#[trigger] v.models[j]).is_pass(),
            decreases self.models.len() - i,
        {
            if self.models[i].is_failure() {
                assert(!v.models[i as int].is_pass());
                return true;
            }
            i = i + 1;
        }
        let mut k: usize = 0;
        while k < self.sources.len()
            invariant
                k <= self.sources.len(),
                v == self@,
                forall|j: int| 0 <= j < v.models.len() ==> (#[trigger] v.models[j]).is_pass(),
                forall|j: int| 0 <= j < k ==> (#[trigger] v.sources[j]).is_pass(),
            decreases self.sources.len() - k,
        {
            if self.sources[k].is_failure() {
                assert(!v.sources[k as int].is_pass());
                return true;
            }
            k = k + 1;
        }
        let mut e: usize = 0;
        while e < self.exposures.len()
            invariant
                e <= self.exposures.len(),
                v == self@,
                forall|j: int| 0 <= j < v.models.len() ==> (#[trigger] v.models[j]).is_pass(),
                forall|j: int| 0 <= j < v.sources.len() ==> (#[trigger] v.sources[j]).is_pass(),
                forall|j: int| 0 <= j < e ==> (#[trigger] v.exposures[j]).is_pass(),
            decreases self.exposures.len() - e,
        {
            if !self.exposures[e].is_pass() {
                assert(!v.exposures[e as int].is_pass());
                return true;
            }
            e = e + 1;
        }
        false
    }

    /// The results of the models that fail, in order.
    pub fn model_failures(&self) -> (r: Vec<&ModelResult>)
        ensures
            r.deep_view() == self@.models.filter(failing_model()),
    {
        let ghost all = self@.models;
        let ghost pred = failing_model();
        let mut out: Vec<&ModelResult> = Vec::new();
        let mut i: usize = 0;
        assert(all.take(0).filter(pred) =~= Seq::empty()) by {
            reveal(Seq::filter);
        }
        while i < self.models.len()
            invariant
                i <= self.models.len(),
                all == self@.models,
                pred == failing_model(),
                out.deep_view() == all.take(i as int).filter(pred),
            decreases self.models.len() - i,
        {
            proof {
                lemma_filter_step(all, pred, i as int);
            }
            if self.models[i].is_failure() {
                let ghost before = out.deep_view();
                out.push(&self.models[i]);
                assert(out.deep_view() =~= before.push(all[i as int]));
            }
            i = i + 1;
        }
        assert(all.take(self.models.len() as int) =~= all);
        out
    }

    /// The results of the source tables that fail, in order.
    pub fn source_failures(&self) -> (r: Vec<&SourceResult>)
        ensures
            r.deep_view() == self@.sources.filter(failing_source()),
    {
        let ghost all = self@.sources;
        let ghost pred = failing_source();
        let mut out: Vec<&SourceResult> = Vec::new();
        let mut i: usize = 0;
        assert(all.take(0).filter(pred) =~= Seq::empty()) by {
            reveal(Seq::filter);
        }
        while i < self.sources.len()
            invariant
                i <= self.sources.len(),
                all == self@.sources,
                pred == failing_source(),
                out.deep_view() == all.take(i as int).filter(pred),
            decreases self.sources.len() - i,
        {
            proof {
                lemma_filter_step(all, pred, i as int);
            }
            if self.sources[i].is_failure() {
                let ghost before = out.deep_view();
                out.push(&self.sources[i]);
                assert(out.deep_view() =~= before.push(all[i as int]));
            }
            i = i + 1;
        }
        assert(all.take(self.sources.len() as int) =~= all);
        out
    }

    /// The result of the model `id`.
    pub fn model(&self, id: &str) -> (r: Option<&ModelResult>)
        ensures
            r.deep_view() == self@.model(id@),
    {
        let key = id.to_owned();
        let ghost ids = self@.model_ids();
        let mut i: usize = 0;
        while i < self.models.len()
            invariant
                i <= self.models.len(),
                key@ == id@,
                ids == self@.model_ids(),
                forall|j: int| 0 <= j < i ==> #[trigger] ids[j] != id@,
            decreases self.models.len() - i,
        {
            if self.models[i].model_id == key {
                proof {
                    lemma_position_is(ids, id@, i as int);
                }
                return Some(&self.models[i]);
            }
            i = i + 1;
        }
        proof {
            lemma_position_is(ids, id@, i as int);
        }
        None
    }

    /// The result of the source table `id`.
    pub fn source(&self, id: &str) -> (r: Option<&SourceResult>)
        ensures
            r.deep_view() == self@.source(id@),
    {
        let key = id.to_owned();
        let ghost ids = self@.source_ids();
        let mut i: usize = 0;
        while i < self.sources.len()
            invariant
                i <= self.sources.len(),
                key@ == id@,
                ids == self@.source_ids(),
                forall|j: int| 0 <= j < i ==> #[trigger] ids[j] != id@,
            decreases self.sources.len() - i,
        {
            if self.sources[i].source_id == key {
                proof {
                    lemma_position_is(ids, id@, i as int);
                }
                return Some(&self.sources[i]);
            }
            i = i + 1;
        }
        proof {
            lemma_position_is(ids, id@, i as int);
        }
        None
    }

    /// The changes of the model `id`, if it has any.
    pub fn changes_of(&self, id: &str) -> (r: Option<&ModelChanges>)
        ensures
            r.deep_view() == crate::osmosis::changes_of(self@.model_changes, id@),
    {
        crate::osmosis::find_changes(&self.model_changes, &id.to_owned())
    }
}

/// Whether `id` names a model.
pub open spec fn is_model(m: ManifestView, id: Seq<char>) -> bool {
    m.node(id) matches Some(n) && n.kind == NodeKind::Model
}

/// How far the evaluation of the models has come: the results so far, and
/// the changes that are final.
pub struct Progress {
    pub results: Seq<ModelResultView>,
    pub finalized: Seq<ModelChangesView>,
}

/// The progress after one more id of the order: a model is evaluated with
/// the changes that are final by then, and its own changes become final;
/// any other node is passed over.
pub open spec fn step(
    m: ManifestView,
    g: GraphView,
    generated: Seq<GeneratedFileView>,
    config: ConfigView,
    before: Progress,
    id: Seq<char>,
) -> Progress {
    if is_model(m, id) {
        let result = model_result(m, g, generated, id, before.finalized, config);
        Progress {
            results: before.results.push(result),
            finalized: match result.changes {
                Some(changes) => before.finalized.push(changes),
                None => before.finalized,
            },
        }
    } else {
        before
    }
}

/// The progress after the first `n` ids of `order`.
pub open spec fn run_models(
    m: ManifestView,
    g: GraphView,
    generated: Seq<GeneratedFileView>,
    config: ConfigView,
    order: Seq<Seq<char>>,
    n: int,
) -> Progress
    decreases n,
{
    if n <= 0 {
        Progress { results: Seq::empty(), finalized: Seq::empty() }
    } else {
        step(m, g, generated, config, run_models(m, g, generated, config, order, n - 1), order[n - 1])
    }
}

/// The outcome of a run over the node set `m`: the results and the
/// changes that the run arrives at, each list in ascending order of ids,
/// as a map from id hands them out.
pub open spec fn check_result(
    m: ManifestView,
    generated: Seq<GeneratedFileView>,
    config: ConfigView,
) -> CheckResultView {
    let done = run_models(
        m,
        graph_of(m.child_map),
        generated,
        config,
        dag_order(m),
        dag_order(m).len() as int,
    );
    CheckResultView {
        models: arranged(done.results, model_result_order()),
        sources: arranged(source_results(m, config), source_result_order()),
        exposures: arranged(exposure_results(m, config), exposure_result_order()),
        model_changes: by_model(done.finalized),
    }
}

/// Runs all rules over the node set. No backing file counts as generated.
pub fn check_all(manifest: &Manifest, config: &Config) -> (r: CheckResult)
    ensures
        r@ == check_result(manifest@, Seq::empty(), config@),
{
    let generated: Vec<GeneratedFile> = Vec::new();
    assert(generated.deep_view() =~= Seq::empty());
    check_all_with_generated(manifest, config, &generated)
}

/// Runs all rules over the node set; `generated` holds the backing files
/// that were generated for models that had none.
pub fn check_all_with_generated(
    manifest: &Manifest,
    config: &Config,
    generated: &Vec<GeneratedFile>,
) -> (r: CheckResult)
    ensures
        r@ == check_result(manifest@, generated.deep_view(), config@),
{
    let quiet = |event: CheckEvent<'_>| {};
    check_all_with_report(manifest, config, generated, quiet)
}

/// Runs all rules over the node set and hands every result to `reporter`
/// as soon as it is final: the models in dependency order, then the
/// source tables, then the exposures.
pub fn check_all_with_report<F: FnMut(CheckEvent<'_>)>(
    manifest: &Manifest,
    config: &Config,
    generated: &Vec<GeneratedFile>,
    mut reporter: F,
) -> (r: CheckResult)
    requires
        forall|event: CheckEvent<'_>| #[trigger] reporter.requires((event,)),
    ensures
        r@ == check_result(manifest@, generated.deep_view(), config@),
{
    let graph = DbtGraph::from(manifest);
    let order = nodes_in_dag_order(manifest);
    let ghost m = manifest@;
    let ghost g = graph@;
    let ghost made = generated.deep_view();
    let ghost ids = order.deep_view();
    let mut models: Vec<ModelResult> = Vec::new();
    let mut accumulated: Vec<ModelChanges> = Vec::new();
    assert(models.deep_view() =~= Seq::empty());
    assert(accumulated.deep_view() =~= Seq::empty());
    let mut i: usize = 0;
    while i < order.len()
        invariant
            i <= order.len(),
            m == manifest@,
            g == graph@,
            made == generated.deep_view(),
            ids == order.deep_view(),
            forall|event: CheckEvent<'_>| #[trigger] reporter.requires((event,)),
            models.deep_view() == run_models(m, g, made, config@, ids, i as int).results,
            accumulated.deep_view() == run_models(m, g, made, config@, ids, i as int).finalized,
        decreases order.len() - i,
    {
        let id = &order[i];
        assert(ids[i as int] == id@);
        let is_model = match manifest.node(id) {
            Some(n) => match n.kind {
                NodeKind::Model => true,
                _ => false,
            },
            None => false,
        };
        if is_model {
            let result = check_model(manifest, &graph, generated, id.as_str(), &accumulated, config);
            match &result.changes {
                Some(changes) => {
                    let ghost before = accumulated.deep_view();
                    let copy = changes.duplicate();
                    accumulated.push(copy);
                    assert(accumulated.deep_view() =~= before.push(copy@));
                },
                None => {},
            }
            reporter(CheckEvent::Model(&result));
            let ghost so_far = models.deep_view();
            models.push(result);
            assert(models.deep_view() =~= so_far.push(result@));
        }
        i = i + 1;
    }
    let sources = check_sources(manifest, config);
    let mut s: usize = 0;
    while s < sources.len()
        invariant
            s <= sources.len(),
            forall|event: CheckEvent<'_>| #[trigger] reporter.requires((event,)),
        decreases sources.len() - s,
    {
        reporter(CheckEvent::Source(&sources[s]));
        s = s + 1;
    }
    let exposures = check_exposures(manifest, config);
    let mut e: usize = 0;
    while e < exposures.len()
        invariant
            e <= exposures.len(),
            forall|event: CheckEvent<'_>| #[trigger] reporter.requires((event,)),
        decreases exposures.len() - e,
    {
        reporter(CheckEvent::Exposure(&exposures[e]));
        e = e + 1;
    }
    assert(order.len() == ids.len());
    CheckResult {
        models: sort_model_results(&models),
        sources: sort_source_results(&sources),
        exposures: sort_exposure_results(&exposures),
        model_changes: sort_changes(&accumulated),
    }
}

} // verus!
