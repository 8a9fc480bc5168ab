//! What holds of a whole run: the changes that are final at any point of
//! it were recorded by models that were evaluated before, and only for
//! columns that lacked a description.

use vstd::prelude::*;
use crate::text::position;
use crate::text::lemma_position;
use crate::text::lemma_position_is;
use crate::text::description_missing;
use crate::text::is_blank_or_marker;
use crate::config::ConfigView;
use crate::config::Selector;
use crate::manifest::ManifestView;
use crate::manifest::NodeView;
use crate::manifest::NodeKind;
use crate::manifest::names_of_columns;
use crate::graph::GraphView;
use crate::graph::graph_of;
use crate::change_descriptors::ModelChangesView;
use crate::osmosis::finalized_ids;
use crate::osmosis::changes_of;
use crate::osmosis::finalized_description;
use crate::osmosis::static_column;
use crate::check::is_model;
use crate::check::run_models;
use crate::check::columns::ColumnVerdict;
use crate::check::columns::ColumnResultView;
use crate::check::columns::verdict_at;
use crate::check::columns::column_results;
use crate::check::columns::results_in_column_order;
use crate::check::columns::result_order;
use crate::check::columns::lemma_result_order;
use crate::check::columns::lemma_result_of_column;
use crate::check::columns::lemma_column_has_result;
use crate::sorting::lemma_arranged;
use crate::sorting::ascending;
use crate::check::columns::fixed_column;
use crate::check::models::GeneratedFileView;
use crate::check::models::noted_columns;
use crate::check::models::changed_names;
use crate::check::models::settled;
use crate::check::models::evaluated;
use crate::check::models::model_result;
use crate::check::order::dag_order;
use crate::check::order::dag_positions;
use crate::check::order::lemma_order_after;
use crate::check::order::lemma_dag_order_complete;
use crate::check::check_result;
use crate::lists::among;
use crate::lists::present;
use crate::text::lemma_first_some_is;
use crate::osmosis::payload_description;
use crate::osmosis::payload_candidate;
use crate::writeback::properties::ColumnPropertyView;
use crate::writeback::properties::column_names;
use crate::writeback::properties::changed_column;
use crate::writeback::properties::changed_columns;
use crate::writeback::properties::model_difference;
use crate::check::models::missing_properties_file_rule;
use crate::check::models::separate_file_rule;
use crate::check::models::property_payload;
use crate::check::models::model_level_changes;
use crate::check::models::fixed_model;

verus! {

/// The changes that are final in a run over `m` once the first `n` ids of
/// the order are done.
pub open spec fn finalized_at(
    m: ManifestView,
    generated: Seq<GeneratedFileView>,
    config: ConfigView,
    n: int,
) -> Seq<ModelChangesView> {
    run_models(m, graph_of(m.child_map), generated, config, dag_order(m), n).finalized
}

/// Whether `changes` are what the model at place `j` of the order, one of
/// the first `n`, recorded when it was evaluated.
pub open spec fn recorded_at(
    m: ManifestView,
    g: GraphView,
    generated: Seq<GeneratedFileView>,
    config: ConfigView,
    order: Seq<Seq<char>>,
    n: int,
    j: int,
    changes: ModelChangesView,
) -> bool {
    &&& 0 <= j < n
    &&& is_model(m, order[j])
    &&& model_result(
        m,
        g,
        generated,
        order[j],
        run_models(m, g, generated, config, order, j).finalized,
        config,
    ).changes == Some(changes)
}

/// All that is final after `n` ids was recorded by a model among them.
pub proof fn lemma_finalized_were_recorded(
    m: ManifestView,
    g: GraphView,
    generated: Seq<GeneratedFileView>,
    config: ConfigView,
    order: Seq<Seq<char>>,
    n: int,
    k: int,
)
    requires
        0 <= n <= order.len(),
        0 <= k < run_models(m, g, generated, config, order, n).finalized.len(),
    ensures
        exists|j: int|
            #[trigger] recorded_at(
                m,
                g,
                generated,
                config,
                order,
                n,
                j,
                run_models(m, g, generated, config, order, n).finalized[k],
            ),
    decreases n,
{
    if n > 0 {
        let before = run_models(m, g, generated, config, order, n - 1);
        let now = run_models(m, g, generated, config, order, n);
        if k < before.finalized.len() {
            lemma_finalized_were_recorded(m, g, generated, config, order, n - 1, k);
            let j = choose|j: int| #[trigger]
                recorded_at(m, g, generated, config, order, n - 1, j, before.finalized[k]);
            assert(now.finalized[k] == before.finalized[k]);
            assert(recorded_at(m, g, generated, config, order, n, j, now.finalized[k]));
        } else {
            assert(recorded_at(m, g, generated, config, order, n, n - 1, now.finalized[k]));
        }
    }
}

/// Every column for which changes are noted has a result with changes.
pub proof fn lemma_noted_column_has_changes(results: Seq<ColumnResultView>, s: int)
    requires
        0 <= s < noted_columns(results).len(),
    ensures
        exists|i: int|
            0 <= i < results.len() && (#[trigger] results[i]).column_name == noted_columns(
                results,
            )[s].column_name && results[i].changes.len() > 0,
    decreases results.len(),
{
    if results.len() > 0 {
        let rest = results.drop_last();
        let last = results.last();
        if s < noted_columns(rest).len() {
            lemma_noted_column_has_changes(rest, s);
            let i = choose|i: int|
                0 <= i < rest.len() && (#[trigger] rest[i]).column_name == noted_columns(
                    rest,
                )[s].column_name && rest[i].changes.len() > 0;
            assert(results[i] == rest[i]);
        } else {
            assert(results[results.len() - 1] == last);
        }
    }
}

/// A model records column changes only for columns that lack a description.
pub proof fn lemma_recorded_column_lacked_description(
    m: ManifestView,
    g: GraphView,
    generated: Seq<GeneratedFileView>,
    finalized: Seq<ModelChangesView>,
    loaded: NodeView,
    config: ConfigView,
    s: int,
)
    requires
        evaluated(m, g, generated, finalized, loaded, config).changes matches Some(c) && 0 <= s
            < c.column_changes.len(),
    ensures
        exists|i: int|
            0 <= i < loaded.columns.len() && (#[trigger] loaded.columns[i]).name == evaluated(
                m,
                g,
                generated,
                finalized,
                loaded,
                config,
            ).changes->0.column_changes[s].column_name && description_missing(
                loaded.columns[i].description,
                config.invalid_descriptions,
            ),
{
    let working = settled(generated, loaded, config);
    assert(working.columns == loaded.columns);
    let results = column_results(m, finalized, loaded, working, config);
    lemma_noted_column_has_changes(results, s);
    let k = choose|k: int|
        0 <= k < results.len() && (#[trigger] results[k]).column_name == noted_columns(
            results,
        )[s].column_name && results[k].changes.len() > 0;
    let i = lemma_result_of_column(m, finalized, loaded, working, config, k);
    assert(verdict_at(m, finalized, loaded, config, i) is Fix);
    assert(loaded.columns[i].name == results[k].column_name);
}

/// While a run goes on, nothing is final for a column that has a valid
/// description in the node set, provided that no two columns of its node
/// share a name.
pub proof fn lemma_described_column_is_never_finalized(
    m: ManifestView,
    g: GraphView,
    generated: Seq<GeneratedFileView>,
    config: ConfigView,
    order: Seq<Seq<char>>,
    n: int,
    producer: Seq<char>,
    column: Seq<char>,
)
    requires
        0 <= n <= order.len(),
        m.node(producer) matches Some(p) ==> p.column_names().no_duplicates(),
        static_column(m, producer, column) matches Some(c) && c.description matches Some(d)
            && !is_blank_or_marker(d, config.invalid_descriptions),
    ensures
        finalized_description(
            run_models(m, g, generated, config, order, n).finalized,
            producer,
            column,
        ) is None,
{
    let finalized = run_models(m, g, generated, config, order, n).finalized;
    lemma_position(finalized_ids(finalized), producer);
    if changes_of(finalized, producer) is Some {
        let k = position(finalized_ids(finalized), producer);
        let entry = finalized[k];
        assert(finalized_ids(finalized)[k] == entry.model_id);
        lemma_finalized_were_recorded(m, g, generated, config, order, n, k);
        let j = choose|j: int| #[trigger] recorded_at(m, g, generated, config, order, n, j, entry);
        let earlier = run_models(m, g, generated, config, order, j).finalized;
        lemma_position(m.node_ids(), order[j]);
        let p = m.node(order[j])->0;
        assert(m.node_ids()[m.node_position(order[j])] == p.unique_id);
        assert(p.unique_id == order[j]);
        assert(evaluated(m, g, generated, earlier, p, config).changes == Some(entry));
        assert(entry.model_id == producer);
        assert(m.node(producer) == Some(p));
        lemma_position(entry.changed_columns(), column);
        if entry.column_changes_for(column) is Some {
            let s = position(entry.changed_columns(), column);
            assert(entry.changed_columns()[s] == entry.column_changes[s].column_name);
            lemma_recorded_column_lacked_description(m, g, generated, earlier, p, config, s);
            let i = choose|i: int|
                0 <= i < p.columns.len() && (#[trigger] p.columns[i]).name
                    == entry.column_changes[s].column_name && description_missing(
                    p.columns[i].description,
                    config.invalid_descriptions,
                );
            let names = names_of_columns(p.columns);
            lemma_position(names, column);
            assert(names[i] == column);
            let t = position(names, column);
            assert(names =~= p.column_names());
            assert(t == i);
            assert(false);
        }
    }
}

/// While a run goes on, nothing is final for a column that the node set
/// does not hold.
pub proof fn lemma_absent_column_is_never_finalized(
    m: ManifestView,
    g: GraphView,
    generated: Seq<GeneratedFileView>,
    config: ConfigView,
    order: Seq<Seq<char>>,
    n: int,
    producer: Seq<char>,
    column: Seq<char>,
)
    requires
        0 <= n <= order.len(),
        static_column(m, producer, column) is None,
    ensures
        finalized_description(
            run_models(m, g, generated, config, order, n).finalized,
            producer,
            column,
        ) is None,
{
    let finalized = run_models(m, g, generated, config, order, n).finalized;
    lemma_position(finalized_ids(finalized), producer);
    if changes_of(finalized, producer) is Some {
        let k = position(finalized_ids(finalized), producer);
        let entry = finalized[k];
        assert(finalized_ids(finalized)[k] == entry.model_id);
        lemma_finalized_were_recorded(m, g, generated, config, order, n, k);
        let j = choose|j: int| #[trigger] recorded_at(m, g, generated, config, order, n, j, entry);
        let earlier = run_models(m, g, generated, config, order, j).finalized;
        lemma_position(m.node_ids(), order[j]);
        let p = m.node(order[j])->0;
        assert(m.node_ids()[m.node_position(order[j])] == p.unique_id);
        assert(evaluated(m, g, generated, earlier, p, config).changes == Some(entry));
        assert(m.node(producer) == Some(p));
        lemma_position(entry.changed_columns(), column);
        if entry.column_changes_for(column) is Some {
            let s = position(entry.changed_columns(), column);
            assert(entry.changed_columns()[s] == entry.column_changes[s].column_name);
            lemma_recorded_column_lacked_description(m, g, generated, earlier, p, config, s);
            let i = choose|i: int|
                0 <= i < p.columns.len() && (#[trigger] p.columns[i]).name
                    == entry.column_changes[s].column_name && description_missing(
                    p.columns[i].description,
                    config.invalid_descriptions,
                );
            let names = names_of_columns(p.columns);
            lemma_position(names, column);
            assert(names[i] == column);
            assert(false);
        }
    }
}

/// In a run, a column takes the description of its unique producer
/// exactly: when one direct dependency of a model has the column with a
/// description that is neither blank nor an invalid marker, no other
/// direct dependency has the column, the rule on column descriptions may
/// be fixed and descriptions are written verbatim, then at whatever point
/// of the run the model is evaluated, its column that lacks a description
/// is fixed, and its working copy holds the producer's description.
pub proof fn lemma_run_takes_producer_description(
    m: ManifestView,
    generated: Seq<GeneratedFileView>,
    config: ConfigView,
    model: NodeView,
    i: int,
    k: int,
    d: Seq<char>,
    n: int,
)
    requires
        m.node(model.unique_id) == Some(model),
        model.kind == NodeKind::Model,
        0 <= i < model.columns.len(),
        description_missing(model.columns[i].description, config.invalid_descriptions),
        0 <= k < model.depends_on.len(),
        m.node(model.depends_on[k]) matches Some(p) ==> p.column_names().no_duplicates(),
        static_column(m, model.depends_on[k], model.columns[i].name) matches Some(c)
            && c.description == Some(d),
        !is_blank_or_marker(d, config.invalid_descriptions),
        forall|j: int|
            0 <= j < model.depends_on.len() && j != k ==> static_column(
                m,
                #[trigger] model.depends_on[j],
                model.columns[i].name,
            ) is None,
        config.render_descriptions,
        config.can_fix(Selector::MissingColumnDescriptions),
        0 <= n <= dag_order(m).len(),
    ensures
        verdict_at(m, finalized_at(m, generated, config, n), model, config, i)
            == ColumnVerdict::Fix(d),
        fixed_column(
            verdict_at(m, finalized_at(m, generated, config, n), model, config, i),
            model.columns[i],
        ).description == Some(d),
{
    let g = graph_of(m.child_map);
    let order = dag_order(m);
    let finalized = finalized_at(m, generated, config, n);
    let deps = model.depends_on;
    let name = model.columns[i].name;
    let markers = config.invalid_descriptions;
    let first = Seq::new(deps.len(), |j: int| finalized_description(finalized, deps[j], name));
    let second = Seq::new(
        deps.len(),
        |j: int| crate::osmosis::static_description(m, deps[j], name, markers),
    );
    assert forall|j: int| 0 <= j < deps.len() implies (#[trigger] first[j]) is None by {
        if j == k {
            lemma_described_column_is_never_finalized(
                m,
                g,
                generated,
                config,
                order,
                n,
                deps[k],
                name,
            );
        } else {
            assert(static_column(m, deps[j], name) is None);
            lemma_absent_column_is_never_finalized(
                m,
                g,
                generated,
                config,
                order,
                n,
                deps[j],
                name,
            );
        }
    }
    lemma_first_some_is(first, deps.len() as int);
    assert forall|j: int| 0 <= j < k implies (#[trigger] second[j]) is None by {
        assert(static_column(m, deps[j], name) is None);
    }
    assert(second[k] == Some(d));
    lemma_first_some_is(second, k);
    assert(crate::osmosis::finalized_pass(finalized, deps, name) is None);
    assert(crate::osmosis::static_pass(m, deps, name, markers) == Some(d));
    assert(crate::osmosis::upstream_description(m, finalized, model.unique_id, name, config)
        == Some(d));
}

/// What a model records bears its id.
pub proof fn lemma_recorded_under_its_id(
    m: ManifestView,
    g: GraphView,
    generated: Seq<GeneratedFileView>,
    config: ConfigView,
    order: Seq<Seq<char>>,
    n: int,
    j: int,
    changes: ModelChangesView,
)
    requires
        recorded_at(m, g, generated, config, order, n, j, changes),
    ensures
        changes.model_id == order[j],
{
    lemma_position(m.node_ids(), order[j]);
}

/// What is final of a model that had its turn is what it recorded then:
/// nothing later takes its place.
pub proof fn lemma_finalized_of_earlier_model(
    m: ManifestView,
    g: GraphView,
    generated: Seq<GeneratedFileView>,
    config: ConfigView,
    order: Seq<Seq<char>>,
    n: int,
    t: int,
)
    requires
        order.no_duplicates(),
        0 <= t < n <= order.len(),
        is_model(m, order[t]),
    ensures
        changes_of(run_models(m, g, generated, config, order, n).finalized, order[t])
            == model_result(
            m,
            g,
            generated,
            order[t],
            run_models(m, g, generated, config, order, t).finalized,
            config,
        ).changes,
    decreases n,
{
    let before = run_models(m, g, generated, config, order, n - 1).finalized;
    let now = run_models(m, g, generated, config, order, n).finalized;
    let id = order[t];
    let last = order[n - 1];
    let result = model_result(m, g, generated, last, before, config);
    lemma_position(finalized_ids(before), id);
    lemma_position(m.node_ids(), last);
    if t < n - 1 {
        lemma_finalized_of_earlier_model(m, g, generated, config, order, n - 1, t);
        if changes_of(before, id) is Some {
            let p = position(finalized_ids(before), id);
            assert forall|j: int| 0 <= j < p implies finalized_ids(now)[j] != id by {
                assert(finalized_ids(before)[j] != id);
                assert(now[j] == before[j]);
            }
            assert(now[p] == before[p]);
            lemma_position_is(finalized_ids(now), id, p);
        } else {
            assert(last != id);
            assert forall|j: int| 0 <= j < now.len() implies finalized_ids(now)[j] != id by {
                if j < before.len() {
                    assert(finalized_ids(before)[j] != id);
                    assert(now[j] == before[j]);
                }
            }
            lemma_position_is(finalized_ids(now), id, now.len() as int);
        }
    } else {
        assert forall|k: int| 0 <= k < before.len() implies finalized_ids(before)[k] != id by {
            lemma_finalized_were_recorded(m, g, generated, config, order, n - 1, k);
            let j = choose|j: int| #[trigger]
                recorded_at(m, g, generated, config, order, n - 1, j, before[k]);
            lemma_recorded_under_its_id(m, g, generated, config, order, n - 1, j, before[k]);
            assert(order[j] != order[t]);
        }
        lemma_position_is(finalized_ids(before), id, before.len() as int);
        match result.changes {
            Some(c) => {
                assert(now == before.push(c));
                assert forall|k: int| 0 <= k < before.len() implies finalized_ids(now)[k]
                    != id by {
                    assert(finalized_ids(before)[k] != id);
                }
                lemma_position_is(finalized_ids(now), id, before.len() as int);
            },
            None => {
                assert(now == before);
            },
        }
    }
}

/// Whether no two results are for columns of one name.
pub open spec fn distinct_results(results: Seq<ColumnResultView>) -> bool {
    forall|i: int, j: int|
        0 <= i < j < results.len() ==> (#[trigger] results[i]).column_name
            != (#[trigger] results[j]).column_name
}

/// The changes of a column are noted under its name, as its result has
/// them, when no other column has that name.
pub proof fn lemma_changed_column_is_noted(results: Seq<ColumnResultView>, t: int)
    requires
        0 <= t < results.len(),
        results[t].changes.len() > 0,
        distinct_results(results),
    ensures
        position(changed_names(noted_columns(results)), results[t].column_name)
            < noted_columns(results).len(),
        noted_columns(results)[position(
            changed_names(noted_columns(results)),
            results[t].column_name,
        )].changes == results[t].changes,
    decreases results.len(),
{
    let rest = results.drop_last();
    let last = results.last();
    let name = results[t].column_name;
    let before = noted_columns(rest);
    let now = noted_columns(results);
    lemma_position(changed_names(before), name);
    if t < results.len() - 1 {
        assert(rest[t] == results[t]);
        lemma_changed_column_is_noted(rest, t);
        let p = position(changed_names(before), name);
        assert forall|j: int| 0 <= j < p implies changed_names(now)[j] != name by {
            assert(changed_names(before)[j] != name);
            assert(now[j] == before[j]);
        }
        assert(now[p] == before[p]);
        assert(changed_names(now)[p] == changed_names(before)[p]);
        lemma_position_is(changed_names(now), name, p);
    } else {
        assert forall|s: int| 0 <= s < before.len() implies changed_names(before)[s]
            != name by {
            lemma_noted_column_has_changes(rest, s);
            let i = choose|i: int|
                0 <= i < rest.len() && (#[trigger] rest[i]).column_name
                    == before[s].column_name && rest[i].changes.len() > 0;
            assert(rest[i] == results[i]);
        }
        assert(!changed_names(before).contains(name));
        assert(now == before.push(
            crate::change_descriptors::ColumnChangeSetView {
                column_name: name,
                changes: last.changes,
            },
        ));
        assert forall|s: int| 0 <= s < before.len() implies changed_names(now)[s] != name by {
            assert(changed_names(before)[s] != name);
        }
        assert(changed_names(now)[before.len() as int] == name);
        lemma_position_is(changed_names(now), name, before.len() as int);
    }
}

/// Among blocks that carry the names of distinct columns, the block of a
/// column is found under its name.
pub proof fn lemma_block_is_found(
    blocks: Seq<Option<ColumnPropertyView>>,
    names: Seq<Seq<char>>,
    t: int,
)
    requires
        blocks.len() == names.len(),
        names.no_duplicates(),
        forall|i: int|
            0 <= i < blocks.len() ==> ((#[trigger] blocks[i]) matches Some(b) ==> b.name
                == names[i]),
        0 <= t < blocks.len(),
        blocks[t] is Some,
    ensures
        position(column_names(present(blocks)), names[t]) < present(blocks).len(),
        present(blocks)[position(column_names(present(blocks)), names[t])] == blocks[t]->0,
        forall|s: int|
            0 <= s < present(blocks).len() ==> names.contains(
                #[trigger] column_names(present(blocks))[s],
            ),
    decreases blocks.len(),
{
    let rest = blocks.drop_last();
    let rest_names = names.drop_last();
    let before = present(rest);
    let now = present(blocks);
    let name = names[t];
    let last = blocks.len() - 1;
    assert forall|i: int| 0 <= i < rest.len() implies ((#[trigger] rest[i]) matches Some(b)
        ==> b.name == rest_names[i]) by {
        assert(rest[i] == blocks[i]);
    }
    lemma_present_names(rest, rest_names);
    assert forall|s: int| 0 <= s < now.len() implies names.contains(
        #[trigger] column_names(now)[s],
    ) by {
        if s < before.len() {
            assert(now[s] == before[s]);
            let i = choose|i: int|
                0 <= i < rest_names.len() && rest_names[i] == column_names(before)[s];
            assert(names[i] == rest_names[i]);
        } else {
            assert(now[s] == blocks[last]->0);
            assert(names[last] == column_names(now)[s]);
        }
    }
    if t < last {
        assert(rest[t] == blocks[t]);
        lemma_block_is_found(rest, rest_names, t);
        let p = position(column_names(before), name);
        lemma_position(column_names(before), name);
        assert forall|j: int| 0 <= j < p implies column_names(now)[j] != name by {
            assert(column_names(before)[j] != name);
            assert(now[j] == before[j]);
        }
        assert(now[p] == before[p]);
        assert(column_names(now)[p] == name);
        lemma_position_is(column_names(now), name, p);
    } else {
        assert(now == before.push(blocks[t]->0));
        assert forall|s: int| 0 <= s < before.len() implies column_names(now)[s] != name by {
            assert(now[s] == before[s]);
            let i = choose|i: int|
                0 <= i < rest_names.len() && rest_names[i] == column_names(before)[s];
            assert(names[i] == rest_names[i]);
        }
        assert(column_names(now)[before.len() as int] == name);
        lemma_position_is(column_names(now), name, before.len() as int);
    }
}

proof fn lemma_present_names(blocks: Seq<Option<ColumnPropertyView>>, names: Seq<Seq<char>>)
    requires
        blocks.len() == names.len(),
        forall|i: int|
            0 <= i < blocks.len() ==> ((#[trigger] blocks[i]) matches Some(b) ==> b.name
                == names[i]),
    ensures
        forall|s: int|
            0 <= s < present(blocks).len() ==> names.contains(
                #[trigger] column_names(present(blocks))[s],
            ),
    decreases blocks.len(),
{
    if blocks.len() > 0 {
        let rest = blocks.drop_last();
        let rest_names = names.drop_last();
        let last = blocks.len() - 1;
        assert forall|i: int| 0 <= i < rest.len() implies ((#[trigger] rest[i]) matches Some(b)
            ==> b.name == rest_names[i]) by {
            assert(rest[i] == blocks[i]);
        }
        lemma_present_names(rest, rest_names);
        let before = present(rest);
        let now = present(blocks);
        assert forall|s: int| 0 <= s < now.len() implies names.contains(
            #[trigger] column_names(now)[s],
        ) by {
            if s < before.len() {
                assert(now[s] == before[s]);
                assert(rest_names.contains(column_names(before)[s]));
                let i = choose|i: int|
                    0 <= i < rest_names.len() && rest_names[i] == column_names(before)[s];
                assert(names[i] == rest_names[i]);
            } else {
                assert(now[s] == blocks[last]->0);
                assert(names[last] == column_names(now)[s]);
            }
        }
    }
}

/// The results of a model with distinct column names are for distinct
/// columns.
pub proof fn lemma_results_are_distinct(
    m: ManifestView,
    generated: Seq<GeneratedFileView>,
    finalized: Seq<ModelChangesView>,
    loaded: NodeView,
    config: ConfigView,
)
    requires
        loaded.column_names().no_duplicates(),
    ensures
        distinct_results(
            column_results(m, finalized, loaded, settled(generated, loaded, config), config),
        ),
        column_results(
            m,
            finalized,
            loaded,
            settled(generated, loaded, config),
            config,
        ).len() == loaded.columns.len(),
{
    let working = settled(generated, loaded, config);
    assert(working.columns == loaded.columns);
    let results = column_results(m, finalized, loaded, working, config);
    let plain = results_in_column_order(m, finalized, loaded, working, config);
    assert forall|i: int, j: int| 0 <= i < plain.len() && 0 <= j < plain.len() && i
        != j implies plain[i] != plain[j] by {
        assert(loaded.column_names()[i] == plain[i].column_name);
        assert(loaded.column_names()[j] == plain[j].column_name);
    }
    lemma_result_order();
    lemma_arranged(plain, result_order());
    assert forall|i: int, j: int| 0 <= i < j < results.len() implies (#[trigger] results[i]).column_name
        != (#[trigger] results[j]).column_name by {
        let a = lemma_result_of_column(m, finalized, loaded, working, config, i);
        let b = lemma_result_of_column(m, finalized, loaded, working, config, j);
        assert(loaded.column_names()[a] == results[i].column_name);
        assert(loaded.column_names()[b] == results[j].column_name);
        if a == b {
            assert(results[i] == results[j]);
        }
    }
}

/// The payload that a model records gives each column that it fixed the
/// new description of that column.
pub proof fn lemma_payload_describes_fixed_column(
    m: ManifestView,
    generated: Seq<GeneratedFileView>,
    finalized: Seq<ModelChangesView>,
    loaded: NodeView,
    config: ConfigView,
    t: int,
    text: Seq<char>,
)
    requires
        loaded.column_names().no_duplicates(),
        0 <= t < loaded.columns.len(),
        verdict_at(m, finalized, loaded, config, t) == ColumnVerdict::Fix(text),
        !is_blank_or_marker(text, config.invalid_descriptions),
    ensures
        payload_description(
            model_level_changes(m, generated, finalized, loaded, config),
            loaded.columns[t].name,
        ) == Some(text),
{
    let name = loaded.columns[t].name;
    let working = settled(generated, loaded, config);
    assert(working.columns == loaded.columns);
    let results = column_results(m, finalized, loaded, working, config);
    lemma_results_are_distinct(m, generated, finalized, loaded, config);
    let at = lemma_column_has_result(m, finalized, loaded, working, config, t);
    lemma_changed_column_is_noted(results, at);
    let fixed = fixed_model(m, generated, finalized, loaded, config);
    assert(fixed.columns.len() == loaded.columns.len());
    assert(fixed.columns[t].description == Some(text));
    let blocks = Seq::new(
        fixed.columns.len(),
        |i: int| changed_column(loaded.columns, fixed.columns[i]),
    );
    let names = loaded.column_names();
    assert(names =~= names_of_columns(loaded.columns));
    assert forall|i: int| 0 <= i < blocks.len() implies ((#[trigger] blocks[i]) matches Some(b)
        ==> b.name == names[i]) by {
        assert(fixed.columns[i].name == loaded.columns[i].name);
    }
    assert(blocks[t] is Some && blocks[t]->0.description == Some(text)) by {
        assert forall|j: int| 0 <= j < t implies names[j] != name by {
            assert(names[t] == name);
        }
        lemma_position_is(names, name, t);
        assert(fixed.columns[t].name == name);
    }
    lemma_block_is_found(blocks, names, t);
    let difference = model_difference(loaded, fixed);
    assert(changed_columns(loaded.columns, fixed.columns) == present(blocks));
    assert(difference is Some);
    let payload = property_payload(m, generated, finalized, loaded, config);
    assert(payload is Some);
    let changes = model_level_changes(m, generated, finalized, loaded, config);
    let candidates = Seq::new(changes.len(), |i: int| payload_candidate(changes[i], name));
    let at = changes.len() - 1;
    assert(changes[at] == payload->0);
    assert(candidates[at] == Some(text));
    assert forall|j: int| 0 <= j < at implies (#[trigger] candidates[j]) is None by {
        let file = missing_properties_file_rule(loaded, config, generated).change;
        let moved = separate_file_rule(loaded, config).change;
        if file is Some {
            if j == 0 {
                assert(changes[0] == file->0);
            } else {
                assert(changes[1] == moved->0);
            }
        } else {
            assert(changes[0] == moved->0);
        }
    }
    lemma_first_some_is(candidates, at);
}

/// With distinct node ids, no id stands twice in the order of evaluation.
pub proof fn lemma_order_is_distinct(m: ManifestView)
    requires
        m.node_ids().no_duplicates(),
    ensures
        dag_order(m).no_duplicates(),
{
    let places = dag_positions(m);
    let order = dag_order(m);
    let ids = m.node_ids();
    lemma_dag_order_complete(m);
    lemma_order_after(m, m.nodes.len());
    assert forall|p: int, q: int| 0 <= p < order.len() && 0 <= q < order.len() && p
        != q implies order[p] != order[q] by {
        assert(0 <= places[p] < m.nodes.len());
        assert(0 <= places[q] < m.nodes.len());
        assert(ids[places[p]] == order[p]);
        assert(ids[places[q]] == order[q]);
        assert(places[p] != places[q]);
    }
}

/// While a run goes on, every result and every entry of what is final
/// bears the id of a node that had its turn, and no id is borne twice:
/// the lists are keyed by id as a map would be.
pub proof fn lemma_run_is_keyed(
    m: ManifestView,
    g: GraphView,
    generated: Seq<GeneratedFileView>,
    config: ConfigView,
    order: Seq<Seq<char>>,
    n: int,
)
    requires
        order.no_duplicates(),
        0 <= n <= order.len(),
    ensures
        forall|k: int|
            0 <= k < run_models(m, g, generated, config, order, n).results.len() ==> among(
                order,
                n,
                (#[trigger] run_models(m, g, generated, config, order, n).results[k]).model_id,
            ),
        forall|k: int|
            0 <= k < run_models(m, g, generated, config, order, n).finalized.len() ==> among(
                order,
                n,
                (#[trigger] run_models(m, g, generated, config, order, n).finalized[k]).model_id,
            ),
        Seq::new(
            run_models(m, g, generated, config, order, n).results.len(),
            |k: int| run_models(m, g, generated, config, order, n).results[k].model_id,
        ).no_duplicates(),
        finalized_ids(run_models(m, g, generated, config, order, n).finalized).no_duplicates(),
    decreases n,
{
    if n > 0 {
        lemma_run_is_keyed(m, g, generated, config, order, n - 1);
        let before = run_models(m, g, generated, config, order, n - 1);
        let now = run_models(m, g, generated, config, order, n);
        let id = order[n - 1];
        lemma_position(m.node_ids(), id);
        assert forall|k: int| 0 <= k < before.results.len() implies among(
            order,
            n,
            (#[trigger] before.results[k]).model_id,
        ) && before.results[k].model_id != id by {
            let x = before.results[k].model_id;
            assert(among(order, n - 1, x));
            let j = choose|j: int| 0 <= j < n - 1 && j < order.len() && #[trigger] order[j] == x;
            assert(order[j] == x);
        }
        assert forall|k: int| 0 <= k < before.finalized.len() implies among(
            order,
            n,
            (#[trigger] before.finalized[k]).model_id,
        ) && before.finalized[k].model_id != id by {
            let x = before.finalized[k].model_id;
            assert(among(order, n - 1, x));
            let j = choose|j: int| 0 <= j < n - 1 && j < order.len() && #[trigger] order[j] == x;
            assert(order[j] == x);
        }
        assert(order[n - 1] == id);
        assert(among(order, n, id));
        let ids = Seq::new(now.results.len(), |k: int| now.results[k].model_id);
        let ids_before = Seq::new(before.results.len(), |k: int| before.results[k].model_id);
        assert forall|k: int| 0 <= k < now.results.len() implies among(
            order,
            n,
            (#[trigger] now.results[k]).model_id,
        ) by {
            if k < before.results.len() {
                assert(now.results[k] == before.results[k]);
            }
        }
        assert forall|k: int| 0 <= k < now.finalized.len() implies among(
            order,
            n,
            (#[trigger] now.finalized[k]).model_id,
        ) by {
            if k < before.finalized.len() {
                assert(now.finalized[k] == before.finalized[k]);
            }
        }
        assert forall|a: int, b: int| 0 <= a < ids.len() && 0 <= b < ids.len() && a
            != b implies ids[a] != ids[b] by {
            if a < before.results.len() && b < before.results.len() {
                assert(ids_before[a] != ids_before[b]);
                assert(now.results[a] == before.results[a]);
                assert(now.results[b] == before.results[b]);
            } else if a < before.results.len() {
                assert(now.results[a] == before.results[a]);
            } else if b < before.results.len() {
                assert(now.results[b] == before.results[b]);
            }
        }
        let keys = finalized_ids(now.finalized);
        let keys_before = finalized_ids(before.finalized);
        assert forall|a: int, b: int| 0 <= a < keys.len() && 0 <= b < keys.len() && a
            != b implies keys[a] != keys[b] by {
            if a < before.finalized.len() && b < before.finalized.len() {
                assert(keys_before[a] != keys_before[b]);
                assert(now.finalized[a] == before.finalized[a]);
                assert(now.finalized[b] == before.finalized[b]);
            } else if a < before.finalized.len() {
                assert(now.finalized[a] == before.finalized[a]);
            } else if b < before.finalized.len() {
                assert(now.finalized[b] == before.finalized[b]);
            }
        }
    }
}

/// The outcome of a run over nodes with distinct ids is keyed by id: no
/// two results of models bear one id, and no two entries of the changes.
/// So are the results of source tables with distinct ids.
pub proof fn lemma_outcome_is_keyed(
    m: ManifestView,
    generated: Seq<GeneratedFileView>,
    config: ConfigView,
)
    requires
        m.node_ids().no_duplicates(),
    ensures
        check_result(m, generated, config).model_ids().no_duplicates(),
        finalized_ids(check_result(m, generated, config).model_changes).no_duplicates(),
        m.source_ids().no_duplicates() ==> check_result(
            m,
            generated,
            config,
        ).source_ids().no_duplicates(),
{
    lemma_order_is_distinct(m);
    let order = dag_order(m);
    lemma_run_is_keyed(m, graph_of(m.child_map), generated, config, order, order.len() as int);
    let outcome = check_result(m, generated, config);
    let done = run_models(
        m,
        graph_of(m.child_map),
        generated,
        config,
        order,
        order.len() as int,
    );
    crate::check::models::lemma_model_result_order();
    crate::check::sources::lemma_source_result_order();
    crate::writeback::changes::lemma_model_order();
    let model_key = |r: crate::check::models::ModelResultView| r.model_id;
    assert(Seq::new(done.results.len(), |i: int| model_key(done.results[i])) =~= Seq::new(
        done.results.len(),
        |k: int| done.results[k].model_id,
    ));
    crate::sorting::lemma_arranged_keys(
        done.results,
        crate::check::models::model_result_order(),
        model_key,
    );
    assert(outcome.model_ids() =~= Seq::new(
        outcome.models.len(),
        |i: int| model_key(outcome.models[i]),
    ));
    let change_key = |c: ModelChangesView| c.model_id;
    assert(Seq::new(done.finalized.len(), |i: int| change_key(done.finalized[i]))
        =~= finalized_ids(done.finalized));
    crate::sorting::lemma_arranged_keys(
        done.finalized,
        crate::writeback::changes::model_order(),
        change_key,
    );
    assert(finalized_ids(outcome.model_changes) =~= Seq::new(
        outcome.model_changes.len(),
        |i: int| change_key(outcome.model_changes[i]),
    ));
    if m.source_ids().no_duplicates() {
        let tables = crate::check::sources::source_results(m, config);
        let table_key = |r: crate::check::sources::SourceResultView| r.source_id;
        assert(Seq::new(tables.len(), |i: int| table_key(tables[i])) =~= m.source_ids());
        crate::sorting::lemma_arranged_keys(
            tables,
            crate::check::sources::source_result_order(),
            table_key,
        );
        assert(outcome.source_ids() =~= Seq::new(
            outcome.sources.len(),
            |i: int| table_key(outcome.sources[i]),
        ));
    }
}

/// The column changes of a model are keyed by column: no name has two
/// entries.
pub proof fn lemma_noted_columns_are_keyed(results: Seq<ColumnResultView>)
    ensures
        changed_names(noted_columns(results)).no_duplicates(),
    decreases results.len(),
{
    if results.len() > 0 {
        lemma_noted_columns_are_keyed(results.drop_last());
        let before = noted_columns(results.drop_last());
        let now = noted_columns(results);
        let names = changed_names(now);
        let names_before = changed_names(before);
        assert forall|a: int, b: int| 0 <= a < names.len() && 0 <= b < names.len() && a
            != b implies names[a] != names[b] by {
            if a < before.len() && b < before.len() {
                assert(names_before[a] != names_before[b]);
                assert(now[a] == before[a]);
                assert(now[b] == before[b]);
            } else if a < before.len() {
                assert(now[a] == before[a]);
                assert(names_before[a] == names[a]);
                assert(names_before.contains(names[a]));
            } else if b < before.len() {
                assert(now[b] == before[b]);
                assert(names_before[b] == names[b]);
                assert(names_before.contains(names[b]));
            }
        }
    }
}

/// The outcome of a run is ordered by id: no result stands behind one
/// whose id comes after its own, and so for the changes.
pub proof fn lemma_outcome_is_ordered(
    m: ManifestView,
    generated: Seq<GeneratedFileView>,
    config: ConfigView,
)
    ensures
        ascending(
            check_result(m, generated, config).models,
            crate::check::models::model_result_order(),
        ),
        ascending(
            check_result(m, generated, config).sources,
            crate::check::sources::source_result_order(),
        ),
        ascending(
            check_result(m, generated, config).exposures,
            crate::check::exposures::exposure_result_order(),
        ),
        ascending(
            check_result(m, generated, config).model_changes,
            crate::writeback::changes::model_order(),
        ),
{
    let order = dag_order(m);
    let done = run_models(
        m,
        graph_of(m.child_map),
        generated,
        config,
        order,
        order.len() as int,
    );
    crate::check::models::lemma_model_result_order();
    crate::check::sources::lemma_source_result_order();
    crate::check::exposures::lemma_exposure_result_order();
    crate::writeback::changes::lemma_model_order();
    lemma_arranged(done.results, crate::check::models::model_result_order());
    lemma_arranged(done.finalized, crate::writeback::changes::model_order());
    lemma_arranged(
        crate::check::sources::source_results(m, config),
        crate::check::sources::source_result_order(),
    );
    lemma_arranged(
        crate::check::exposures::exposure_results(m, config),
        crate::check::exposures::exposure_result_order(),
    );
}

} // verus!
