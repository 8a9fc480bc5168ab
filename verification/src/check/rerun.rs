//! A second run over what a fixing run left behind: the node set as the
//! run leaves it, and the proof that the rules then find nothing more to
//! change.

use vstd::prelude::*;
use crate::text::position;
use crate::text::lemma_position;
use crate::text::lemma_position_is;
use crate::config::ConfigView;
use crate::manifest::ManifestView;
use crate::manifest::NodeView;
use crate::manifest::NodeKind;
use crate::change_descriptors::ModelChangesView;
use crate::graph::GraphView;
use crate::check::columns::ColumnVerdict;
use crate::check::columns::verdict_at;
use crate::check::columns::column_results;
use crate::check::columns::lemma_result_of_column;
use crate::check::columns::lemma_column_has_result;
use crate::check::columns::fixed_column;
use crate::check::columns::fixed_columns;
use crate::check::columns::checked_count;
use crate::check::models::GeneratedFileView;
use crate::check::models::missing_properties_file_rule;
use crate::check::models::missing_model_description_rule;
use crate::check::models::separate_file_rule;
use crate::check::models::with_generated_file;
use crate::check::models::described;
use crate::check::models::settled;
use crate::check::models::noted_columns;
use crate::check::models::property_payload;
use crate::check::models::model_level_changes;
use crate::check::models::evaluated;
use crate::check::sources::described_table;
use crate::check::idempotence::after_fixes;
use crate::check::idempotence::fixes_settle;
use crate::check::idempotence::lemma_nothing_noted;
use crate::check::idempotence::lemma_file_and_description_settled;
use crate::check::run::finalized_at;
use crate::check::run::lemma_finalized_of_earlier_model;
use crate::check::run::lemma_results_are_distinct;
use crate::check::run::lemma_changed_column_is_noted;
use crate::check::run::lemma_payload_describes_fixed_column;
use crate::check::order::ranked;
use crate::check::order::lemma_order_after;
use crate::check::order::lemma_dag_order_complete;
use crate::check::order::lemma_dag_order_respects_dependencies;
use crate::check::is_model;
use crate::check::run_models;
use crate::check::check_result;
use crate::check::models::model_result;
use crate::check::idempotence::lemma_source_second_pass_changes_nothing;
use crate::check::sources::source_changes;
use crate::text::lemma_first_some_is;
use crate::text::lemma_first_some_none;
use crate::text::is_blank_or_marker;
use crate::text::description_missing;
use crate::config::Selector;
use crate::graph::graph_of;
use crate::manifest::names_of_columns;
use crate::osmosis::finalized_description;
use crate::osmosis::finalized_pass;
use crate::osmosis::static_pass;
use crate::osmosis::static_description;
use crate::osmosis::upstream_description;
use crate::osmosis::changes_of;
use crate::osmosis::finalized_ids;
use crate::osmosis::new_value;
use crate::change_descriptors::ColumnChangeView;
use crate::check::order::depends_on_position;
use crate::check::order::is_waiting;
use crate::check::order::is_ready;
use crate::check::order::first_where;
use crate::check::order::lemma_first_where;
use crate::check::order::lemma_first_where_is;
use crate::check::order::waiting;
use crate::check::order::waiting_and_ready;
use crate::check::order::next_pick;
use crate::check::order::order_after;
use crate::check::order::dag_positions;
use crate::check::order::dag_order;

verus! {

/// Whether two node sets hold the same nodes as far as the order of
/// evaluation goes: the same ids, kinds and dependencies, place by place.
pub open spec fn same_shape(a: ManifestView, b: ManifestView) -> bool {
    &&& a.nodes.len() == b.nodes.len()
    &&& forall|i: int|
        0 <= i < a.nodes.len() ==> (#[trigger] a.nodes[i]).unique_id == b.nodes[i].unique_id
            && a.nodes[i].kind == b.nodes[i].kind && a.nodes[i].depends_on
            == b.nodes[i].depends_on
}

proof fn lemma_same_positions(a: ManifestView, b: ManifestView)
    requires
        same_shape(a, b),
    ensures
        a.node_ids() == b.node_ids(),
        forall|i: int, k: int|
            #[trigger] depends_on_position(a, i, k) == depends_on_position(b, i, k),
        forall|done: Seq<int>, i: int|
            #[trigger] is_waiting(a, done, i) == is_waiting(b, done, i),
        forall|done: Seq<int>, i: int| #[trigger] is_ready(a, done, i) == is_ready(b, done, i),
{
    assert(a.node_ids() =~= b.node_ids()) by {
        assert forall|i: int| 0 <= i < a.nodes.len() implies a.node_ids()[i]
            == b.node_ids()[i] by {
            assert(a.nodes[i].unique_id == b.nodes[i].unique_id);
        }
    }
    assert forall|i: int, k: int| #[trigger]
        depends_on_position(a, i, k) == depends_on_position(b, i, k) by {
        if 0 <= i < a.nodes.len() && 0 <= k < a.nodes.len() {
            assert(a.nodes[i].depends_on == b.nodes[i].depends_on);
            assert(a.nodes[k].kind == b.nodes[k].kind);
            if depends_on_position(a, i, k) {
                let j = choose|j: int|
                    0 <= j < a.nodes[i].depends_on.len() && a.node_position(
                        #[trigger] a.nodes[i].depends_on[j],
                    ) == k;
                assert(b.node_position(b.nodes[i].depends_on[j]) == k);
            }
            if depends_on_position(b, i, k) {
                let j = choose|j: int|
                    0 <= j < b.nodes[i].depends_on.len() && b.node_position(
                        #[trigger] b.nodes[i].depends_on[j],
                    ) == k;
                assert(a.node_position(a.nodes[i].depends_on[j]) == k);
            }
        }
    }
    assert forall|done: Seq<int>, i: int| #[trigger]
        is_waiting(a, done, i) == is_waiting(b, done, i) by {
        if 0 <= i < a.nodes.len() {
            assert(a.nodes[i].kind == b.nodes[i].kind);
        }
    }
    assert forall|done: Seq<int>, i: int| #[trigger]
        is_ready(a, done, i) == is_ready(b, done, i) by {
        if is_ready(a, done, i) {
            assert forall|k: int| #[trigger] depends_on_position(b, i, k) implies done.contains(
                k,
            ) by {
                assert(depends_on_position(a, i, k));
            }
        }
        if is_ready(b, done, i) {
            assert forall|k: int| #[trigger] depends_on_position(a, i, k) implies done.contains(
                k,
            ) by {
                assert(depends_on_position(b, i, k));
            }
        }
    }
}

proof fn lemma_first_where_agrees(n: int, p: spec_fn(int) -> bool, q: spec_fn(int) -> bool)
    requires
        0 <= n,
        forall|i: int| 0 <= i < n ==> #[trigger] p(i) == q(i),
    ensures
        first_where(n, p) == first_where(n, q),
{
    lemma_first_where(n, p);
    let at = first_where(n, p);
    assert forall|j: int| 0 <= j < at implies !#[trigger] q(j) by {
        assert(!p(j));
    }
    if at < n {
        assert(q(at));
    }
    lemma_first_where_is(n, q, at);
}

/// Node sets of the same shape are evaluated in the same order.
pub proof fn lemma_same_order(a: ManifestView, b: ManifestView, steps: nat)
    requires
        same_shape(a, b),
    ensures
        order_after(a, steps) == order_after(b, steps),
    decreases steps,
{
    if steps > 0 {
        lemma_same_order(a, b, (steps - 1) as nat);
        let done = order_after(a, (steps - 1) as nat);
        lemma_same_positions(a, b);
        let n = a.nodes.len() as int;
        assert forall|i: int| 0 <= i < n implies #[trigger] waiting_and_ready(a, done)(i)
            == waiting_and_ready(b, done)(i) by {
            assert(is_waiting(a, done, i) == is_waiting(b, done, i));
            assert(is_ready(a, done, i) == is_ready(b, done, i));
        }
        assert forall|i: int| 0 <= i < n implies #[trigger] waiting(a, done)(i) == waiting(
            b,
            done,
        )(i) by {
            assert(is_waiting(a, done, i) == is_waiting(b, done, i));
        }
        lemma_first_where_agrees(n, waiting_and_ready(a, done), waiting_and_ready(b, done));
        lemma_first_where_agrees(n, waiting(a, done), waiting(b, done));
        assert(next_pick(a, done) == next_pick(b, done));
    }
}

/// Node sets of the same shape have the same order of evaluation, by
/// position and by id.
pub proof fn lemma_same_dag_order(a: ManifestView, b: ManifestView)
    requires
        same_shape(a, b),
    ensures
        dag_positions(a) == dag_positions(b),
        dag_order(a) == dag_order(b),
{
    lemma_same_order(a, b, a.nodes.len());
    crate::check::order::lemma_order_after(a, a.nodes.len());
    assert(dag_order(a) =~= dag_order(b)) by {
        assert forall|p: int| 0 <= p < dag_positions(a).len() implies dag_order(a)[p]
            == dag_order(b)[p] by {
            let at = dag_positions(a)[p];
            assert(0 <= at < a.nodes.len());
            assert(a.nodes[at].unique_id == b.nodes[at].unique_id);
        }
    }
}

/// The place of the node `id` in the order of evaluation.
pub open spec fn turn_of(m: ManifestView, id: Seq<char>) -> int {
    position(dag_order(m), id)
}

/// A node as a fixing run leaves it: a model as its fixes left it when it
/// was evaluated, any other node as it was.
pub open spec fn node_after_run(
    m: ManifestView,
    generated: Seq<GeneratedFileView>,
    config: ConfigView,
    node: NodeView,
) -> NodeView {
    if node.kind == NodeKind::Model {
        after_fixes(
            m,
            generated,
            finalized_at(m, generated, config, turn_of(m, node.unique_id)),
            node,
            config,
        )
    } else {
        node
    }
}

/// The node set as a fixing run leaves it.
pub open spec fn after_run(
    m: ManifestView,
    generated: Seq<GeneratedFileView>,
    config: ConfigView,
) -> ManifestView {
    ManifestView {
        nodes: Seq::new(m.nodes.len(), |i: int| node_after_run(m, generated, config, m.nodes[i])),
        sources: Seq::new(m.sources.len(), |i: int| described_table(m.sources[i], config)),
        ..m
    }
}

/// The fixes change descriptions and the place of the backing file, and
/// nothing else: the columns keep their names and their places.
pub proof fn lemma_fixes_keep_the_node(
    m: ManifestView,
    generated: Seq<GeneratedFileView>,
    finalized: Seq<ModelChangesView>,
    loaded: NodeView,
    config: ConfigView,
)
    ensures
        after_fixes(m, generated, finalized, loaded, config).unique_id == loaded.unique_id,
        after_fixes(m, generated, finalized, loaded, config).kind == loaded.kind,
        after_fixes(m, generated, finalized, loaded, config).depends_on == loaded.depends_on,
        after_fixes(m, generated, finalized, loaded, config).columns.len()
            == loaded.columns.len(),
        forall|i: int|
            0 <= i < loaded.columns.len() ==> #[trigger] after_fixes(
                m,
                generated,
                finalized,
                loaded,
                config,
            ).columns[i] == fixed_column(
                verdict_at(m, finalized, loaded, config, i),
                loaded.columns[i],
            ),
        after_fixes(m, generated, finalized, loaded, config).column_names()
            == loaded.column_names(),
{
    let working = settled(generated, loaded, config);
    assert(working.columns == loaded.columns);
    assert(checked_count(loaded, working) == loaded.columns.len());
    let w = after_fixes(m, generated, finalized, loaded, config);
    assert(w.columns == fixed_columns(m, finalized, loaded, working, config));
    assert(w.column_names() =~= loaded.column_names());
}

/// A fixing run leaves the shape of the node set as it was.
pub proof fn lemma_run_keeps_shape(
    m: ManifestView,
    generated: Seq<GeneratedFileView>,
    config: ConfigView,
)
    ensures
        same_shape(m, after_run(m, generated, config)),
{
    let after = after_run(m, generated, config);
    assert forall|i: int| 0 <= i < m.nodes.len() implies (#[trigger] m.nodes[i]).unique_id
        == after.nodes[i].unique_id && m.nodes[i].kind == after.nodes[i].kind
        && m.nodes[i].depends_on == after.nodes[i].depends_on by {
        lemma_fixes_keep_the_node(
            m,
            generated,
            finalized_at(m, generated, config, turn_of(m, m.nodes[i].unique_id)),
            m.nodes[i],
            config,
        );
    }
}

/// A model whose backing file and description are settled, and none of
/// whose columns is fixed, records no change.
pub proof fn lemma_settled_node_records_nothing(
    m: ManifestView,
    g: GraphView,
    generated: Seq<GeneratedFileView>,
    finalized: Seq<ModelChangesView>,
    w: NodeView,
    config: ConfigView,
)
    requires
        missing_properties_file_rule(w, config, generated).change is None,
        missing_model_description_rule(w, config).change is None,
        separate_file_rule(w, config).change is None,
        settled(generated, w, config) == w,
        forall|i: int|
            0 <= i < w.columns.len() ==> !(#[trigger] verdict_at(m, finalized, w, config, i)
                is Fix),
    ensures
        evaluated(m, g, generated, finalized, w, config).changes is None,
{
    let file = missing_properties_file_rule(w, config, generated);
    let filed = with_generated_file(w, file);
    assert(filed == w);
    let working = described(filed, config);
    assert(working == w);
    let results = column_results(m, finalized, w, working, config);
    assert forall|k: int| 0 <= k < results.len() implies (#[trigger] results[k]).changes.len()
        == 0 by {
        let i = lemma_result_of_column(m, finalized, w, working, config, k);
        assert(!(verdict_at(m, finalized, w, config, i) is Fix));
    }
    lemma_nothing_noted(results);
    assert(property_payload(m, generated, finalized, w, config) is None);
    assert(model_level_changes(m, generated, finalized, w, config) =~= Seq::empty());
}

/// What the types ask of a node set: no id names two nodes, and no node
/// has two columns of one name.
pub open spec fn valid_nodes(m: ManifestView) -> bool {
    &&& m.node_ids().no_duplicates()
    &&& forall|x: int|
        0 <= x < m.nodes.len() ==> (#[trigger] m.nodes[x]).column_names().no_duplicates()
}

/// Whether the fixes of every model leave valid values behind.
pub open spec fn run_settles(
    m: ManifestView,
    generated: Seq<GeneratedFileView>,
    config: ConfigView,
) -> bool {
    forall|x: int|
        0 <= x < m.nodes.len() && (#[trigger] m.nodes[x]).kind == NodeKind::Model
            ==> fixes_settle(
            m,
            generated,
            finalized_at(m, generated, config, turn_of(m, m.nodes[x].unique_id)),
            m.nodes[x],
            config,
        )
}

/// With distinct ids a node is found under its id.
pub proof fn lemma_node_is_found(m: ManifestView, x: int)
    requires
        m.node_ids().no_duplicates(),
        0 <= x < m.nodes.len(),
    ensures
        m.node_position(m.nodes[x].unique_id) == x,
        m.node(m.nodes[x].unique_id) == Some(m.nodes[x]),
{
    let ids = m.node_ids();
    let id = m.nodes[x].unique_id;
    assert(ids[x] == id);
    assert forall|j: int| 0 <= j < x implies ids[j] != id by {}
    lemma_position_is(ids, id, x);
}

/// With distinct ids every node that is evaluated in dependency order has
/// its turn, once, and stands there in the order.
pub proof fn lemma_turn(m: ManifestView, x: int)
    requires
        m.node_ids().no_duplicates(),
        0 <= x < m.nodes.len(),
        m.nodes[x].is_ordered_kind(),
    ensures
        dag_order(m).no_duplicates(),
        dag_order(m).len() == dag_positions(m).len(),
        0 <= turn_of(m, m.nodes[x].unique_id) < dag_order(m).len(),
        dag_positions(m)[turn_of(m, m.nodes[x].unique_id)] == x,
        dag_order(m)[turn_of(m, m.nodes[x].unique_id)] == m.nodes[x].unique_id,
{
    let places = dag_positions(m);
    let order = dag_order(m);
    let ids = m.node_ids();
    let id = m.nodes[x].unique_id;
    lemma_dag_order_complete(m);
    lemma_order_after(m, m.nodes.len());
    assert forall|p: int, q: int| 0 <= p < order.len() && 0 <= q < order.len() && p
        != q implies order[p] != order[q] by {
        assert(0 <= places[p] < m.nodes.len());
        assert(0 <= places[q] < m.nodes.len());
        assert(ids[places[p]] == order[p]);
        assert(ids[places[q]] == order[q]);
        assert(places[p] != places[q]);
    }
    assert(places.contains(x));
    let p = choose|p: int| 0 <= p < places.len() && places[p] == x;
    assert(order[p] == id);
    lemma_position(order, id);
    let turn = turn_of(m, id);
    assert(order.contains(id));
    assert(order[turn] == id);
    assert(0 <= places[turn] < m.nodes.len());
    assert(ids[places[turn]] == id);
    assert(ids[x] == id);
}

/// The run leaves every node under its id, and every source table too.
pub proof fn lemma_lookups_after_run(
    m: ManifestView,
    generated: Seq<GeneratedFileView>,
    config: ConfigView,
    id: Seq<char>,
)
    ensures
        after_run(m, generated, config).node(id) == match m.node(id) {
            Some(n) => Some(node_after_run(m, generated, config, n)),
            None => None,
        },
        after_run(m, generated, config).source(id) == match m.source(id) {
            Some(s) => Some(described_table(s, config)),
            None => None,
        },
        after_run(m, generated, config).node_position(id) == m.node_position(id),
{
    let after = after_run(m, generated, config);
    lemma_run_keeps_shape(m, generated, config);
    lemma_same_positions(m, after);
    lemma_position(m.node_ids(), id);
    assert(after.source_ids() =~= m.source_ids());
    lemma_position(m.source_ids(), id);
}

/// A dependency that offered a model no description for a column in the
/// first run offers none in the second: what the first run fixed in the
/// dependency was final before the model was evaluated.
proof fn lemma_dependency_offers_nothing_new(
    m: ManifestView,
    generated: Seq<GeneratedFileView>,
    config: ConfigView,
    rank: spec_fn(int) -> nat,
    x: int,
    k: int,
    column: Seq<char>,
)
    requires
        valid_nodes(m),
        ranked(m, rank),
        run_settles(m, generated, config),
        0 <= x < m.nodes.len(),
        m.nodes[x].kind == NodeKind::Model,
        0 <= k < m.nodes[x].depends_on.len(),
        finalized_description(
            finalized_at(m, generated, config, turn_of(m, m.nodes[x].unique_id)),
            m.nodes[x].depends_on[k],
            column,
        ) is None,
        static_description(m, m.nodes[x].depends_on[k], column, config.invalid_descriptions)
            is None,
    ensures
        static_description(
            after_run(m, generated, config),
            m.nodes[x].depends_on[k],
            column,
            config.invalid_descriptions,
        ) is None,
{
    let after = after_run(m, generated, config);
    let e = m.nodes[x].depends_on[k];
    let g = graph_of(m.child_map);
    let order = dag_order(m);
    lemma_lookups_after_run(m, generated, config, e);
    lemma_position(m.node_ids(), e);
    match m.node(e) {
        Some(en) => {
            let y = m.node_position(e);
            assert(m.nodes[y] == en);
            assert(m.node_ids()[y] == en.unique_id);
            let te = turn_of(m, e);
            let earlier = finalized_at(m, generated, config, te);
            let en_after = node_after_run(m, generated, config, en);
            lemma_fixes_keep_the_node(m, generated, earlier, en, config);
            assert(en_after.kind == en.kind);
            assert(names_of_columns(en_after.columns) =~= names_of_columns(en.columns)) by {
                if en.kind == NodeKind::Model {
                    assert forall|i: int| 0 <= i < en.columns.len() implies names_of_columns(
                        en_after.columns,
                    )[i] == names_of_columns(en.columns)[i] by {
                        assert(en_after.column_names()[i] == en.column_names()[i]);
                    }
                }
            }
            if en.is_column_provider() && en.kind == NodeKind::Model {
                let names = names_of_columns(en.columns);
                lemma_position(names, column);
                let t = position(names, column);
                if t < en.columns.len() {
                    let verdict = verdict_at(m, earlier, en, config, t);
                    assert(en_after.columns[t] == fixed_column(verdict, en.columns[t]));
                    assert(names[t] == en.columns[t].name);
                    match verdict {
                        ColumnVerdict::Fix(text) => {
                            let tx = turn_of(m, m.nodes[x].unique_id);
                            lemma_turn(m, x);
                            lemma_turn(m, y);
                            assert(depends_on_position(m, x, y));
                            lemma_dag_order_respects_dependencies(m, rank);
                            let places = dag_positions(m);
                            assert(places.take(tx).contains(y));
                            let q = choose|q: int|
                                0 <= q < places.take(tx).len() && places.take(tx)[q] == y;
                            assert(places[q] == y);
                            lemma_dag_order_complete(m);
                            assert(q == te);
                            assert(te < tx);
                            assert(is_model(m, order[te]));
                            lemma_finalized_of_earlier_model(
                                m,
                                g,
                                generated,
                                config,
                                order,
                                tx,
                                te,
                            );
                            let now = finalized_at(m, generated, config, tx);
                            let result = evaluated(m, g, generated, earlier, en, config);
                            assert(changes_of(now, e) == result.changes);
                            assert(fixes_settle(m, generated, earlier, en, config));
                            assert(!is_blank_or_marker(text, config.invalid_descriptions));
                            let working = settled(generated, en, config);
                            let results = column_results(m, earlier, en, working, config);
                            lemma_results_are_distinct(m, generated, earlier, en, config);
                            assert(working.columns == en.columns);
                            let at = lemma_column_has_result(m, earlier, en, working, config, t);
                            lemma_changed_column_is_noted(results, at);
                            lemma_payload_describes_fixed_column(
                                m,
                                generated,
                                earlier,
                                en,
                                config,
                                t,
                                text,
                            );
                            let entry = result.changes->0;
                            assert(result.changes is Some);
                            assert(results[at].column_name == column);
                            assert(entry.column_changes == noted_columns(results));
                            assert(entry.changed_columns() =~= crate::check::models::changed_names(
                                noted_columns(results),
                            ));
                            let set = entry.column_changes_for(column)->0;
                            assert(set == results[at].changes);
                            assert(set =~= seq![ColumnChangeView::ChangePropertiesFile]);
                            let candidates = Seq::new(
                                set.len(),
                                |i: int| new_value(set[i], entry, column),
                            );
                            assert(candidates[0] == Some(text));
                            lemma_first_some_is(candidates, 0);
                            assert(false);
                        },
                        _ => {
                            assert(en_after.columns[t] == en.columns[t]);
                        },
                    }
                }
            }
        },
        None => {},
    }
}

/// In the second run no column of a model is fixed: a column that the
/// first run fixed has its description, and one that it could not fix
/// finds no more to inherit than before.
proof fn lemma_second_run_fixes_no_column(
    m: ManifestView,
    generated: Seq<GeneratedFileView>,
    config: ConfigView,
    rank: spec_fn(int) -> nat,
    x: int,
    i: int,
)
    requires
        valid_nodes(m),
        ranked(m, rank),
        run_settles(m, generated, config),
        0 <= x < m.nodes.len(),
        m.nodes[x].kind == NodeKind::Model,
        0 <= i < m.nodes[x].columns.len(),
    ensures
        !(verdict_at(
            after_run(m, generated, config),
            Seq::empty(),
            after_run(m, generated, config).nodes[x],
            config,
            i,
        ) is Fix),
{
    let after = after_run(m, generated, config);
    let loaded = m.nodes[x];
    let id = loaded.unique_id;
    let first = finalized_at(m, generated, config, turn_of(m, id));
    let w = after.nodes[x];
    let none = Seq::<ModelChangesView>::empty();
    lemma_fixes_keep_the_node(m, generated, first, loaded, config);
    lemma_node_is_found(m, x);
    lemma_lookups_after_run(m, generated, config, id);
    assert(fixes_settle(m, generated, first, loaded, config));
    let before = verdict_at(m, first, loaded, config, i);
    assert(w.columns[i] == fixed_column(before, loaded.columns[i]));
    let name = loaded.columns[i].name;
    let markers = config.invalid_descriptions;
    if config.selected(Selector::MissingColumnDescriptions) && description_missing(
        w.columns[i].description,
        markers,
    ) && config.can_fix(Selector::MissingColumnDescriptions) {
        assert(before is Fail);
        assert(upstream_description(m, first, id, name, config) is None);
        let deps = loaded.depends_on;
        let final_first = Seq::new(
            deps.len(),
            |k: int| finalized_description(first, deps[k], name),
        );
        let static_first = Seq::new(
            deps.len(),
            |k: int| static_description(m, deps[k], name, markers),
        );
        assert(finalized_pass(first, deps, name) is None);
        assert(static_pass(m, deps, name, markers) is None);
        lemma_first_some_none(final_first);
        lemma_first_some_none(static_first);
        let final_again = Seq::new(
            deps.len(),
            |k: int| finalized_description(none, deps[k], name),
        );
        let static_again = Seq::new(
            deps.len(),
            |k: int| static_description(after, deps[k], name, markers),
        );
        assert forall|k: int| 0 <= k < deps.len() implies (#[trigger] static_again[k])
            is None by {
            assert(final_first[k] is None);
            assert(static_first[k] is None);
            lemma_dependency_offers_nothing_new(m, generated, config, rank, x, k, name);
        }
        assert forall|k: int| 0 <= k < deps.len() implies (#[trigger] final_again[k])
            is None by {
            assert(finalized_ids(none).len() == 0);
        }
        lemma_first_some_is(final_again, deps.len() as int);
        lemma_first_some_is(static_again, deps.len() as int);
        assert(w.depends_on == deps);
        assert(after.node(id) == Some(w));
        assert(upstream_description(after, none, id, name, config) is None);
    }
}

/// Idempotence: a second run over the node set as a fixing run left it
/// yields no change descriptor, neither for a model nor for a source
/// table. It holds where the dependencies have no cycle, so that `rank`
/// falls along them, and where the fixes of the first run leave valid
/// values behind.
pub proof fn lemma_second_run_changes_nothing(
    m: ManifestView,
    generated: Seq<GeneratedFileView>,
    config: ConfigView,
    rank: spec_fn(int) -> nat,
    n: int,
)
    requires
        valid_nodes(m),
        ranked(m, rank),
        run_settles(m, generated, config),
        0 <= n <= dag_order(m).len(),
    ensures
        dag_order(after_run(m, generated, config)) == dag_order(m),
        run_models(
            after_run(m, generated, config),
            graph_of(m.child_map),
            generated,
            config,
            dag_order(m),
            n,
        ).finalized.len() == 0,
        forall|k: int|
            0 <= k < run_models(
                after_run(m, generated, config),
                graph_of(m.child_map),
                generated,
                config,
                dag_order(m),
                n,
            ).results.len() ==> (#[trigger] run_models(
                after_run(m, generated, config),
                graph_of(m.child_map),
                generated,
                config,
                dag_order(m),
                n,
            ).results[k]).changes is None,
    decreases n,
{
    let after = after_run(m, generated, config);
    let g = graph_of(m.child_map);
    let order = dag_order(m);
    lemma_run_keeps_shape(m, generated, config);
    lemma_same_dag_order(m, after);
    if n > 0 {
        lemma_second_run_changes_nothing(m, generated, config, rank, n - 1);
        let before = run_models(after, g, generated, config, order, n - 1);
        let now = run_models(after, g, generated, config, order, n);
        let id = order[n - 1];
        assert(before.finalized =~= Seq::empty());
        if is_model(after, id) {
            lemma_lookups_after_run(m, generated, config, id);
            lemma_position(m.node_ids(), id);
            let x = m.node_position(id);
            let loaded = m.nodes[x];
            assert(m.node_ids()[x] == loaded.unique_id);
            let first = finalized_at(m, generated, config, turn_of(m, id));
            lemma_fixes_keep_the_node(m, generated, first, loaded, config);
            let w = after_fixes(m, generated, first, loaded, config);
            assert(after.node(id) == Some(w));
            assert(after.nodes[x] == w);
            assert(fixes_settle(m, generated, first, loaded, config));
            lemma_file_and_description_settled(m, generated, first, loaded, config);
            assert forall|i: int| 0 <= i < w.columns.len() implies !(#[trigger] verdict_at(
                after,
                before.finalized,
                w,
                config,
                i,
            ) is Fix) by {
                lemma_second_run_fixes_no_column(m, generated, config, rank, x, i);
            }
            lemma_settled_node_records_nothing(after, g, generated, before.finalized, w, config);
            let result = model_result(after, g, generated, id, before.finalized, config);
            assert(result.changes is None);
            assert(now.finalized == before.finalized);
            assert forall|k: int| 0 <= k < now.results.len() implies (#[trigger] now.results[k]).changes
                is None by {
                if k < before.results.len() {
                    assert(now.results[k] == before.results[k]);
                }
            }
        }
    }
}

/// Idempotence, for the outcome of the second run: it holds no change of
/// a model and no change of a source table.
pub proof fn lemma_second_outcome_holds_no_change(
    m: ManifestView,
    generated: Seq<GeneratedFileView>,
    config: ConfigView,
    rank: spec_fn(int) -> nat,
)
    requires
        valid_nodes(m),
        ranked(m, rank),
        run_settles(m, generated, config),
        forall|i: int|
            0 <= i < m.sources.len() ==> (source_changes(#[trigger] m.sources[i], config)
                is Some ==> !is_blank_or_marker(
                crate::check::models::placeholder_description(),
                config.invalid_descriptions,
            )),
    ensures
        check_result(after_run(m, generated, config), generated, config).model_changes.len()
            == 0,
        forall|k: int|
            0 <= k < check_result(
                after_run(m, generated, config),
                generated,
                config,
            ).models.len() ==> (#[trigger] check_result(
                after_run(m, generated, config),
                generated,
                config,
            ).models[k]).changes is None,
        forall|k: int|
            0 <= k < check_result(
                after_run(m, generated, config),
                generated,
                config,
            ).sources.len() ==> (#[trigger] check_result(
                after_run(m, generated, config),
                generated,
                config,
            ).sources[k]).changes is None,
{
    let after = after_run(m, generated, config);
    lemma_second_run_changes_nothing(m, generated, config, rank, dag_order(m).len() as int);
    let outcome = check_result(after, generated, config);
    let done = run_models(
        after,
        graph_of(m.child_map),
        generated,
        config,
        dag_order(m),
        dag_order(m).len() as int,
    );
    crate::check::models::lemma_model_result_order();
    crate::check::sources::lemma_source_result_order();
    crate::writeback::changes::lemma_model_order();
    crate::sorting::lemma_arranged(done.results, crate::check::models::model_result_order());
    crate::sorting::lemma_arranged(done.finalized, crate::writeback::changes::model_order());
    let tables = crate::check::sources::source_results(after, config);
    crate::sorting::lemma_arranged(tables, crate::check::sources::source_result_order());
    assert forall|k: int| 0 <= k < outcome.models.len() implies (#[trigger] outcome.models[k]).changes
        is None by {
        assert(outcome.models.contains(outcome.models[k]));
        assert(done.results.contains(outcome.models[k]));
        let at = choose|at: int| 0 <= at < done.results.len() && done.results[at]
            == outcome.models[k];
        assert(done.results[at].changes is None);
    }
    assert forall|k: int| 0 <= k < outcome.sources.len() implies (#[trigger] outcome.sources[k]).changes
        is None by {
        assert(outcome.sources.contains(outcome.sources[k]));
        assert(tables.contains(outcome.sources[k]));
        let at = choose|at: int| 0 <= at < tables.len() && tables[at] == outcome.sources[k];
        lemma_source_second_pass_changes_nothing(m.sources[at], config);
    }
}

} // verus!
