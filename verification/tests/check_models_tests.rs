use dbt_lint_yaml::change_descriptors::ColumnChange;
use dbt_lint_yaml::change_descriptors::ModelChange;
use dbt_lint_yaml::change_descriptors::ModelChanges;
use dbt_lint_yaml::check::check_all;
use dbt_lint_yaml::check::check_all_with_generated;
use dbt_lint_yaml::check::check_all_with_report;
use dbt_lint_yaml::check::columns::missing_description;
use dbt_lint_yaml::check::columns::ColumnFailure;
use dbt_lint_yaml::check::models::check_model;
use dbt_lint_yaml::check::models::dead_model;
use dbt_lint_yaml::check::models::direct_join_to_source;
use dbt_lint_yaml::check::models::missing_model_description;
use dbt_lint_yaml::check::models::missing_model_tags;
use dbt_lint_yaml::check::models::missing_primary_key;
use dbt_lint_yaml::check::models::missing_properties_file;
use dbt_lint_yaml::check::models::missing_required_tests;
use dbt_lint_yaml::check::models::model_fanout;
use dbt_lint_yaml::check::models::model_separate_from_properties_file;
use dbt_lint_yaml::check::models::model_type;
use dbt_lint_yaml::check::models::multiple_sources_joined;
use dbt_lint_yaml::check::models::public_model_without_contract;
use dbt_lint_yaml::check::models::rejoining_of_upstream_concepts;
use dbt_lint_yaml::check::models::root_model;
use dbt_lint_yaml::check::models::GeneratedFile;
use dbt_lint_yaml::check::models::ModelFailure;
use dbt_lint_yaml::check::order::nodes_in_dag_order;
use dbt_lint_yaml::check::CheckEvent;
use dbt_lint_yaml::config::Config;
use dbt_lint_yaml::config::Selector;
use dbt_lint_yaml::graph::DbtGraph;
use dbt_lint_yaml::manifest::Access;
use dbt_lint_yaml::manifest::ChildEntry;
use dbt_lint_yaml::manifest::Column;
use dbt_lint_yaml::manifest::Manifest;
use dbt_lint_yaml::manifest::Node;
use dbt_lint_yaml::manifest::NodeKind;

fn model(id: &str) -> Node {
    Node::new(NodeKind::Model, id)
}

fn strings(items: &[&str]) -> Vec<String> {
    items.iter().map(|s| s.to_string()).collect()
}

fn children(manifest: &mut Manifest, parent: &str, kids: &[&str]) {
    manifest.child_map.push(ChildEntry {
        parent: parent.to_string(),
        children: strings(kids),
    });
}

fn manifest_with_inheritable_column() -> Manifest {
    let mut manifest = Manifest::new();
    let mut upstream = model("model.test.upstream");
    upstream
        .columns
        .push(Column::new("customer_id", Some("Upstream description")));
    let mut downstream = model("model.test.downstream");
    downstream.depends_on = strings(&["model.test.upstream"]);
    downstream.columns.push(Column::new("customer_id", None));
    manifest.nodes.push(upstream);
    manifest.nodes.push(downstream);
    manifest
}

#[test]
fn models_check_model_returns_column_changes() {
    let manifest = manifest_with_inheritable_column();
    let prior_changes: Vec<ModelChanges> = Vec::new();

    let config = Config {
        select: vec![Selector::MissingColumnDescriptions],
        ..Default::default()
    }
    .with_fix(true);
    let graph = DbtGraph::from(&manifest);
    let model_result = check_model(
        &manifest,
        &graph,
        &Vec::new(),
        "model.test.downstream",
        &prior_changes,
        &config,
    );

    let changes = model_result
        .changes()
        .cloned()
        .expect("expected column changes to be recorded");

    assert!(model_result.is_pass(), "model should pass after fixes");
    assert!(model_result.column_results.iter().all(|r| r.is_pass()));
    assert_eq!(changes.model_id, "model.test.downstream");
    let column_set = changes
        .column_changes_for("customer_id")
        .expect("customer_id column should be present");
    let change = column_set.iter().next().expect("change entry should exist");
    assert!(matches!(change, ColumnChange::ChangePropertiesFile));

    let mut saw_property_change = false;
    for change in changes.changes.iter() {
        if let ModelChange::ChangePropertiesFile { property, .. } = change {
            saw_property_change = true;
            let prop = property.as_ref().expect("property payload attached");
            let customer_column = prop
                .columns
                .iter()
                .find(|col| col.name == "customer_id")
                .expect("column payload should include customer_id");
            assert_eq!(
                customer_column.description.as_deref(),
                Some("Upstream description")
            );
        }
    }
    assert!(saw_property_change, "expected model-level property change");

    let column_result = model_result
        .column_results
        .iter()
        .find(|r| r.column_name == "customer_id")
        .expect("customer_id column should be present");
    assert!(column_result.is_pass(), "expected column to pass");
    let change = column_result
        .changes()
        .first()
        .expect("expected change entry for column");
    assert!(matches!(change, ColumnChange::ChangePropertiesFile));
}

#[test]
fn mod_check_all_collects_model_changes() {
    let manifest = manifest_with_inheritable_column();

    let config = Config {
        select: vec![
            Selector::MissingModelDescriptions,
            Selector::MissingColumnDescriptions,
        ],
        ..Default::default()
    }
    .with_fix(true);
    let result = check_all(&manifest, &config);

    assert_eq!(result.model_changes.len(), 2);
    assert!(result.changes_of("model.test.downstream").is_some());
    assert!(result.changes_of("model.test.upstream").is_some());
    let model_result = result
        .model("model.test.downstream")
        .expect("model result should be tracked");
    assert!(model_result.is_pass(), "downstream model should be fixed");
    assert!(
        model_result
            .changes()
            .expect("changes should be recorded")
            .has_column_changes("customer_id"),
        "column change should be present"
    );
}

#[test]
fn models_missing_required_tests_returns_true_when_no_children_present() {
    let mut manifest = Manifest::new();
    manifest.nodes.push(model("model.test.without_children"));
    let node = manifest.nodes[0].clone();
    let config = Config {
        required_tests: vec!["unique".to_string()],
        ..Default::default()
    };
    assert!(missing_required_tests(&manifest, &node, &config).is_err());
}

#[test]
fn check_missing_required_tests_returns_true_when_no_children_present() {
    let mut manifest = Manifest::new();
    manifest.nodes.push(model("model.test.without_children"));
    let node = manifest.nodes[0].clone();
    let config = Config {
        required_tests: vec!["unique".to_string()],
        ..Default::default()
    };
    assert_eq!(
        missing_required_tests(&manifest, &node, &config),
        Err(ModelFailure::MissingRequiredTests(vec!["unique".to_string()]))
    );
}

#[test]
fn required_test_is_found_among_downstream_tests() {
    let mut manifest = Manifest::new();
    manifest.nodes.push(model("model.test.m"));
    let mut test = Node::new(NodeKind::Test, "test.t.unique_m");
    test.test_name = Some("unique".to_string());
    manifest.nodes.push(test);
    let mut other = Node::new(NodeKind::Test, "test.t.not_null_m");
    other.test_name = Some("not_null".to_string());
    manifest.nodes.push(other);
    children(&mut manifest, "model.test.m", &["test.t.not_null_m", "test.t.unique_m"]);
    let node = manifest.nodes[0].clone();
    let config = Config {
        required_tests: vec!["unique".to_string(), "accepted_values".to_string()],
        ..Default::default()
    };
    assert_eq!(missing_required_tests(&manifest, &node, &config), Ok(()));
    let strict = Config {
        required_tests: vec!["accepted_values".to_string()],
        ..Default::default()
    };
    assert!(missing_required_tests(&manifest, &node, &strict).is_err());
    let none = Config::default();
    assert_eq!(missing_required_tests(&manifest, &node, &none), Ok(()));
}

#[test]
fn models_test_direct_join_to_source() {
    let mut node = model("model.test.target");
    node.depends_on = strings(&["model.test.upstream", "source.test.raw_layer.orders"]);
    let config = Config::default();
    assert!(direct_join_to_source(&node, &config).is_err());
}

#[test]
fn check_test_direct_join_to_source() {
    let mut node = model("model.test.target");
    node.depends_on = strings(&["model.test.upstream", "source.test.raw_layer.orders"]);
    assert_eq!(
        direct_join_to_source(&node, &Config::default()),
        Err(ModelFailure::DirectJoinToSource(strings(&[
            "source.test.raw_layer.orders"
        ])))
    );
}

#[test]
fn test_missing_model_description_invalid_marker() {
    let mut node = model("model.test.m");
    node.description = Some("FILL ME OUT".to_string());
    let config = Config::default();
    assert!(missing_model_description(&mut node, &config).is_err());
}

#[test]
fn missing_model_description_is_replaced_when_fixable() {
    let mut node = model("model.test.m");
    node.patch_path = Some("models/m.yml".to_string());
    let config = Config::default().with_fix(true);
    let outcome = missing_model_description(&mut node, &config);
    assert_eq!(
        outcome,
        Ok(Some(ModelChange::ChangePropertiesFile {
            model_id: "model.test.m".to_string(),
            model_name: "m".to_string(),
            patch_path: Some("models/m.yml".to_string()),
            property: None,
        }))
    );
    assert_eq!(
        node.description.as_deref(),
        Some("Auto-generated description")
    );
    let mut fine = model("model.test.ok");
    fine.description = Some("Orders, one row each.".to_string());
    assert_eq!(missing_model_description(&mut fine, &config), Ok(None));
    assert_eq!(fine.description.as_deref(), Some("Orders, one row each."));
}

#[test]
fn models_test_direct_join_to_source_single_dependency() {
    let mut node = model("model.test.target");
    node.depends_on = strings(&["source.test.raw_layer.orders"]);
    assert!(direct_join_to_source(&node, &Config::default()).is_ok());
}

#[test]
fn check_test_direct_join_to_source_single_dependency() {
    let mut node = model("model.test.target");
    node.depends_on = strings(&["source.test.raw_layer.orders"]);
    assert_eq!(direct_join_to_source(&node, &Config::default()), Ok(()));
}

#[test]
fn models_test_direct_join_to_source_no_sources() {
    let mut node = model("model.test.target");
    node.depends_on = strings(&["model.test.upstream", "model.test.another_upstream"]);
    assert!(direct_join_to_source(&node, &Config::default()).is_ok());
}

#[test]
fn check_test_direct_join_to_source_no_sources() {
    let mut node = model("model.test.target");
    node.depends_on = strings(&["model.test.upstream", "model.test.another_upstream"]);
    assert_eq!(direct_join_to_source(&node, &Config::default()), Ok(()));
}

fn fanout_manifest() -> Manifest {
    let mut manifest = Manifest::new();
    children(&mut manifest, "model.test.one_model", &["model.test.downstream_0"]);
    children(
        &mut manifest,
        "model.test.lots_of_tests",
        &[
            "model.jaffle_shop.orders",
            "test.jaffle_shop.not_null_stg_products",
            "unit_test.jaffle_shop.order_items.test_supply_costs_sum_correctly",
        ],
    );
    children(
        &mut manifest,
        "model.test.four_models",
        &[
            "model.test.downstream_0",
            "model.test.downstream_1",
            "model.test.downstream_2",
            "model.test.downstream_3",
        ],
    );
    manifest
}

#[test]
fn models_test_model_fanout() {
    let manifest = fanout_manifest();
    let graph = DbtGraph::from(&manifest);
    let config = Config {
        model_fanout_threshold: 1,
        ..Default::default()
    };
    assert!(
        model_fanout(&graph, "model.test.one_model", &config).is_ok(),
        "only 1 downstream"
    );
    assert!(
        model_fanout(&graph, "model.test.lots_of_tests", &config).is_ok(),
        "lots of tests should not trigger"
    );
    assert!(
        model_fanout(&graph, "model.test.four_models", &config).is_err(),
        "4 models exceeds threshold of 1"
    );
}

#[test]
fn check_test_model_fanout() {
    let manifest = fanout_manifest();
    let graph = DbtGraph::from(&manifest);
    let config = Config {
        model_fanout_threshold: 1,
        ..Default::default()
    };
    assert_eq!(model_fanout(&graph, "model.test.one_model", &config), Ok(()));
    assert_eq!(
        model_fanout(&graph, "model.test.lots_of_tests", &config),
        Ok(())
    );
    assert_eq!(
        model_fanout(&graph, "model.test.four_models", &config),
        Err(ModelFailure::ModelFanout(4))
    );
    assert_eq!(model_fanout(&graph, "model.test.unknown", &config), Ok(()));
}

#[test]
fn models_test_root_model() {
    let manifest = manifest_with_inheritable_column();
    let node = manifest.nodes[0].clone();
    assert!(root_model(&node, &Config::default()).is_err());
}

#[test]
fn check_test_root_model() {
    let manifest = manifest_with_inheritable_column();
    assert_eq!(
        root_model(&manifest.nodes[0], &Config::default()),
        Err(ModelFailure::RootModel)
    );
    assert_eq!(root_model(&manifest.nodes[1], &Config::default()), Ok(()));
}

#[test]
fn models_test_multiple_sources_joined() {
    let mut node = model("model.test.target");
    node.depends_on = strings(&[
        "source.test.raw_layer.orders",
        "source.test.raw_layer.customers",
    ]);
    assert!(
        multiple_sources_joined(&node, &Config::default()).is_err(),
        "2 sources should trigger"
    );
}

#[test]
fn check_test_multiple_sources_joined() {
    let mut node = model("model.test.target");
    node.depends_on = strings(&[
        "source.test.raw_layer.orders",
        "model.test.other",
        "source.test.raw_layer.customers",
    ]);
    assert_eq!(
        multiple_sources_joined(&node, &Config::default()),
        Err(ModelFailure::MultipleSourcesJoined(strings(&[
            "source.test.raw_layer.orders",
            "source.test.raw_layer.customers"
        ])))
    );
    node.depends_on = strings(&["source.test.raw_layer.orders", "model.test.other"]);
    assert_eq!(multiple_sources_joined(&node, &Config::default()), Ok(()));
}

fn rejoining_manifest() -> Manifest {
    // upstream --> midstream --> downstream
    //    \----------------------->/
    let mut manifest = Manifest::new();
    children(
        &mut manifest,
        "model.test.upstream",
        &["model.test.midstream", "model.test.downstream"],
    );
    children(&mut manifest, "model.test.midstream", &["model.test.downstream"]);
    manifest
}

#[test]
fn models_test_rejoining_of_upstream_concepts() {
    let manifest = rejoining_manifest();
    let graph = DbtGraph::from(&manifest);
    let mut downstream = model("model.test.downstream");
    downstream.depends_on = strings(&["model.test.upstream", "model.test.midstream"]);
    assert!(rejoining_of_upstream_concepts(&graph, &downstream, &Config::default()).is_err());
}

#[test]
fn check_test_rejoining_of_upstream_concepts() {
    let manifest = rejoining_manifest();
    let graph = DbtGraph::from(&manifest);
    let mut downstream = model("model.test.downstream");
    downstream.depends_on = strings(&["model.test.upstream", "model.test.midstream"]);
    assert_eq!(
        rejoining_of_upstream_concepts(&graph, &downstream, &Config::default()),
        Err(ModelFailure::RejoiningOfUpstreamConcepts(strings(&[
            "model.test.upstream"
        ])))
    );
}

#[test]
fn rejoining_is_found_over_several_hops() {
    // a -> b -> c -> d, and the model reads a and d
    let mut manifest = Manifest::new();
    children(&mut manifest, "model.a", &["model.b", "model.e"]);
    children(&mut manifest, "model.b", &["model.c"]);
    children(&mut manifest, "model.c", &["model.d"]);
    children(&mut manifest, "model.d", &["model.e"]);
    let graph = DbtGraph::from(&manifest);
    let mut node = model("model.e");
    node.depends_on = strings(&["model.d", "model.a"]);
    assert_eq!(
        rejoining_of_upstream_concepts(&graph, &node, &Config::default()),
        Err(ModelFailure::RejoiningOfUpstreamConcepts(strings(&["model.a"])))
    );
    let mut apart = model("model.f");
    apart.depends_on = strings(&["model.b", "model.unknown"]);
    assert_eq!(
        rejoining_of_upstream_concepts(&graph, &apart, &Config::default()),
        Ok(())
    );
}

#[test]
fn test_missing_primary_key() {
    let mut node = model("model.test");
    node.primary_key = Some(vec![]);
    assert!(missing_primary_key(&node, &Config::default()).is_err());
    node.primary_key = None;
    assert!(missing_primary_key(&node, &Config::default()).is_err());
    node.primary_key = Some(strings(&["id"]));
    assert!(missing_primary_key(&node, &Config::default()).is_ok());
}

#[test]
fn test_missing_properties_file_for_model() {
    let node = model("model.test.m");
    // fixing is off by default, so a missing backing file is reported
    assert!(missing_properties_file(&node, &Config::default(), &Vec::new()).is_err());
}

#[test]
fn missing_properties_file_takes_the_generated_file() {
    let mut node = model("model.test.m");
    node.name = "m".to_string();
    let config = Config::default().with_fix(true);
    let generated = vec![GeneratedFile {
        model_id: "model.test.m".to_string(),
        patch_path: "models/m.yml".to_string(),
    }];
    assert_eq!(
        missing_properties_file(&node, &config, &generated),
        Ok(Some(ModelChange::GeneratePropertiesFile {
            model_id: "model.test.m".to_string(),
            model_name: "m".to_string(),
            patch_path: Some("models/m.yml".to_string()),
        }))
    );
    assert_eq!(
        missing_properties_file(&node, &config, &Vec::new()),
        Err(ModelFailure::MissingPropertiesFile)
    );
    let seed = Node::new(NodeKind::Seed, "model.test.m");
    assert_eq!(
        missing_properties_file(&seed, &config, &generated),
        Err(ModelFailure::MissingPropertiesFile)
    );
    node.patch_path = Some("models/m.yml".to_string());
    assert_eq!(missing_properties_file(&node, &config, &generated), Ok(None));
}

#[test]
fn test_public_model_without_contract() {
    let mut node = model("model.test");
    node.access = Some(Access::Public);
    node.contract_enforced = false;
    let config = Config {
        select: vec![Selector::PublicModelsWithoutContract],
        ..Default::default()
    };
    assert!(public_model_without_contract(&node, &config).is_err());
    node.contract_enforced = true;
    assert!(public_model_without_contract(&node, &config).is_ok());
    node.contract_enforced = false;
    node.access = Some(Access::Protected);
    assert!(public_model_without_contract(&node, &config).is_ok());
}

#[test]
fn test_dead_model_detected_when_no_downstreams() {
    let mut manifest = Manifest::new();
    manifest.nodes.push(model("model.test.alone"));
    let node = manifest.nodes[0].clone();
    let config = Config {
        select: vec![Selector::DeadModel],
        ..Default::default()
    };
    let graph = DbtGraph::from(&manifest);
    assert!(dead_model(&node, &graph, &config).is_err());
}

#[test]
fn dead_model_ignores_tests() {
    let mut manifest = Manifest::new();
    children(&mut manifest, "model.a", &["test.t1", "unit_test.u1"]);
    children(&mut manifest, "model.b", &["test.t1", "exposure.e"]);
    let graph = DbtGraph::from(&manifest);
    let config = Config::default();
    assert_eq!(
        dead_model(&model("model.a"), &graph, &config),
        Err(ModelFailure::DeadModel)
    );
    assert_eq!(dead_model(&model("model.b"), &graph, &config), Ok(()));
}

#[test]
fn missing_tags_fail_without_a_fix() {
    let mut node = model("model.t");
    assert_eq!(
        missing_model_tags(&node, &Config::default().with_fix(true)),
        Err(ModelFailure::TagsMissing(Vec::new()))
    );
    node.tags = Some(Vec::new());
    assert_eq!(missing_model_tags(&node, &Config::default()), Ok(()));
}

#[test]
fn separate_properties_file_moves_beside_the_model() {
    let mut node = model("model.shop.orders");
    node.original_file_path = "models/marts/orders.sql".to_string();
    node.patch_path = Some("models/schema.yml".to_string());
    let report = Config::default();
    assert_eq!(
        model_separate_from_properties_file(&node, &report),
        Err(ModelFailure::ModelSeparateFromPropertiesFile {
            patch_path: "models/schema.yml".to_string(),
            original_file_path: "models/marts/orders.sql".to_string(),
        })
    );
    let fix = Config::default().with_fix(true);
    assert_eq!(
        model_separate_from_properties_file(&node, &fix),
        Ok(Some(ModelChange::MovePropertiesFile {
            model_id: "model.shop.orders".to_string(),
            model_name: "orders".to_string(),
            patch_path: Some("models/schema.yml".to_string()),
            new_path: "models/marts/schema.yml".to_string(),
        }))
    );
    node.patch_path = Some("models/marts/orders.yml".to_string());
    assert_eq!(model_separate_from_properties_file(&node, &fix), Ok(None));
    node.patch_path = None;
    assert_eq!(model_separate_from_properties_file(&node, &fix), Ok(None));
}

#[test]
fn model_type_follows_the_directory() {
    let mut node = model("model.x");
    node.original_file_path = "models/staging/stg_x.sql".to_string();
    assert_eq!(model_type(&node), "staging");
    node.original_file_path = "models/marts/x.sql".to_string();
    assert_eq!(model_type(&node), "mart");
    node.original_file_path = "models/intermediate/x.sql".to_string();
    assert_eq!(model_type(&node), "intermediate");
    node.original_file_path = "models/x.sql".to_string();
    assert_eq!(model_type(&node), "other");
}

#[test]
fn test_missing_description_invalid_markers() {
    let col_tbd = Column::new("id", Some("TBD"));
    let config = Config::default();
    assert!(missing_description(&col_tbd, &config).is_err());

    let col_fill = Column::new("id", Some("  fill me out  "));
    // the default markers hold "FILL ME OUT", compared trimmed and without case
    assert!(missing_description(&col_fill, &config).is_err());

    let col_ok = Column::new("id", Some("A proper description"));
    assert!(missing_description(&col_ok, &config).is_ok());
    assert_eq!(
        missing_description(&Column::new("id", None), &config),
        Err(ColumnFailure::DescriptionMissing)
    );
}

#[test]
fn failure_texts() {
    assert_eq!(ModelFailure::RootModel.to_string(), "RootModel");
    assert_eq!(ModelFailure::ModelFanout(7).to_string(), "ModelFanout");
    assert_eq!(
        ModelFailure::TagsMissing(Vec::new()).to_string(),
        "TagsMissing (tags: )"
    );
    assert_eq!(
        ModelFailure::DirectJoinToSource(strings(&["source.a", "source.b"])).to_string(),
        "DirectJoinToSource (sources: source.a,source.b)"
    );
    assert_eq!(
        ModelFailure::ModelSeparateFromPropertiesFile {
            patch_path: "a/x.yml".to_string(),
            original_file_path: "b/x.sql".to_string(),
        }
        .to_string(),
        "ModelSeparateFromPropertiesFile (patch_path: a/x.yml, original_file_path: b/x.sql)"
    );
}

#[test]
fn model_result_reasons_and_report() {
    let manifest = manifest_with_inheritable_column();
    let graph = DbtGraph::from(&manifest);
    let config = Config {
        select: vec![Selector::RootModels, Selector::MissingColumnDescriptions],
        ..Default::default()
    };
    let up = check_model(
        &manifest,
        &graph,
        &Vec::new(),
        "model.test.upstream",
        &Vec::new(),
        &config,
    );
    assert!(up.is_failure());
    assert_eq!(up.failure_reasons(), strings(&["RootModel"]));
    assert_eq!(
        up.to_string(),
        "ModelResult: Fail:model.test.upstream\n    RootModel\n"
    );
    let down = check_model(
        &manifest,
        &graph,
        &Vec::new(),
        "model.test.downstream",
        &Vec::new(),
        &config,
    );
    assert!(down.has_column_failures());
    assert_eq!(
        down.failure_reasons(),
        strings(&["Column `customer_id`: Missing Description"])
    );
    assert!(down.changes().is_none());
    let other = check_model(
        &manifest,
        &graph,
        &Vec::new(),
        "model.test.unknown",
        &Vec::new(),
        &config,
    );
    assert!(other.is_pass());
    assert_eq!(other.model_id(), "model.test.unknown");
    assert_eq!(other.to_string(), "ModelResult: Pass:model.test.unknown");
}

#[test]
fn dag_order_puts_dependencies_first() {
    let mut manifest = Manifest::new();
    let mut c = model("model.c");
    c.depends_on = strings(&["model.b", "seed.s", "source.raw.x"]);
    let mut b = model("model.b");
    b.depends_on = strings(&["model.a"]);
    let a = model("model.a");
    let s = Node::new(NodeKind::Seed, "seed.s");
    let t = Node::new(NodeKind::Test, "test.t");
    manifest.nodes = vec![c, t, b, s, a];
    assert_eq!(
        nodes_in_dag_order(&manifest),
        strings(&["seed.s", "model.a", "model.b", "model.c"])
    );
}

#[test]
fn dag_order_places_every_node_of_a_cycle() {
    let mut manifest = Manifest::new();
    let mut a = model("model.a");
    a.depends_on = strings(&["model.b"]);
    let mut b = model("model.b");
    b.depends_on = strings(&["model.a"]);
    let mut c = model("model.c");
    c.depends_on = strings(&["model.a"]);
    manifest.nodes = vec![a, b, c];
    assert_eq!(
        nodes_in_dag_order(&manifest),
        strings(&["model.a", "model.b", "model.c"])
    );
}

#[test]
fn fixes_propagate_along_the_order_within_one_run() {
    // c reads b reads a; only a has the description
    let mut manifest = Manifest::new();
    let mut a = model("model.a");
    a.description = Some("a".to_string());
    a.columns.push(Column::new("id", Some("Identifies the row.")));
    let mut b = model("model.b");
    b.description = Some("b".to_string());
    b.depends_on = strings(&["model.a"]);
    b.columns.push(Column::new("id", None));
    let mut c = model("model.c");
    c.description = Some("c".to_string());
    c.depends_on = strings(&["model.b"]);
    c.columns.push(Column::new("id", Some("tbd")));
    manifest.nodes = vec![c, b, a];
    let config = Config {
        select: vec![Selector::MissingColumnDescriptions],
        render_descriptions: true,
        ..Default::default()
    }
    .with_fix(true);
    let result = check_all(&manifest, &config);
    assert!(!result.has_failures());
    assert_eq!(result.models.len(), 3);
    assert_eq!(result.models[0].model_id, "model.a");
    assert_eq!(result.models[2].model_id, "model.c");
    assert_eq!(result.model_changes.len(), 2);
    let changes = result.changes_of("model.c").unwrap();
    match &changes.changes[0] {
        ModelChange::ChangePropertiesFile { property, .. } => {
            let prop = property.as_ref().unwrap();
            assert_eq!(prop.columns.len(), 1);
            assert_eq!(
                prop.columns[0].description.as_deref(),
                Some("Identifies the row.")
            );
        }
        other => panic!("unexpected change {other:?}"),
    }
    assert!(result.model_failures().is_empty());
}

#[test]
fn report_sees_every_result_in_order() {
    let mut manifest = manifest_with_inheritable_column();
    manifest
        .sources
        .push(dbt_lint_yaml::manifest::Source::new("source.raw.orders"));
    manifest.exposures.push(dbt_lint_yaml::manifest::Exposure {
        unique_id: "exposure.e".to_string(),
        depends_on: Vec::new(),
    });
    let mut seen = Vec::new();
    let result = check_all_with_report(&manifest, &Config::default(), &Vec::new(), |event| {
        let line = match event {
            CheckEvent::Model(r) => format!("model {}", r.model_id()),
            CheckEvent::Source(r) => format!("source {}", r.source_id()),
            CheckEvent::Exposure(r) => format!("exposure {}", r.exposure_id),
        };
        seen.push(line);
    });
    assert_eq!(
        seen,
        strings(&[
            "model model.test.upstream",
            "model model.test.downstream",
            "source source.raw.orders",
            "exposure exposure.e"
        ])
    );
    assert!(result.has_failures());
    assert_eq!(result.model_failures().len(), 2);
    assert_eq!(result.source_failures().len(), 1);
    assert!(result.source("source.raw.orders").is_some());
    assert!(result.source("source.raw.none").is_none());
}

#[test]
fn generated_file_counts_for_the_run() {
    let mut manifest = Manifest::new();
    let mut m = model("model.shop.m");
    m.name = "m".to_string();
    m.original_file_path = "models/m.sql".to_string();
    manifest.nodes.push(m);
    let config = Config {
        select: vec![
            Selector::MissingPropertiesFile,
            Selector::MissingModelDescriptions,
        ],
        ..Default::default()
    }
    .with_fix(true);
    let without = check_all(&manifest, &config);
    assert_eq!(
        without.models[0].failures,
        vec![ModelFailure::MissingPropertiesFile]
    );
    let generated = vec![GeneratedFile {
        model_id: "model.shop.m".to_string(),
        patch_path: "models/m.yml".to_string(),
    }];
    let with = check_all_with_generated(&manifest, &config, &generated);
    assert!(with.models[0].is_pass());
    let changes = with.models[0].changes().unwrap();
    assert_eq!(changes.patch_path.as_deref(), Some("models/m.yml"));
    assert_eq!(changes.changes.len(), 2);
    assert!(matches!(
        changes.changes[0],
        ModelChange::GeneratePropertiesFile { .. }
    ));
}

#[test]
fn rejoined_dependencies_are_listed_in_ascending_order() {
    let mut manifest = Manifest::new();
    let mut target = model("model.t");
    target.depends_on = strings(&["model.z", "model.a", "model.m", "model.z"]);
    manifest.nodes.push(target.clone());
    children(&mut manifest, "model.z", &["model.m", "model.t"]);
    children(&mut manifest, "model.a", &["model.m", "model.t"]);
    children(&mut manifest, "model.m", &["model.t"]);
    let graph = DbtGraph::from(&manifest);
    let config = Config::default();
    assert_eq!(
        rejoining_of_upstream_concepts(&graph, &target, &config),
        Err(ModelFailure::RejoiningOfUpstreamConcepts(strings(&[
            "model.a", "model.z"
        ])))
    );
}

#[test]
fn column_results_come_in_ascending_order_of_the_names() {
    let mut manifest = Manifest::new();
    let mut node = model("model.t");
    node.description = Some("A model.".to_string());
    node.columns = vec![
        Column::new("zeta", None),
        Column::new("alpha", None),
        Column::new("mid", Some("described")),
    ];
    manifest.nodes.push(node);
    let graph = DbtGraph::from(&manifest);
    let config = Config {
        select: vec![Selector::MissingColumnDescriptions],
        ..Default::default()
    };
    let result = check_model(&manifest, &graph, &Vec::new(), "model.t", &Vec::new(), &config);
    let names: Vec<&str> = result
        .column_results
        .iter()
        .map(|r| r.column_name.as_str())
        .collect();
    assert_eq!(names, vec!["alpha", "mid", "zeta"]);
    assert!(result.column_results[0].is_failure());
    assert!(result.column_results[1].is_pass());
    assert!(result.column_results[2].is_failure());
    let reasons = result.failure_reasons();
    let alpha = reasons.iter().position(|r| r.contains("alpha")).unwrap();
    let zeta = reasons.iter().position(|r| r.contains("zeta")).unwrap();
    assert!(alpha < zeta);
}

#[test]
fn a_backing_file_lies_beside_its_model_in_any_spelling() {
    let mut node = model("model.t");
    node.original_file_path = "models/x.sql".to_string();
    node.patch_path = Some("models/./x.yml".to_string());
    let fix = Config::default().with_fix(true);
    assert_eq!(model_separate_from_properties_file(&node, &fix), Ok(None));
    node.patch_path = Some("models//x.yml".to_string());
    assert_eq!(model_separate_from_properties_file(&node, &fix), Ok(None));
    node.patch_path = Some("./models/x.yml".to_string());
    assert!(model_separate_from_properties_file(&node, &fix) != Ok(None));
}
