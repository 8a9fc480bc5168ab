use dbt_lint_yaml::check::check_all;
use dbt_lint_yaml::check::models::ModelFailure;
use dbt_lint_yaml::check::sources::SourceFailure;
use dbt_lint_yaml::config::Config;
use dbt_lint_yaml::config::Selector;
use dbt_lint_yaml::graph::DbtGraph;
use dbt_lint_yaml::manifest::ChildEntry;
use dbt_lint_yaml::manifest::Column;
use dbt_lint_yaml::manifest::Manifest;
use dbt_lint_yaml::manifest::Node;
use dbt_lint_yaml::manifest::NodeKind;
use dbt_lint_yaml::manifest::Source;
use dbt_lint_yaml::writeback::properties::ColumnProperty;
use dbt_lint_yaml::writeback::properties::ModelProperty;
use dbt_lint_yaml::writeback::properties::PropertyFile;
use dbt_lint_yaml::writeback::rust::apply_with_rust;
use dbt_lint_yaml::writeback::rust::FileAction;
use dbt_lint_yaml::writeback::rust::StoredDocument;

fn entry(parent: &str, kids: &[&str]) -> ChildEntry {
    ChildEntry {
        parent: parent.to_string(),
        children: kids.iter().map(|s| s.to_string()).collect(),
    }
}

fn model(id: &str, deps: &[&str]) -> Node {
    let mut n = Node::new(NodeKind::Model, id);
    n.depends_on = deps.iter().map(|s| s.to_string()).collect();
    n
}

#[test]
fn scenario_direct_join_and_missing_freshness() {
    let mut manifest = Manifest::new();
    manifest.sources.push(Source::new("source.raw.orders"));
    manifest
        .nodes
        .push(model("model.stg_orders", &["source.raw.orders"]));
    manifest.nodes.push(model(
        "model.fct_orders",
        &["model.stg_orders", "source.raw.orders"],
    ));
    manifest.child_map = vec![
        entry("source.raw.orders", &["model.stg_orders", "model.fct_orders"]),
        entry("model.stg_orders", &["model.fct_orders"]),
    ];
    let result = check_all(&manifest, &Config::default());
    let fct = result.model("model.fct_orders").unwrap();
    assert!(fct
        .failures
        .contains(&ModelFailure::DirectJoinToSource(vec![
            "source.raw.orders".to_string()
        ])));
    assert!(!fct
        .failures
        .iter()
        .any(|f| matches!(f, ModelFailure::MultipleSourcesJoined(_))));
    let raw = result.source("source.raw.orders").unwrap();
    assert!(raw.failures.contains(&SourceFailure::MissingFreshness));
    assert!(result.has_failures());
}

#[test]
fn scenario_fanout_carries_the_count() {
    let mut manifest = Manifest::new();
    manifest.nodes.push(model("model.a", &[]));
    manifest.nodes.push(model("model.b", &["model.a"]));
    manifest.nodes.push(model("model.c", &["model.a"]));
    manifest.child_map = vec![entry("model.a", &["model.b", "model.c", "test.t"])];
    let config = Config {
        model_fanout_threshold: 1,
        ..Default::default()
    };
    let result = check_all(&manifest, &config);
    let a = result.model("model.a").unwrap();
    assert!(a.failures.contains(&ModelFailure::ModelFanout(2)));
}

#[test]
fn scenario_fanout_counts_a_consumer_once() {
    let mut manifest = Manifest::new();
    manifest.nodes.push(model("model.a", &[]));
    manifest.child_map = vec![
        entry("model.a", &["model.b", "model.b"]),
        entry("model.a", &["model.b"]),
    ];
    let graph = DbtGraph::from(&manifest);
    assert_eq!(graph.children("model.a"), vec!["model.b".to_string()]);
    assert_eq!(graph.parents("model.b"), vec!["model.a".to_string()]);
}

#[test]
fn scenario_rejoining_flags_the_upstream_concept() {
    let mut manifest = Manifest::new();
    manifest.nodes.push(model("model.a", &[]));
    manifest.nodes.push(model("model.b", &["model.a"]));
    manifest.nodes.push(model("model.c", &["model.a", "model.b"]));
    manifest.child_map = vec![
        entry("model.a", &["model.b", "model.c"]),
        entry("model.b", &["model.c"]),
    ];
    let config = Config {
        select: vec![Selector::RejoiningOfUpstreamConcepts],
        ..Default::default()
    };
    let result = check_all(&manifest, &config);
    assert_eq!(
        result.model("model.c").unwrap().failures,
        vec![ModelFailure::RejoiningOfUpstreamConcepts(vec![
            "model.a".to_string()
        ])]
    );
    assert!(result.model("model.a").unwrap().is_pass());
    assert!(result.model("model.b").unwrap().is_pass());
}

#[test]
fn scenario_description_is_pulled_and_written_verbatim() {
    let mut manifest = Manifest::new();
    let mut u = model("model.shop.u", &[]);
    u.columns
        .push(Column::new("col", Some("Identifies the customer.")));
    let mut d = model("model.shop.d", &["model.shop.u"]);
    d.name = "d".to_string();
    d.patch_path = Some("models/d.yml".to_string());
    d.columns.push(Column::new("col", None));
    manifest.nodes = vec![d, u];
    let config = Config {
        select: vec![Selector::MissingColumnDescriptions],
        render_descriptions: true,
        ..Default::default()
    }
    .with_fix(true);
    let result = check_all(&manifest, &config);
    assert!(!result.has_failures());
    assert_eq!(result.model_changes.len(), 1);

    let existing = PropertyFile {
        models: Some(vec![ModelProperty {
            name: Some("d".to_string()),
            description: Some("Downstream.".to_string()),
            columns: vec![ColumnProperty::new("col", None)],
            extras: Vec::new(),
        }]),
        sources: None,
        extras: Vec::new(),
    };
    let documents = vec![StoredDocument {
        path: "/shop/models/d.yml".to_string(),
        exists: true,
        document: existing,
    }];
    let written = apply_with_rust("/shop", &result.model_changes, &documents);
    assert!(written.errors.is_empty());
    assert_eq!(written.reports.len(), 1);
    assert_eq!(written.reports[0].model_id, "model.shop.d");
    assert_eq!(written.reports[0].columns, vec!["col".to_string()]);
    match &written.actions[0] {
        FileAction::Write { path, document } => {
            assert_eq!(path, "/shop/models/d.yml");
            let block = &document.models.as_ref().unwrap()[0];
            assert_eq!(block.description.as_deref(), Some("Downstream."));
            assert_eq!(
                block.columns[0].description.as_deref(),
                Some("Identifies the customer.")
            );
        }
        other => panic!("unexpected action {other:?}"),
    }
}

#[test]
fn scenario_second_run_on_fixed_nodes_changes_nothing() {
    let mut manifest = Manifest::new();
    let mut u = model("model.shop.u", &[]);
    u.description = Some("Upstream.".to_string());
    u.patch_path = Some("models/u.yml".to_string());
    u.original_file_path = "models/u.sql".to_string();
    u.columns.push(Column::new("col", Some("Identifies the customer.")));
    let mut d = model("model.shop.d", &["model.shop.u"]);
    d.patch_path = Some("models/d.yml".to_string());
    d.original_file_path = "models/d.sql".to_string();
    d.columns.push(Column::new("col", None));
    manifest.nodes = vec![u, d];
    let config = Config {
        select: vec![
            Selector::MissingColumnDescriptions,
            Selector::MissingModelDescriptions,
            Selector::ModelsSeparateFromPropertiesFile,
        ],
        render_descriptions: true,
        ..Default::default()
    }
    .with_fix(true);
    let first = check_all(&manifest, &config);
    assert_eq!(first.model_changes.len(), 1);
    // what the first run fixed, as the node set holds it afterwards
    manifest.nodes[1].description = Some("Auto-generated description".to_string());
    manifest.nodes[1].columns[0].description = Some("Identifies the customer.".to_string());
    let second = check_all(&manifest, &config);
    assert!(second.model_changes.is_empty());
    assert!(!second.has_failures());
}

#[test]
fn scenario_nodes_without_dependencies() {
    let mut manifest = Manifest::new();
    manifest.nodes.push(model("model.root", &[]));
    let result = check_all(&manifest, &Config::default());
    let failures = &result.models[0].failures;
    assert!(failures.contains(&ModelFailure::RootModel));
    assert!(!failures
        .iter()
        .any(|f| matches!(f, ModelFailure::DirectJoinToSource(_))));
    assert!(!failures
        .iter()
        .any(|f| matches!(f, ModelFailure::MultipleSourcesJoined(_))));
}

#[test]
fn the_outcome_is_ordered_by_id() {
    let mut manifest = Manifest::new();
    let mut z = model("model.z", &[]);
    z.columns.push(Column::new("col", Some("From z.")));
    z.patch_path = Some("models/z.yml".to_string());
    let mut a = model("model.a", &["model.z"]);
    a.columns.push(Column::new("col", None));
    a.patch_path = Some("models/a.yml".to_string());
    let mut m = model("model.m", &["model.a"]);
    m.columns.push(Column::new("col", None));
    m.patch_path = Some("models/m.yml".to_string());
    manifest.nodes = vec![m, z, a];
    manifest.sources.push(Source::new("source.raw.z"));
    manifest.sources.push(Source::new("source.raw.a"));
    let config = Config {
        select: vec![Selector::MissingColumnDescriptions],
        render_descriptions: true,
        ..Default::default()
    }
    .with_fix(true);
    let result = check_all(&manifest, &config);
    let ids: Vec<&str> = result.models.iter().map(|r| r.model_id()).collect();
    assert_eq!(ids, vec!["model.a", "model.m", "model.z"]);
    let changed: Vec<&str> = result
        .model_changes
        .iter()
        .map(|c| c.model_id.as_str())
        .collect();
    assert_eq!(changed, vec!["model.a", "model.m"]);
    let sources: Vec<&str> = result.sources.iter().map(|r| r.source_id()).collect();
    assert_eq!(sources, vec!["source.raw.a", "source.raw.z"]);
    // the description went down the chain although `model.m` stands first
    assert!(!result.has_failures());
}
