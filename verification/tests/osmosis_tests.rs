use dbt_lint_yaml::change_descriptors::ColumnChange;
use dbt_lint_yaml::change_descriptors::ColumnChangeSet;
use dbt_lint_yaml::change_descriptors::ModelChange;
use dbt_lint_yaml::change_descriptors::ModelChanges;
use dbt_lint_yaml::config::Config;
use dbt_lint_yaml::manifest::Column;
use dbt_lint_yaml::manifest::Doc;
use dbt_lint_yaml::manifest::Manifest;
use dbt_lint_yaml::manifest::Node;
use dbt_lint_yaml::manifest::NodeKind;
use dbt_lint_yaml::manifest::Source;
use dbt_lint_yaml::osmosis::get_upstream_col_desc;
use dbt_lint_yaml::osmosis::lookup_model_change_description;
use dbt_lint_yaml::writeback::properties::ColumnProperty;
use dbt_lint_yaml::writeback::properties::ModelProperty;

fn description_changed(
    model_id: &str,
    model_name: &str,
    column: &str,
    old: Option<&str>,
    new: Option<&str>,
) -> ColumnChange {
    ColumnChange::DescriptionChanged {
        model_id: model_id.to_string(),
        model_name: model_name.to_string(),
        patch_path: None,
        column_name: column.to_string(),
        old: old.map(|s| s.to_string()),
        new: new.map(|s| s.to_string()),
    }
}

fn model_changes_fixture() -> Vec<ModelChanges> {
    let customers = ModelChanges {
        model_id: "model.jaffle_shop.customers".to_string(),
        patch_path: None,
        changes: Vec::new(),
        column_changes: vec![ColumnChangeSet {
            column_name: "customer_id".to_string(),
            changes: vec![description_changed(
                "model.jaffle_shop.customers",
                "customers",
                "customer_id",
                Some("Old description"),
                Some("Fresh description"),
            )],
        }],
    };
    let orders = ModelChanges {
        model_id: "model.jaffle_shop.orders".to_string(),
        patch_path: None,
        changes: Vec::new(),
        column_changes: vec![ColumnChangeSet {
            column_name: "order_id".to_string(),
            changes: vec![description_changed(
                "model.jaffle_shop.orders",
                "orders",
                "order_id",
                None,
                Some("New order description"),
            )],
        }],
    };
    vec![customers, orders]
}

fn node(kind: NodeKind, id: &str, deps: &[&str]) -> Node {
    let mut n = Node::new(kind, id);
    n.depends_on = deps.iter().map(|s| s.to_string()).collect();
    n
}

fn manifest_fixture() -> Manifest {
    // source.customers -> base_customers -> customers -> orders
    // snapshot.customers_snapshot; seed.payments -> payments, customers
    let mut manifest = Manifest::new();
    manifest.nodes.push(node(
        NodeKind::Model,
        "model.jaffle_shop.base_customers",
        &["source.jaffle_shop.customers"],
    ));
    let mut customers = node(
        NodeKind::Model,
        "model.jaffle_shop.customers",
        &["model.jaffle_shop.base_customers", "seed.jaffle_shop.payments"],
    );
    customers
        .columns
        .push(Column::new("customer_id", Some("Customer id from manifest")));
    manifest.nodes.push(customers);
    manifest.nodes.push(node(
        NodeKind::Model,
        "model.jaffle_shop.orders",
        &["model.jaffle_shop.customers"],
    ));
    manifest.nodes.push(node(
        NodeKind::Model,
        "model.jaffle_shop.payments",
        &["seed.jaffle_shop.payments"],
    ));
    let mut seed = node(NodeKind::Seed, "seed.jaffle_shop.payments", &[]);
    seed.columns.push(Column::new("payment_id", None));
    manifest.nodes.push(seed);
    let mut snapshot = node(
        NodeKind::Snapshot,
        "snapshot.jaffle_shop.customers_snapshot",
        &[],
    );
    snapshot
        .columns
        .push(Column::new("customer_id", Some("Customer id from snapshot")));
    manifest.nodes.push(snapshot);
    let mut source = Source::new("source.jaffle_shop.customers");
    source
        .columns
        .push(Column::new("customer_id", Some("Customer id from source")));
    manifest.sources.push(source);
    manifest
}

#[test]
fn prefers_model_changes_over_manifest_columns() {
    let manifest = manifest_fixture();
    let model_changes = model_changes_fixture();
    let result = get_upstream_col_desc(
        &manifest,
        Some(&model_changes),
        "model.jaffle_shop.orders",
        "customer_id",
        &Config::default(),
    );
    assert_eq!(result.as_deref(), Some("Fresh description"));
}

#[test]
fn returns_description_from_upstream_model_column() {
    let manifest = manifest_fixture();
    let result = get_upstream_col_desc(
        &manifest,
        None,
        "model.jaffle_shop.orders",
        "customer_id",
        &Config::default(),
    );
    assert_eq!(result.as_deref(), Some("Customer id from manifest"));
}

#[test]
fn returns_description_from_upstream_source_column() {
    let manifest = manifest_fixture();
    let result = get_upstream_col_desc(
        &manifest,
        None,
        "model.jaffle_shop.base_customers",
        "customer_id",
        &Config::default(),
    );
    assert_eq!(result.as_deref(), Some("Customer id from source"));
}

#[test]
fn returns_none_when_no_upstream_description_found() {
    let manifest = manifest_fixture();
    let model_changes = model_changes_fixture();
    let result = get_upstream_col_desc(
        &manifest,
        Some(&model_changes),
        "model.jaffle_shop.payments",
        "payment_id",
        &Config::default(),
    );
    assert!(result.is_none());
}

#[test]
fn does_not_propagate_invalid_upstream_model_description() {
    let mut manifest = Manifest::new();
    let mut upstream = node(NodeKind::Model, "model.upstream", &[]);
    upstream.columns.push(Column::new("col", Some("TBD")));
    manifest.nodes.push(upstream);
    manifest
        .nodes
        .push(node(NodeKind::Model, "model.downstream", &["model.upstream"]));
    let result = get_upstream_col_desc(
        &manifest,
        None,
        "model.downstream",
        "col",
        &Config::default(),
    );
    assert!(result.is_none());
}

#[test]
fn does_not_propagate_invalid_upstream_source_description() {
    let mut manifest = Manifest::new();
    let mut source = Source::new("source.test.src");
    source.columns.push(Column::new("col", Some("FILL ME OUT")));
    manifest.sources.push(source);
    manifest
        .nodes
        .push(node(NodeKind::Model, "model.downstream", &["source.test.src"]));
    let result = get_upstream_col_desc(
        &manifest,
        None,
        "model.downstream",
        "col",
        &Config::default(),
    );
    assert!(result.is_none());
}

#[test]
fn returns_new_description_when_present() {
    let model_changes = model_changes_fixture();
    let result = lookup_model_change_description(
        &model_changes,
        "model.jaffle_shop.customers",
        "customer_id",
    );
    assert_eq!(result.as_deref(), Some("Fresh description"));
}

#[test]
fn returns_none_when_model_or_column_missing() {
    let model_changes = model_changes_fixture();
    let missing_column = lookup_model_change_description(
        &model_changes,
        "model.jaffle_shop.orders",
        "customer_id",
    );
    assert!(missing_column.is_none());
    let missing_model = lookup_model_change_description(
        &model_changes,
        "model.jaffle_shop.customers",
        "order_id",
    );
    assert!(missing_model.is_none());
}

#[test]
fn payload_of_the_node_gives_the_value_of_a_marker() {
    let changes = vec![ModelChanges {
        model_id: "model.u".to_string(),
        patch_path: Some("u.yml".to_string()),
        changes: vec![
            ModelChange::GeneratePropertiesFile {
                model_id: "model.u".to_string(),
                model_name: "u".to_string(),
                patch_path: Some("u.yml".to_string()),
            },
            ModelChange::ChangePropertiesFile {
                model_id: "model.u".to_string(),
                model_name: "u".to_string(),
                patch_path: Some("u.yml".to_string()),
                property: Some(ModelProperty {
                    name: Some("u".to_string()),
                    description: None,
                    columns: vec![ColumnProperty::new("id", Some("From the payload"))],
                    extras: Vec::new(),
                }),
            },
        ],
        column_changes: vec![ColumnChangeSet {
            column_name: "id".to_string(),
            changes: vec![ColumnChange::ChangePropertiesFile],
        }],
    }];
    assert_eq!(
        lookup_model_change_description(&changes, "model.u", "id").as_deref(),
        Some("From the payload")
    );
    assert_eq!(lookup_model_change_description(&changes, "model.u", "x"), None);
}

#[test]
fn first_dependency_with_a_value_wins() {
    let mut manifest = Manifest::new();
    let mut a = node(NodeKind::Model, "model.a", &[]);
    a.columns.push(Column::new("c", Some("  ")));
    let mut b = node(NodeKind::Seed, "seed.b", &[]);
    b.columns.push(Column::new("c", Some("from b")));
    let mut c = node(NodeKind::Snapshot, "snapshot.c", &[]);
    c.columns.push(Column::new("c", Some("from c")));
    let mut t = node(NodeKind::Test, "test.t", &[]);
    t.columns.push(Column::new("c", Some("from a test")));
    manifest.nodes = vec![a, b, c, t];
    manifest.nodes.push(node(
        NodeKind::Model,
        "model.d",
        &["test.t", "model.a", "snapshot.c", "seed.b"],
    ));
    manifest
        .nodes
        .push(node(NodeKind::Seed, "seed.e", &["seed.b"]));
    let config = Config::default();
    assert_eq!(
        get_upstream_col_desc(&manifest, None, "model.d", "c", &config).as_deref(),
        Some("from c")
    );
    // only models inherit
    assert_eq!(get_upstream_col_desc(&manifest, None, "seed.e", "c", &config), None);
    assert_eq!(get_upstream_col_desc(&manifest, None, "model.none", "c", &config), None);
}

#[test]
fn doc_reference_is_preferred_unless_rendered() {
    let mut manifest = Manifest::new();
    let mut up = node(NodeKind::Model, "model.up", &[]);
    up.columns.push(Column::new("order_id", Some("The order.")));
    manifest.nodes.push(up);
    manifest
        .nodes
        .push(node(NodeKind::Model, "model.down", &["model.up"]));
    manifest.docs.push(Doc {
        unique_id: "doc.shop.other".to_string(),
        name: "other".to_string(),
        block_contents: "Something else.".to_string(),
    });
    manifest.docs.push(Doc {
        unique_id: "doc.shop.order_id".to_string(),
        name: "order_id".to_string(),
        block_contents: "The order.".to_string(),
    });
    let config = Config::default();
    assert_eq!(
        get_upstream_col_desc(&manifest, None, "model.down", "order_id", &config).as_deref(),
        Some("{{doc('order_id')}}")
    );
    let verbatim = Config {
        render_descriptions: true,
        ..Default::default()
    };
    assert_eq!(
        get_upstream_col_desc(&manifest, None, "model.down", "order_id", &verbatim).as_deref(),
        Some("The order.")
    );
}
