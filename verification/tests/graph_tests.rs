use dbt_lint_yaml::change_descriptors::ColumnChange;
use dbt_lint_yaml::change_descriptors::ModelChanges;
use dbt_lint_yaml::check::exposures::check_exposure;
use dbt_lint_yaml::check::exposures::ExposureFailure;
use dbt_lint_yaml::config::Config;
use dbt_lint_yaml::config::Selector;
use dbt_lint_yaml::graph::DbtGraph;
use dbt_lint_yaml::lists::indent_lines;
use dbt_lint_yaml::manifest::Access;
use dbt_lint_yaml::manifest::ChildEntry;
use dbt_lint_yaml::manifest::Column;
use dbt_lint_yaml::manifest::Exposure;
use dbt_lint_yaml::manifest::Manifest;
use dbt_lint_yaml::manifest::Materialization;
use dbt_lint_yaml::manifest::Node;
use dbt_lint_yaml::manifest::NodeKind;
use dbt_lint_yaml::manifest::Source;
use dbt_lint_yaml::writeback::properties::model_property_from_manifest_differences;
use dbt_lint_yaml::writeback::properties::source_property_from_manifest_differences;
use dbt_lint_yaml::writeback::properties::ColumnProperty;
use dbt_lint_yaml::writeback::properties::PropertyFile;

fn texts(items: &[&str]) -> Vec<String> {
    items.iter().map(|s| s.to_string()).collect()
}

fn entry(parent: &str, kids: &[&str]) -> ChildEntry {
    ChildEntry {
        parent: parent.to_string(),
        children: texts(kids),
    }
}

fn chain() -> Manifest {
    let mut manifest = Manifest::new();
    manifest.child_map = vec![
        entry("model.a", &["model.b", "model.c"]),
        entry("model.b", &["model.c"]),
        entry("model.d", &[]),
    ];
    manifest
}

#[test]
fn consumers_are_listed_newest_edge_first() {
    let graph = DbtGraph::from(&chain());
    assert_eq!(graph.children("model.a"), texts(&["model.c", "model.b"]));
    assert_eq!(graph.children("model.b"), texts(&["model.c"]));
    assert!(graph.children("model.c").is_empty());
    assert!(graph.children("model.d").is_empty());
}

#[test]
fn producers_are_listed_newest_edge_first() {
    let graph = DbtGraph::from(&chain());
    assert_eq!(graph.parents("model.c"), texts(&["model.b", "model.a"]));
    assert_eq!(graph.parents("model.b"), texts(&["model.a"]));
    assert!(graph.parents("model.a").is_empty());
}

#[test]
fn unknown_ids_have_no_neighbours() {
    let graph = DbtGraph::from(&chain());
    assert!(graph.children("model.zzz").is_empty());
    assert!(graph.parents("model.zzz").is_empty());
    let empty = DbtGraph::from(&Manifest::new());
    assert!(empty.children("model.a").is_empty());
    assert!(!empty.reaches("model.a", "model.a"));
}

#[test]
fn reaches_follows_the_edges_forward() {
    let graph = DbtGraph::from(&chain());
    assert!(graph.reaches("model.a", "model.b"));
    assert!(graph.reaches("model.a", "model.c"));
    assert!(graph.reaches("model.b", "model.c"));
    assert!(graph.reaches("model.a", "model.a"));
    assert!(!graph.reaches("model.c", "model.a"));
    assert!(!graph.reaches("model.b", "model.a"));
    assert!(!graph.reaches("model.a", "model.d"));
    assert!(!graph.reaches("model.a", "model.zzz"));
    assert!(!graph.reaches("model.zzz", "model.a"));
}

#[test]
fn a_node_that_is_only_consumed_is_a_node_of_the_graph() {
    let mut manifest = Manifest::new();
    manifest.child_map = vec![entry("source.raw.t", &["model.a"])];
    let graph = DbtGraph::from(&manifest);
    assert_eq!(graph.parents("model.a"), texts(&["source.raw.t"]));
    assert!(graph.reaches("source.raw.t", "model.a"));
    assert!(graph.reaches("model.a", "model.a"));
}

#[test]
fn exposure_rules_list_the_offending_models_in_order() {
    let mut manifest = Manifest::new();
    let mut hidden = Node::new(NodeKind::Model, "model.hidden");
    hidden.access = Some(Access::Private);
    hidden.materialized = Some(Materialization::Table);
    let mut view = Node::new(NodeKind::Model, "model.view");
    view.access = Some(Access::Public);
    view.materialized = Some(Materialization::View);
    let mut table = Node::new(NodeKind::Model, "model.table");
    table.access = Some(Access::Public);
    table.materialized = Some(Materialization::Incremental);
    manifest.nodes = vec![hidden, view, table];
    let exposure = Exposure {
        unique_id: "exposure.board".to_string(),
        depends_on: texts(&["model.view", "model.table", "model.hidden", "source.raw.t"]),
    };
    let result = check_exposure(&manifest, &exposure, &Config::default());
    assert_eq!(result.exposure_id, "exposure.board");
    assert_eq!(
        result.failures,
        vec![
            ExposureFailure::DependentOnPrivateModel(texts(&["model.hidden"])),
            ExposureFailure::DependentOnMaterializedModel(texts(&["model.view"])),
        ]
    );
    assert!(!result.is_pass());

    let only_private = Config {
        select: vec![Selector::ExposureDependentOnPrivateModel],
        ..Default::default()
    };
    let result = check_exposure(&manifest, &exposure, &only_private);
    assert_eq!(
        result.failures,
        vec![ExposureFailure::DependentOnPrivateModel(texts(&[
            "model.hidden"
        ]))]
    );

    let none = Config {
        select: vec![Selector::RootModels],
        ..Default::default()
    };
    assert!(check_exposure(&manifest, &exposure, &none).is_pass());
}

#[test]
fn column_changes_are_kept_by_column_in_order() {
    let mut changes = ModelChanges::new("model.a", Some("models/a.yml"));
    assert!(!changes.has_column_changes("id"));
    changes.add_column_change("id", ColumnChange::ChangePropertiesFile);
    changes.add_column_change("name", ColumnChange::ChangePropertiesFile);
    let described = ColumnChange::DescriptionChanged {
        model_id: "model.a".to_string(),
        model_name: "a".to_string(),
        patch_path: Some("models/a.yml".to_string()),
        column_name: "id".to_string(),
        old: None,
        new: Some("The key.".to_string()),
    };
    changes.add_column_change("id", described.clone());
    assert_eq!(changes.column_changes.len(), 2);
    assert_eq!(changes.column_changes[0].column_name, "id");
    assert_eq!(
        changes.column_changes_for("id"),
        Some(&vec![ColumnChange::ChangePropertiesFile, described])
    );
    assert_eq!(
        changes.column_changes_for("name"),
        Some(&vec![ColumnChange::ChangePropertiesFile])
    );
    assert_eq!(changes.column_changes_for("other"), None);
    assert!(changes.has_column_changes("name"));
    assert_eq!(changes.model_id, "model.a");
    assert_eq!(changes.patch_path.as_deref(), Some("models/a.yml"));
    assert!(changes.changes.is_empty());
}

#[test]
fn difference_of_a_model_holds_what_changed() {
    let mut before = Node::new(NodeKind::Model, "model.a");
    before.name = "a".to_string();
    before.description = Some("A model.".to_string());
    before.columns = vec![
        Column::new("id", None),
        Column::new("name", Some("The name.")),
    ];
    assert_eq!(
        model_property_from_manifest_differences(&before, &before.clone()),
        None
    );

    let mut after = before.clone();
    after.columns[0].description = Some("The key.".to_string());
    let property = model_property_from_manifest_differences(&before, &after).unwrap();
    assert_eq!(property.name.as_deref(), Some("a"));
    assert_eq!(property.description, None);
    assert_eq!(
        property.columns,
        vec![ColumnProperty::new("id", Some("The key."))]
    );

    let mut described = before.clone();
    described.description = Some("Another text.".to_string());
    let property = model_property_from_manifest_differences(&before, &described).unwrap();
    assert_eq!(property.description.as_deref(), Some("Another text."));
    assert!(property.columns.is_empty());
}

#[test]
fn difference_of_a_source_table_holds_its_description() {
    let mut before = Source::new("source.raw.orders");
    before.name = "orders".to_string();
    before.source_name = "raw".to_string();
    assert_eq!(
        source_property_from_manifest_differences(&before, &before.clone()),
        None
    );
    let mut after = before.clone();
    after.description = Some("All orders.".to_string());
    let property = source_property_from_manifest_differences(&before, &after).unwrap();
    assert_eq!(property.name, "raw");
    assert_eq!(property.description, None);
    assert_eq!(property.tables.len(), 1);
    assert_eq!(property.tables[0].name.as_deref(), Some("orders"));
    assert_eq!(property.tables[0].description.as_deref(), Some("All orders."));
}

#[test]
fn describing_a_column_needs_its_block() {
    let mut document = PropertyFile::blank();
    assert_eq!(
        document.describe_column("a", "id", &Some("x".to_string())),
        (false, false)
    );
    assert!(document.is_empty());
    let mut block = dbt_lint_yaml::writeback::properties::ModelProperty {
        name: Some("a".to_string()),
        description: None,
        columns: vec![ColumnProperty::new("id", None)],
        extras: Vec::new(),
    };
    document.upsert_model(block.clone());
    assert_eq!(
        document.describe_column("a", "missing", &Some("x".to_string())),
        (true, false)
    );
    assert_eq!(document.models.as_ref().unwrap()[0], block);
    assert_eq!(
        document.describe_column("a", "id", &Some("The key.".to_string())),
        (true, true)
    );
    block.columns[0].description = Some("The key.".to_string());
    assert_eq!(document.models.as_ref().unwrap()[0], block);
}

#[test]
fn every_rule_has_a_name_of_its_own() {
    let all = Selector::all();
    assert_eq!(all.len(), 23);
    for (i, a) in all.iter().enumerate() {
        assert_eq!(Selector::from_name(a.as_str()), Some(*a));
        for b in all.iter().skip(i + 1) {
            assert_ne!(a.as_str(), b.as_str());
        }
    }
    let fixable: Vec<Selector> = all
        .iter()
        .copied()
        .filter(|s| s.is_statically_fixable())
        .collect();
    assert_eq!(
        fixable,
        vec![
            Selector::MissingColumnDescriptions,
            Selector::MissingModelDescriptions,
            Selector::MissingSourceTableDescriptions,
            Selector::MissingPropertiesFile,
            Selector::ModelsSeparateFromPropertiesFile,
        ]
    );
}

#[test]
fn lines_are_indented_by_four_spaces() {
    assert_eq!(indent_lines(&Vec::new()), "");
    assert_eq!(indent_lines(&texts(&["a", "b c"])), "    a\n    b c\n");
}
