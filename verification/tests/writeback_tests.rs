use dbt_lint_yaml::change_descriptors::ColumnChange;
use dbt_lint_yaml::change_descriptors::ColumnChangeSet;
use dbt_lint_yaml::change_descriptors::ModelChange;
use dbt_lint_yaml::change_descriptors::ModelChanges;
use dbt_lint_yaml::config::Config;
use dbt_lint_yaml::writeback::apply_model_changes;
use dbt_lint_yaml::writeback::changes::group_changes_by_file;
use dbt_lint_yaml::writeback::plan::files_to_read;
use dbt_lint_yaml::writeback::plan::readable_changes;
use dbt_lint_yaml::writeback::properties::ColumnProperty;
use dbt_lint_yaml::writeback::properties::ExtraField;
use dbt_lint_yaml::writeback::properties::ModelProperty;
use dbt_lint_yaml::writeback::properties::PropertyFile;
use dbt_lint_yaml::writeback::properties::SourceProperty;
use dbt_lint_yaml::writeback::rust::apply_with_rust;
use dbt_lint_yaml::writeback::rust::FileAction;
use dbt_lint_yaml::writeback::rust::FileMove;
use dbt_lint_yaml::writeback::rust::GroupError;
use dbt_lint_yaml::writeback::rust::Report;
use dbt_lint_yaml::writeback::rust::StoredDocument;
use dbt_lint_yaml::writeback::WriteBackError;

fn column(name: &str, description: Option<&str>) -> ColumnProperty {
    ColumnProperty::new(name, description)
}

fn block(name: &str, description: Option<&str>, columns: Vec<ColumnProperty>) -> ModelProperty {
    ModelProperty {
        name: Some(name.to_string()),
        description: description.map(|s| s.to_string()),
        columns,
        extras: Vec::new(),
    }
}

#[test]
fn test_group_changes_by_file() {
    let path1 = "models/models.yml";
    let path2 = "models/staging/staging_models.yml";
    let changes = vec![
        ModelChanges::new("model.test.model1", Some(path1)),
        ModelChanges::new("model.test.model2", Some(path1)),
        ModelChanges::new("model.test.model3", Some(path2)),
    ];
    let grouped = group_changes_by_file(&changes);
    assert_eq!(grouped.len(), 2);
    assert_eq!(grouped[0].path, path1);
    assert_eq!(grouped[0].changes.len(), 2);
    assert_eq!(grouped[1].path, path2);
    assert_eq!(grouped[1].changes.len(), 1);
}

#[test]
fn grouping_orders_files_and_skips_changes_without_a_file() {
    let changes = vec![
        ModelChanges::new("model.a", Some("b.yml")),
        ModelChanges::new("model.b", None),
        ModelChanges::new("model.c", Some("a.yml")),
        ModelChanges::new("model.d", Some("b.yml")),
    ];
    let grouped = group_changes_by_file(&changes);
    assert_eq!(grouped.len(), 2);
    assert_eq!(grouped[0].path, "a.yml");
    assert_eq!(grouped[0].changes[0].model_id, "model.c");
    assert_eq!(grouped[1].path, "b.yml");
    assert_eq!(grouped[1].changes[0].model_id, "model.a");
    assert_eq!(grouped[1].changes[1].model_id, "model.d");
    assert!(group_changes_by_file(&Vec::new()).is_empty());
}

#[test]
fn properties_test_column_merge_fills_description() {
    let mut a = column("col_a", None);
    let mut b = column("col_a", Some("desc from b"));
    a.merge(&b);
    assert_eq!(a.description.as_deref(), Some("desc from b"), "fills description");
    b.description = Some("new desc from b".to_string());
    a.merge(&b);
    assert_eq!(
        a.description.as_deref(),
        Some("new desc from b"),
        "overwrites description"
    );
}

#[test]
fn properties_test_model_merge() {
    let mut self_model = block(
        "model_1",
        None,
        vec![column("c1", None), column("c3", Some("c3 desc"))],
    );
    let other_model = block(
        "model_1",
        Some("model description"),
        vec![column("c1", Some("c1 desc")), column("c2", Some("c2 desc"))],
    );
    self_model.merge(&other_model);
    assert_eq!(
        self_model.description.as_deref(),
        Some("model description"),
        "model description merged"
    );
    let c1 = self_model.columns.iter().find(|c| c.name == "c1").unwrap();
    assert_eq!(c1.description.as_deref(), Some("c1 desc"), "c1 description merged");
    let c2 = self_model.columns.iter().find(|c| c.name == "c2").unwrap();
    assert_eq!(c2.description.as_deref(), Some("c2 desc"), "c2 description added");
    let c3 = self_model.columns.iter().find(|c| c.name == "c3").unwrap();
    assert_eq!(
        c3.description.as_deref(),
        Some("c3 desc"),
        "c3 description unchanged"
    );
    assert_eq!(self_model.columns.len(), 3);
}

#[test]
fn properties_source_merge_merges_table_and_description() {
    let mut src_a = SourceProperty {
        name: "source_x".to_string(),
        description: None,
        tables: vec![block("t1", None, vec![])],
        extras: Vec::new(),
    };
    let src_b = SourceProperty {
        name: "source_x".to_string(),
        description: Some("source desc".to_string()),
        tables: vec![block("t1", Some("table desc"), vec![column("col_z", Some("z desc"))])],
        extras: Vec::new(),
    };
    src_a.merge(&src_b);
    assert_eq!(src_a.description.as_deref(), Some("source desc"));
    let table = src_a
        .tables
        .iter()
        .find(|t| t.name.as_deref() == Some("t1"))
        .unwrap();
    assert_eq!(table.description.as_deref(), Some("table desc"));
    let col = table.columns.iter().find(|c| c.name == "col_z").unwrap();
    assert_eq!(col.description.as_deref(), Some("z desc"));
}

#[test]
fn properties_find_model_mut_returns_mutable_reference() {
    let mut root = PropertyFile {
        models: Some(vec![block("m_x", None, vec![])]),
        sources: None,
        extras: Vec::new(),
    };
    let m = root.find_model_mut("m_x").expect("model found");
    m.description = Some("new desc".to_string());
    let m2 = root.find_model_mut("m_x").unwrap();
    assert_eq!(m2.description.as_deref(), Some("new desc"));
    assert!(root.find_model_mut("m_y").is_none());
}

#[test]
fn merge_never_blanks_a_description() {
    let mut existing = block("m", Some("kept"), vec![column("c", Some("kept too"))]);
    let incoming = block("m", None, vec![column("c", None)]);
    existing.merge(&incoming);
    assert_eq!(existing.description.as_deref(), Some("kept"));
    assert_eq!(existing.columns[0].description.as_deref(), Some("kept too"));
}

#[test]
fn merge_unites_extras_and_the_existing_field_wins() {
    let mut existing = block("m", None, vec![]);
    existing.extras = vec![ExtraField::new("meta", "{owner: a}")];
    let mut incoming = block("m", None, vec![]);
    incoming.extras = vec![
        ExtraField::new("meta", "{owner: b}"),
        ExtraField::new("tags", "[x]"),
    ];
    existing.merge(&incoming);
    assert_eq!(
        existing.extras,
        vec![
            ExtraField::new("meta", "{owner: a}"),
            ExtraField::new("tags", "[x]")
        ]
    );
}

#[test]
fn unmatched_tables_of_a_source_are_appended() {
    let mut mine = SourceProperty {
        name: "s".to_string(),
        description: Some("d".to_string()),
        tables: vec![block("t1", Some("one"), vec![])],
        extras: Vec::new(),
    };
    let other = SourceProperty {
        name: "s".to_string(),
        description: None,
        tables: vec![block("t2", Some("two"), vec![]), block("t1", None, vec![])],
        extras: Vec::new(),
    };
    mine.merge(&other);
    assert_eq!(mine.description.as_deref(), Some("d"));
    assert_eq!(mine.tables.len(), 2);
    assert_eq!(mine.tables[0].description.as_deref(), Some("one"));
    assert_eq!(mine.tables[1].name.as_deref(), Some("t2"));
}

#[test]
fn empty_documents_and_taking_blocks() {
    let mut doc = PropertyFile::blank();
    assert!(doc.is_empty());
    doc.upsert_model(block("a", None, vec![]));
    doc.upsert_model(block("b", Some("b"), vec![]));
    doc.upsert_model(block("a", Some("a"), vec![]));
    assert!(!doc.is_empty());
    assert_eq!(doc.models.as_ref().unwrap().len(), 2);
    assert_eq!(doc.find_model("b"), Some(1));
    assert_eq!(doc.find_model("c"), None);
    assert_eq!(doc.take_model("c"), None);
    let taken = doc.take_model("a").unwrap();
    assert_eq!(taken.description.as_deref(), Some("a"));
    assert_eq!(doc.models.as_ref().unwrap().len(), 1);
    assert!(doc.take_model("b").is_some());
    assert_eq!(doc.models, None);
    assert!(doc.is_empty());
    doc.extras.push(ExtraField::new("version", "2"));
    assert!(!doc.is_empty());
}

fn sample_document() -> PropertyFile {
    PropertyFile {
        models: Some(vec![block(
            "stg_order_items",
            Some("Individual food and drink items that make up our orders, one row per item."),
            vec![
                column("order_item_id", Some("The unique key for each order item.")),
                column("order_id", Some("{{ doc('order_id_desc') }}")),
            ],
        )]),
        sources: None,
        extras: vec![ExtraField::new("version", "2")],
    }
}

fn stored(path: &str, document: PropertyFile) -> StoredDocument {
    StoredDocument {
        path: path.to_string(),
        exists: true,
        document,
    }
}

fn payload_change(path: &str, column_name: &str, text: &str) -> ModelChanges {
    let model_id = "model.jaffle_shop.stg_order_items";
    ModelChanges {
        model_id: model_id.to_string(),
        patch_path: Some(path.to_string()),
        changes: vec![ModelChange::ChangePropertiesFile {
            model_id: model_id.to_string(),
            model_name: "stg_order_items".to_string(),
            patch_path: Some(path.to_string()),
            property: Some(block("stg_order_items", None, vec![column(column_name, Some(text))])),
        }],
        column_changes: vec![ColumnChangeSet {
            column_name: column_name.to_string(),
            changes: vec![ColumnChange::ChangePropertiesFile],
        }],
    }
}

#[test]
fn rust_writeback_updates_existing_column() {
    let changes = vec![payload_change("models.yml", "order_item_id", "New desc")];
    let documents = vec![stored("/project/models.yml", sample_document())];
    let res = apply_with_rust("/project", &changes, &documents);
    assert!(res.errors.is_empty());
    assert_eq!(
        res.reports,
        vec![Report {
            model_id: "model.jaffle_shop.stg_order_items".to_string(),
            columns: vec!["order_item_id".to_string()],
        }]
    );
    assert_eq!(res.actions.len(), 1);
    match &res.actions[0] {
        FileAction::Write { path, document } => {
            assert_eq!(path, "/project/models.yml");
            let model = &document.models.as_ref().unwrap()[0];
            assert_eq!(model.columns.len(), 2);
            assert_eq!(model.columns[0].description.as_deref(), Some("New desc"));
            assert_eq!(
                model.columns[1].description.as_deref(),
                Some("{{ doc('order_id_desc') }}")
            );
            assert_eq!(document.extras, vec![ExtraField::new("version", "2")]);
        }
        other => panic!("unexpected action {other:?}"),
    }
}

#[test]
fn rust_writeback_appends_missing_column() {
    let changes = vec![payload_change("models.yml", "new_col", "Appended")];
    let documents = vec![stored("/project/models.yml", sample_document())];
    let res = apply_with_rust("/project", &changes, &documents);
    assert_eq!(res.reports.len(), 1);
    match &res.actions[0] {
        FileAction::Write { document, .. } => {
            let model = &document.models.as_ref().unwrap()[0];
            assert_eq!(model.columns.len(), 3);
            assert_eq!(model.columns[2].name, "new_col");
            assert_eq!(model.columns[2].description.as_deref(), Some("Appended"));
        }
        other => panic!("unexpected action {other:?}"),
    }
}

#[test]
fn rust_writeback_moves_properties_file() {
    let model_id = "model.jaffle_shop.stg_order_items";
    let mut document = sample_document();
    document.extras.clear();
    let changes = vec![ModelChanges {
        model_id: model_id.to_string(),
        patch_path: Some("models.yml".to_string()),
        changes: vec![ModelChange::MovePropertiesFile {
            model_id: model_id.to_string(),
            model_name: "stg_order_items".to_string(),
            patch_path: Some("models.yml".to_string()),
            new_path: "nested/models.yml".to_string(),
        }],
        column_changes: Vec::new(),
    }];
    let documents = vec![stored("/project/models.yml", document.clone())];
    let res = apply_with_rust("/project", &changes, &documents);
    assert_eq!(res.reports.len(), 1);
    assert!(res.reports[0].columns.is_empty());
    assert_eq!(
        res.actions,
        vec![
            FileAction::Remove {
                path: "/project/models.yml".to_string()
            },
            FileAction::Write {
                path: "/project/nested/models.yml".to_string(),
                document,
            },
        ]
    );
}

#[test]
fn one_file_is_written_once_for_many_models() {
    let mut document = sample_document();
    document
        .models
        .as_mut()
        .unwrap()
        .push(block("stg_orders", None, vec![column("order_id", None)]));
    let mut second = payload_change("/project/models.yml", "order_id", "The order.");
    second.model_id = "model.jaffle_shop.stg_orders".to_string();
    second.changes = vec![ModelChange::ChangePropertiesFile {
        model_id: "model.jaffle_shop.stg_orders".to_string(),
        model_name: "stg_orders".to_string(),
        patch_path: Some("/project/models.yml".to_string()),
        property: Some(block(
            "stg_orders",
            Some("Orders."),
            vec![column("order_id", Some("The order."))],
        )),
    }];
    let changes = vec![
        payload_change("models.yml", "order_item_id", "First"),
        second,
        payload_change("other.yml", "x", "Elsewhere"),
    ];
    let documents = vec![stored("/project/models.yml", document)];
    let res = apply_with_rust("/project", &changes, &documents);
    assert!(res.errors.is_empty());
    assert_eq!(res.reports.len(), 3);
    assert_eq!(res.actions.len(), 2);
    match &res.actions[0] {
        FileAction::Write { path, document } => {
            assert_eq!(path, "/project/models.yml");
            let models = document.models.as_ref().unwrap();
            assert_eq!(models[0].columns[0].description.as_deref(), Some("First"));
            assert_eq!(models[1].description.as_deref(), Some("Orders."));
            assert_eq!(models[1].columns[0].description.as_deref(), Some("The order."));
        }
        other => panic!("unexpected action {other:?}"),
    }
    match &res.actions[1] {
        FileAction::Write { path, document } => {
            assert_eq!(path, "/project/other.yml");
            assert_eq!(document.models.as_ref().unwrap().len(), 1);
        }
        other => panic!("unexpected action {other:?}"),
    }
}

fn described(model_id: &str, model: &str, path: Option<&str>, column: &str, new: Option<&str>) -> ModelChanges {
    ModelChanges {
        model_id: model_id.to_string(),
        patch_path: path.map(|s| s.to_string()),
        changes: Vec::new(),
        column_changes: vec![ColumnChangeSet {
            column_name: column.to_string(),
            changes: vec![ColumnChange::DescriptionChanged {
                model_id: model_id.to_string(),
                model_name: model.to_string(),
                patch_path: path.map(|s| s.to_string()),
                column_name: column.to_string(),
                old: None,
                new: new.map(|s| s.to_string()),
            }],
        }],
    }
}

#[test]
fn a_failing_group_changes_nothing_and_the_others_go_on() {
    let changes = vec![
        described("model.a", "stg_order_items", Some("models.yml"), "order_id", Some("fine")),
        described("model.b", "stg_order_items", Some("models.yml"), "no_such_column", Some("x")),
        described("model.c", "unknown_model", Some("b.yml"), "c", Some("x")),
        described("model.d", "stg_order_items", Some("c.yml"), "order_item_id", Some("Written")),
        described("model.e", "stg_order_items", None, "order_item_id", Some("nowhere")),
    ];
    let documents = vec![
        stored("/p/models.yml", sample_document()),
        stored("/p/c.yml", sample_document()),
    ];
    let res = apply_with_rust("/p", &changes, &documents);
    assert_eq!(
        res.errors,
        vec![
            GroupError {
                path: None,
                error: WriteBackError::PatchPathMissing {
                    model_id: "model.e".to_string()
                },
            },
            GroupError {
                path: Some("/p/b.yml".to_string()),
                error: WriteBackError::ModelMissing {
                    model_id: "model.c".to_string()
                },
            },
            GroupError {
                path: Some("/p/models.yml".to_string()),
                error: WriteBackError::ColumnMissing {
                    model_id: "model.b".to_string(),
                    column_name: "no_such_column".to_string(),
                },
            },
        ]
    );
    assert_eq!(
        res.reports,
        vec![Report {
            model_id: "model.d".to_string(),
            columns: vec!["order_item_id".to_string()],
        }]
    );
    assert_eq!(res.actions.len(), 1);
    match &res.actions[0] {
        FileAction::Write { path, document } => {
            assert_eq!(path, "/p/c.yml");
            assert_eq!(
                document.models.as_ref().unwrap()[0].columns[0]
                    .description
                    .as_deref(),
                Some("Written")
            );
        }
        other => panic!("unexpected action {other:?}"),
    }
}

#[test]
fn generated_file_marker_is_reported_and_writes_nothing() {
    let changes = vec![ModelChanges {
        model_id: "model.m".to_string(),
        patch_path: Some("m.yml".to_string()),
        changes: vec![ModelChange::GeneratePropertiesFile {
            model_id: "model.m".to_string(),
            model_name: "m".to_string(),
            patch_path: Some("m.yml".to_string()),
        }],
        column_changes: Vec::new(),
    }];
    let res = apply_with_rust("", &changes, &Vec::new());
    assert_eq!(
        res.reports,
        vec![Report {
            model_id: "model.m".to_string(),
            columns: Vec::new(),
        }]
    );
    assert!(res.actions.is_empty());
    assert!(res.errors.is_empty());
    let none = apply_with_rust("", &Vec::new(), &Vec::new());
    assert!(none.reports.is_empty() && none.actions.is_empty() && none.errors.is_empty());
}

#[test]
fn write_back_error_texts() {
    assert_eq!(
        WriteBackError::PatchPathMissing {
            model_id: "model.a".to_string()
        }
        .to_string(),
        "model `model.a` is missing a patch path in the manifest"
    );
    assert_eq!(
        WriteBackError::ColumnMissing {
            model_id: "model.a".to_string(),
            column_name: "c".to_string()
        }
        .to_string(),
        "column `c` not found for model `model.a`"
    );
    assert_eq!(
        WriteBackError::ModelMissing {
            model_id: "model.a".to_string()
        }
        .to_string(),
        "model `model.a` not found in docs"
    );
}

#[test]
fn every_file_is_read_once() {
    let model_id = "model.jaffle_shop.stg_order_items";
    let mut moving = payload_change("models.yml", "order_id", "x");
    moving.changes.insert(
        0,
        ModelChange::MovePropertiesFile {
            model_id: model_id.to_string(),
            model_name: "stg_order_items".to_string(),
            patch_path: Some("models.yml".to_string()),
            new_path: "nested/models.yml".to_string(),
        },
    );
    let changes = vec![
        payload_change("models.yml", "a", "x"),
        moving,
        payload_change("/abs/other.yml", "b", "y"),
        ModelChanges::new("model.none", None),
        payload_change("nested/models.yml", "c", "z"),
    ];
    assert_eq!(
        files_to_read("/p", &changes),
        vec!["/p/models.yml", "/p/nested/models.yml", "/abs/other.yml"]
    );
    assert!(files_to_read("/p", &Vec::new()).is_empty());
    let documents = vec![stored("/p/models.yml", sample_document())];
    let outcome = apply_model_changes("/p", &changes, &documents, &Config::default());
    assert!(outcome.errors.is_empty());
    let mut written: Vec<String> = outcome
        .actions
        .iter()
        .map(|a| match a {
            FileAction::Write { path, .. } => path.clone(),
            FileAction::Remove { path } => path.clone(),
        })
        .collect();
    let count = written.len();
    written.dedup();
    assert_eq!(written.len(), count);
    assert_eq!(
        written,
        vec!["/abs/other.yml", "/p/models.yml", "/p/nested/models.yml"]
    );
    // the block that moved took the later changes with it
    match &outcome.actions[2] {
        FileAction::Write { document, .. } => {
            let block = &document.models.as_ref().unwrap()[0];
            assert_eq!(block.name.as_deref(), Some("stg_order_items"));
            assert!(block.columns.iter().any(|c| c.name == "order_id"
                && c.description.as_deref() == Some("x")));
            assert!(block.columns.iter().any(|c| c.name == "c"));
        }
        other => panic!("unexpected action {other:?}"),
    }
}

#[test]
fn groups_come_in_ascending_order_of_their_paths() {
    let changes = vec![
        ModelChanges::new("model.a", Some("models/z.yml")),
        ModelChanges::new("model.b", Some("models-old/a.yml")),
        ModelChanges::new("model.c", Some("models/a/b.yml")),
        ModelChanges::new("model.d", Some("a.yml")),
    ];
    let grouped = group_changes_by_file(&changes);
    let paths: Vec<&str> = grouped.iter().map(|g| g.path.as_str()).collect();
    let mut expected: Vec<std::path::PathBuf> = changes
        .iter()
        .map(|c| std::path::PathBuf::from(c.patch_path.clone().unwrap()))
        .collect();
    expected.sort();
    let expected: Vec<String> = expected
        .iter()
        .map(|p| p.to_string_lossy().into_owned())
        .collect();
    assert_eq!(paths, expected);
    assert_eq!(
        paths,
        vec!["a.yml", "models/a/b.yml", "models/z.yml", "models-old/a.yml"]
    );
}

#[test]
fn new_columns_are_appended_in_ascending_order_of_their_names() {
    let mut mine = block("m", None, vec![column("kept", Some("stays"))]);
    let other = block(
        "m",
        None,
        vec![
            column("zeta", Some("z")),
            column("kept", None),
            column("alpha", Some("a")),
            column("mid", None),
        ],
    );
    mine.merge(&other);
    let names: Vec<&str> = mine.columns.iter().map(|c| c.name.as_str()).collect();
    assert_eq!(names, vec!["kept", "alpha", "mid", "zeta"]);
    assert_eq!(mine.columns[0].description.as_deref(), Some("stays"));
}

#[test]
fn groups_that_name_an_unreadable_file_are_abandoned() {
    let mut moving = ModelChanges::new("model.m", Some("old.yml"));
    moving.changes.push(ModelChange::MovePropertiesFile {
        model_id: "model.m".to_string(),
        model_name: "m".to_string(),
        patch_path: Some("old.yml".to_string()),
        new_path: "broken.yml".to_string(),
    });
    let changes = vec![
        ModelChanges::new("model.a", Some("fine.yml")),
        ModelChanges::new("model.b", Some("broken.yml")),
        ModelChanges::new("model.c", Some("old.yml")),
        moving,
        ModelChanges::new("model.d", Some("/p/fine.yml")),
        ModelChanges::new("model.e", None),
    ];
    let unreadable = vec!["/p//./broken.yml".to_string()];
    let kept = readable_changes("/p", &changes, &unreadable);
    let ids: Vec<&str> = kept.iter().map(|c| c.model_id.as_str()).collect();
    assert_eq!(ids, vec!["model.a", "model.d", "model.e"]);
    assert_eq!(readable_changes("/p", &changes, &Vec::new()), changes);
}

#[test]
fn two_spellings_of_one_file_are_one_file() {
    let mut first = payload_change("a/b.yml", "order_item_id", "First");
    first.model_id = "model.one".to_string();
    let mut second = payload_change("a//./b.yml", "order_id", "Second");
    second.model_id = "model.two".to_string();
    let changes = vec![first, second];

    assert_eq!(files_to_read("/p", &changes), vec!["/p/a/b.yml"]);
    let grouped = group_changes_by_file(&changes);
    assert_eq!(grouped.len(), 1);
    assert_eq!(grouped[0].path, "a/b.yml");
    assert_eq!(grouped[0].changes.len(), 2);

    // the document is found although it was read under another spelling
    let documents = vec![stored("/p//a/b.yml", sample_document())];
    let outcome = apply_with_rust("/p/", &changes, &documents);
    assert!(outcome.errors.is_empty());
    assert_eq!(outcome.actions.len(), 1);
    match &outcome.actions[0] {
        FileAction::Write { path, document } => {
            assert_eq!(path, "/p/a/b.yml");
            let block = &document.models.as_ref().unwrap()[0];
            assert!(block.columns.iter().any(|c| c.name == "order_item_id"
                && c.description.as_deref() == Some("First")));
            assert!(block.columns.iter().any(|c| c.name == "order_id"
                && c.description.as_deref() == Some("Second")));
        }
        other => panic!("unexpected action {other:?}"),
    }
    assert_eq!(outcome.reports.len(), 2);
}

#[test]
fn a_model_file_moves_when_its_group_succeeds() {
    let mut moving = ModelChanges::new("model.a", Some("models.yml"));
    moving.changes.push(ModelChange::MoveModelFile {
        model_id: "model.a".to_string(),
        model_name: "a".to_string(),
        patch_path: Some("models/a.sql".to_string()),
        new_path: "models//staging/a.sql".to_string(),
    });
    let mut lost = ModelChanges::new("model.b", Some("other.yml"));
    lost.changes.push(ModelChange::MoveModelFile {
        model_id: "model.b".to_string(),
        model_name: "b".to_string(),
        patch_path: None,
        new_path: "models/b.sql".to_string(),
    });
    let outcome = apply_with_rust("/p", &vec![moving, lost], &Vec::new());
    assert_eq!(
        outcome.moves,
        vec![FileMove {
            from: "/p/models/a.sql".to_string(),
            to: "/p/models/staging/a.sql".to_string(),
        }]
    );
    assert_eq!(
        outcome.errors,
        vec![GroupError {
            path: Some("/p/other.yml".to_string()),
            error: WriteBackError::PatchPathMissing {
                model_id: "model.b".to_string()
            },
        }]
    );
    assert!(outcome.actions.is_empty());
    assert_eq!(
        outcome.reports,
        vec![Report {
            model_id: "model.a".to_string(),
            columns: Vec::new(),
        }]
    );
    assert_eq!(files_to_read("/p", &Vec::new()), Vec::<String>::new());
}
