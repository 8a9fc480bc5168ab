use dbt_lint_yaml::writeback::properties::ColumnProperty;
use dbt_lint_yaml::writeback::properties::ModelProperty;
use dbt_lint_yaml::writeback::properties::PropertyFile;
use dbt_lint_yaml::writeback::properties::SourceProperty;

#[test]
fn doc_test_column_merge_fills_description() {
    let mut a = ColumnProperty {
        name: "col_a".to_string(),
        description: None,
        extras: Vec::new(),
    };
    let mut b = ColumnProperty {
        name: "col_a".to_string(),
        description: Some("desc from b".to_string()),
        extras: Vec::new(),
    };

    a.merge(&b);
    assert_eq!(a.description.as_deref(), Some("desc from b"), "fills description");

    b.description = Some("new desc from b".to_string());
    a.merge(&b);
    assert_eq!(
        a.description.as_deref(),
        Some("new desc from b"),
        "overwrites description"
    );
}

#[test]
fn doc_test_model_merge() {
    let mut self_model = ModelProperty {
        name: Some("model_1".to_string()),
        description: None,
        columns: vec![
            ColumnProperty {
                name: "c1".to_string(),
                description: None,
                extras: Vec::new(),
            },
            ColumnProperty {
                name: "c3".to_string(),
                description: Some("c3 desc".to_string()),
                extras: Vec::new(),
            },
        ],
        extras: Vec::new(),
    };

    let other_model = ModelProperty {
        name: Some("model_1".to_string()),
        description: Some("model description".to_string()),
        columns: vec![
            ColumnProperty {
                name: "c1".to_string(),
                description: Some("c1 desc".to_string()),
                extras: Vec::new(),
            },
            ColumnProperty {
                name: "c2".to_string(),
                description: Some("c2 desc".to_string()),
                extras: Vec::new(),
            },
        ],
        extras: Vec::new(),
    };

    self_model.merge(&other_model);
    assert_eq!(
        self_model.description.as_deref(),
        Some("model description"),
        "model description merged"
    );

    let c1 = self_model.columns.iter().find(|c| c.name == "c1").unwrap();
    assert_eq!(
        c1.description.as_deref(),
        Some("c1 desc"),
        "c1 description merged"
    );

    let c2 = self_model.columns.iter().find(|c| c.name == "c2").unwrap();
    assert_eq!(
        c2.description.as_deref(),
        Some("c2 desc"),
        "c2 description added"
    );

    let c3 = self_model.columns.iter().find(|c| c.name == "c3").unwrap();
    assert_eq!(
        c3.description.as_deref(),
        Some("c3 desc"),
        "c3 description unchanged"
    );
}

#[test]
fn doc_source_merge_merges_table_and_description() {
    let mut src_a = SourceProperty {
        name: "source_x".to_string(),
        description: None,
        tables: vec![ModelProperty {
            name: Some("t1".to_string()),
            description: None,
            columns: vec![],
            extras: Vec::new(),
        }],
        extras: Vec::new(),
    };

    let src_b = SourceProperty {
        name: "source_x".to_string(),
        description: Some("source desc".to_string()),
        tables: vec![ModelProperty {
            name: Some("t1".to_string()),
            description: Some("table desc".to_string()),
            columns: vec![ColumnProperty {
                name: "col_z".to_string(),
                description: Some("z desc".to_string()),
                extras: Vec::new(),
            }],
            extras: Vec::new(),
        }],
        extras: Vec::new(),
    };

    src_a.merge(&src_b);
    assert_eq!(src_a.description.as_deref(), Some("source desc"));
    let table = src_a
        .tables
        .iter()
        .find(|t| t.name.as_deref() == Some("t1"))
        .unwrap();
    assert_eq!(table.description.as_deref(), Some("table desc"));
    let col = table.columns.iter().find(|c| c.name == "col_z").unwrap();
    assert_eq!(col.description.as_deref(), Some("z desc"));
}

#[test]
fn doc_find_model_mut_returns_mutable_reference() {
    let mut root = PropertyFile {
        models: Some(vec![ModelProperty {
            name: Some("m_x".to_string()),
            description: None,
            columns: vec![],
            extras: Vec::new(),
        }]),
        sources: None,
        extras: Vec::new(),
    };

    let m = root.find_model_mut("m_x").expect("model found");
    m.description = Some("new desc".to_string());
    let m2 = root.find_model_mut("m_x").unwrap();
    assert_eq!(m2.description.as_deref(), Some("new desc"));
}
