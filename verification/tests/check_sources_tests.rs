use dbt_lint_yaml::change_descriptors::SourceChange;
use dbt_lint_yaml::check::docs::duplicate_docs;
use dbt_lint_yaml::check::docs::DocFailure;
use dbt_lint_yaml::check::docs::DocResult;
use dbt_lint_yaml::check::exposures::check_exposures;
use dbt_lint_yaml::check::exposures::exposure_dependent_on_private_model;
use dbt_lint_yaml::check::exposures::exposure_parents_materializations;
use dbt_lint_yaml::check::exposures::ExposureFailure;
use dbt_lint_yaml::check::sources::check_source;
use dbt_lint_yaml::check::sources::check_sources;
use dbt_lint_yaml::check::sources::duplicate_source;
use dbt_lint_yaml::check::sources::missing_source_column_descriptions;
use dbt_lint_yaml::check::sources::missing_source_description;
use dbt_lint_yaml::check::sources::missing_source_freshness;
use dbt_lint_yaml::check::sources::missing_source_table_description;
use dbt_lint_yaml::check::sources::source_fanout;
use dbt_lint_yaml::check::sources::unused_source;
use dbt_lint_yaml::check::sources::SourceFailure;
use dbt_lint_yaml::config::Config;
use dbt_lint_yaml::config::Selector;
use dbt_lint_yaml::manifest::Access;
use dbt_lint_yaml::manifest::ChildEntry;
use dbt_lint_yaml::manifest::Column;
use dbt_lint_yaml::manifest::Doc;
use dbt_lint_yaml::manifest::Exposure;
use dbt_lint_yaml::manifest::Freshness;
use dbt_lint_yaml::manifest::FreshnessPeriod;
use dbt_lint_yaml::manifest::FreshnessRule;
use dbt_lint_yaml::manifest::Manifest;
use dbt_lint_yaml::manifest::Materialization;
use dbt_lint_yaml::manifest::Node;
use dbt_lint_yaml::manifest::NodeKind;
use dbt_lint_yaml::manifest::Source;

fn entry(parent: &str, kids: &[&str]) -> ChildEntry {
    ChildEntry {
        parent: parent.to_string(),
        children: kids.iter().map(|s| s.to_string()).collect(),
    }
}

#[test]
fn test_missing_source_description() {
    let source = Source::new("source.raw.orders");
    let result = missing_source_description(&source, &Config::default());
    assert!(matches!(
        result,
        Err(SourceFailure::MissingSourceDescription)
    ));
}

#[test]
fn test_missing_source_description_invalid_marker() {
    let mut source = Source::new("source.raw.orders");
    source.source_description = "tbd".to_string();
    let result = missing_source_description(&source, &Config::default());
    assert!(matches!(
        result,
        Err(SourceFailure::MissingSourceDescription)
    ));
    source.source_description = "Raw data of the shop.".to_string();
    assert_eq!(missing_source_description(&source, &Config::default()), Ok(()));
}

#[test]
fn test_duplicate_source() {
    let mut manifest = Manifest::new();
    let mut source = Source::new("source.raw.orders");
    source.identifier = "orders".to_string();
    source.source_name = "raw".to_string();
    source.name = "different".to_string();
    manifest.sources.push(source);

    let mut duplicate = Source::new("source.raw.orders_dupe");
    duplicate.identifier = "orders".to_string();
    duplicate.source_name = "raw".to_string();
    manifest.sources.push(duplicate.clone());

    let err = duplicate_source(&manifest, &duplicate, &Config::default())
        .expect_err("expected duplicate source failure");
    assert_eq!(
        err,
        SourceFailure::DuplicateDefinition("source.raw.orders".to_string())
    );
}

#[test]
fn duplicate_source_reports_the_first_match_only() {
    let mut manifest = Manifest::new();
    for id in ["source.raw.a", "source.raw.b", "source.raw.c"] {
        let mut s = Source::new(id);
        s.identifier = "orders".to_string();
        s.source_name = "raw".to_string();
        s.name = id.to_string();
        manifest.sources.push(s);
    }
    let probe = manifest.sources[0].clone();
    assert_eq!(
        duplicate_source(&manifest, &probe, &Config::default()),
        Err(SourceFailure::DuplicateDefinition("source.raw.b".to_string()))
    );
    let mut same_name = manifest.sources[0].clone();
    same_name.name = "orders".to_string();
    assert_eq!(
        duplicate_source(&manifest, &same_name, &Config::default()),
        Ok(())
    );
}

#[test]
fn sources_test_unused_source() {
    let mut manifest = Manifest::new();
    let source = Source::new("source.raw.orders");
    manifest.child_map.push(entry("source.raw.orders", &[]));
    let result = unused_source(&manifest, &source, &Config::default());
    assert!(matches!(result, Err(SourceFailure::UnusedSource)));
}

#[test]
fn check_test_unused_source() {
    let mut manifest = Manifest::new();
    let bad_source = Source::new("source.test.raw_layer.orders");
    manifest
        .child_map
        .push(entry("source.test.raw_layer.orders", &[]));
    manifest.sources.push(bad_source.clone());
    let good_source = Source::new("source.test.raw_layer.customers");
    manifest.sources.push(good_source.clone());
    manifest.child_map.push(entry(
        "source.test.raw_layer.customers",
        &["model.test.model"],
    ));
    let config = Config::default();
    assert!(
        unused_source(&manifest, &good_source, &config).is_ok(),
        "used source should not trigger"
    );
    assert!(
        unused_source(&manifest, &bad_source, &config).is_err(),
        "unused source should trigger"
    );
}

#[test]
fn sources_test_missing_source_freshness() {
    let mut source = Source::new("source.raw.orders");
    let mut freshness = Freshness {
        warn_after: None,
        error_after: None,
    };
    source.freshness = Some(freshness);
    let config = Config::default();
    assert!(matches!(
        missing_source_freshness(&source, &config),
        Err(SourceFailure::MissingFreshness)
    ));

    freshness.warn_after = Some(FreshnessRule {
        count: Some(1),
        period: Some(FreshnessPeriod::Day),
    });
    source.freshness = Some(freshness);
    assert!(missing_source_freshness(&source, &config).is_ok());
}

#[test]
fn check_test_missing_source_freshness() {
    let mut source = Source::new("source.raw.orders");
    let config = Config::default();
    assert!(
        missing_source_freshness(&source, &config).is_err(),
        "missing freshness should trigger"
    );
    source.freshness = Some(Freshness {
        warn_after: None,
        error_after: Some(FreshnessRule {
            count: Some(2),
            period: Some(FreshnessPeriod::Hour),
        }),
    });
    assert!(
        missing_source_freshness(&source, &config).is_ok(),
        "error_after should satisfy freshness"
    );
}

#[test]
fn test_check_source_failure() {
    let mut manifest = Manifest::new();
    let source = Source::new("source.raw.orders");
    manifest.sources.push(source.clone());
    manifest.child_map.push(entry("source.raw.orders", &[]));
    let result = check_source(&manifest, &source, &Config::default());
    assert!(result.is_failure());
    assert_eq!(
        result.failures,
        vec![
            SourceFailure::MissingDescription,
            SourceFailure::UnusedSource,
            SourceFailure::MissingFreshness,
            SourceFailure::MissingSourceDescription,
        ]
    );
    assert_eq!(
        result.to_string(),
        "SourceResult: Fail:source.raw.orders\n    MissingDescription\n    UnusedSource\n    MissingFreshness\n    MissingSourceDescription\n"
    );
    assert!(result.as_failure().is_some());
    assert!(result.changes().is_none());
}

#[test]
fn test_source_fanout() {
    let mut manifest = Manifest::new();
    manifest.child_map.push(entry(
        "source.raw.orders",
        &["model.test.orders", "model.test.orders_summary"],
    ));
    let source = Source::new("source.raw.orders");
    manifest.sources.push(source.clone());
    assert!(matches!(
        source_fanout(&manifest, &source, &Config::default()),
        Err(SourceFailure::SourceFanout)
    ));
    let single = Source::new("source.raw.single");
    assert_eq!(source_fanout(&manifest, &single, &Config::default()), Ok(()));
}

#[test]
fn test_missing_source_table_column_descriptions() {
    let mut source = Source::new("source.raw.orders");
    source.columns.push(Column::new("id", None));
    let config = Config {
        select: vec![Selector::MissingSourceColumnDescriptions],
        ..Default::default()
    };
    assert!(matches!(
        missing_source_column_descriptions(&mut source, &config),
        Err(SourceFailure::SourceTableColumnDescriptions)
    ));
}

#[test]
fn test_missing_source_table_description_invalid_marker() {
    let mut source = Source::new("source.raw.orders");
    source.description = Some("TBD".to_string());
    assert!(matches!(
        missing_source_table_description(&mut source, &Config::default()),
        Err(SourceFailure::MissingDescription)
    ));
}

#[test]
fn test_source_table_column_descriptions_all_present() {
    let mut source = Source::new("source.raw.orders");
    source.columns.push(Column::new("id", Some("identifier")));
    assert!(missing_source_column_descriptions(&mut source, &Config::default()).is_ok());
}

#[test]
fn source_table_description_is_fixed_with_a_payload() {
    let mut manifest = Manifest::new();
    let mut source = Source::new("source.raw.orders");
    source.name = "orders".to_string();
    source.source_name = "raw".to_string();
    source.patch_path = Some("models/sources.yml".to_string());
    manifest.sources.push(source);
    let config = Config {
        select: vec![Selector::MissingSourceTableDescriptions],
        ..Default::default()
    }
    .with_fix(true);
    let results = check_sources(&manifest, &config);
    assert_eq!(results.len(), 1);
    assert!(results[0].is_pass());
    let changes = results[0].changes().unwrap();
    assert!(!changes.is_empty());
    assert_eq!(changes.table_name, "orders");
    match &changes.changes[0] {
        SourceChange::ChangePropertiesFile { property, .. } => {
            let block = property.as_ref().unwrap();
            assert_eq!(block.name, "raw");
            assert_eq!(block.tables.len(), 1);
            assert_eq!(block.tables[0].name.as_deref(), Some("orders"));
            assert_eq!(
                block.tables[0].description.as_deref(),
                Some("Auto-generated description")
            );
        }
    }
    assert_eq!(results[0].to_string(), "SourceResult: Pass:source.raw.orders");
}

fn exposure(deps: &[&str]) -> Exposure {
    Exposure {
        unique_id: "exposure.test.dep".to_string(),
        depends_on: deps.iter().map(|s| s.to_string()).collect(),
    }
}

#[test]
fn exposure_dependent_on_private_model_detects_private() {
    let mut manifest = Manifest::new();
    let mut upstream = Node::new(NodeKind::Model, "model.test.upstream");
    upstream.access = Some(Access::Private);
    manifest.nodes.push(upstream);
    let exposure = exposure(&["model.test.upstream"]);
    let cfg = Config {
        select: vec![Selector::ExposureDependentOnPrivateModel],
        ..Default::default()
    };
    let res = exposure_dependent_on_private_model(&exposure, &manifest, &cfg);
    assert!(res.is_err());
    if let Err(ExposureFailure::DependentOnPrivateModel(models)) = res {
        assert_eq!(models, vec!["model.test.upstream".to_string()]);
    } else {
        panic!("expected DependentOnPrivateModel failure");
    }
}

#[test]
fn exposure_dependent_on_private_model_passes_when_public() {
    let mut manifest = Manifest::new();
    let mut upstream = Node::new(NodeKind::Model, "model.test.upstream");
    upstream.access = Some(Access::Public);
    manifest.nodes.push(upstream);
    let exposure = exposure(&["model.test.upstream"]);
    let cfg = Config {
        select: vec![Selector::ExposureDependentOnPrivateModel],
        ..Default::default()
    };
    let res = exposure_dependent_on_private_model(&exposure, &manifest, &cfg);
    assert!(res.is_ok());
    assert!(res.unwrap().is_none());
}

#[test]
fn exposure_on_a_view_fails_the_materialization_rule() {
    let mut manifest = Manifest::new();
    let mut table = Node::new(NodeKind::Model, "model.t.table");
    table.materialized = Some(Materialization::Table);
    let mut incremental = Node::new(NodeKind::Model, "model.t.inc");
    incremental.materialized = Some(Materialization::Incremental);
    let mut view = Node::new(NodeKind::Model, "model.t.view");
    view.materialized = Some(Materialization::View);
    let plain = Node::new(NodeKind::Model, "model.t.plain");
    manifest.nodes = vec![table, incremental, view, plain];
    let e = exposure(&[
        "model.t.table",
        "model.t.view",
        "source.t.raw",
        "model.t.inc",
        "model.t.plain",
        "model.t.unknown",
    ]);
    manifest.exposures.push(e.clone());
    let cfg = Config::default();
    assert_eq!(
        exposure_parents_materializations(&e, &manifest, &cfg),
        Err(ExposureFailure::DependentOnMaterializedModel(vec![
            "model.t.view".to_string(),
            "model.t.plain".to_string()
        ]))
    );
    let results = check_exposures(&manifest, &cfg);
    assert_eq!(results.len(), 1);
    assert!(!results[0].is_pass());
    assert_eq!(
        results[0].failure_reasons(),
        vec!["DependentOnMaterializedModel(model.t.view, model.t.plain)".to_string()]
    );
}

fn doc(id: &str, text: &str) -> Doc {
    Doc {
        unique_id: id.to_string(),
        name: id.to_string(),
        block_contents: text.to_string(),
    }
}

#[test]
fn duplicate_docs_are_grouped_by_text() {
    let mut manifest = Manifest::new();
    assert_eq!(duplicate_docs(&manifest), None);
    manifest.docs = vec![
        doc("doc.a", "one"),
        doc("doc.b", "two"),
        doc("doc.c", "one"),
        doc("doc.d", "three"),
        doc("doc.e", "two"),
        doc("doc.f", "one"),
    ];
    let failures = duplicate_docs(&manifest).unwrap();
    assert_eq!(
        failures,
        vec![
            DocFailure::DuplicateDocsBlock(vec![
                "doc.a".to_string(),
                "doc.c".to_string(),
                "doc.f".to_string()
            ]),
            DocFailure::DuplicateDocsBlock(vec!["doc.b".to_string(), "doc.e".to_string()]),
        ]
    );
    let result = DocResult {
        doc_name: "docs".to_string(),
        failures,
        changes: Vec::new(),
    };
    assert!(result.is_failure());
    assert!(!result.is_pass());
    assert!(result.changes().is_empty());
    assert_eq!(
        result.failure_reasons(),
        vec![
            "DuplicateDocsBlock (doc.a,doc.c,doc.f)".to_string(),
            "DuplicateDocsBlock (doc.b,doc.e)".to_string()
        ]
    );
}
