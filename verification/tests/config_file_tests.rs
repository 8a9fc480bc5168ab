use dbt_lint_yaml::codegen::files_to_generate;
use dbt_lint_yaml::codegen::generate_model;
use dbt_lint_yaml::codegen::get_cached_parquet_path;
use dbt_lint_yaml::codegen::get_generated_file_path;
use dbt_lint_yaml::codegen::get_write_path;
use dbt_lint_yaml::codegen::path_with_extension;
use dbt_lint_yaml::config::Config;
use dbt_lint_yaml::config::ConfigError;
use dbt_lint_yaml::config::Selector;
use dbt_lint_yaml::config::WritebackMethod;
use dbt_lint_yaml::config_file::configure;
use dbt_lint_yaml::config_file::get_value;
use dbt_lint_yaml::config_file::merge_entries;
use dbt_lint_yaml::config_file::overrides_of;
use dbt_lint_yaml::config_file::NamedTable;
use dbt_lint_yaml::config_file::TargetSection;
use dbt_lint_yaml::config_file::ConfigEntry;
use dbt_lint_yaml::config_file::ConfigFile;
use dbt_lint_yaml::config_file::ConfigValue;
use dbt_lint_yaml::config_file::TargetOverride;
use dbt_lint_yaml::manifest::Manifest;
use dbt_lint_yaml::manifest::Node;
use dbt_lint_yaml::manifest::NodeKind;
use dbt_lint_yaml::writeback::extract_model_name;
use dbt_lint_yaml::writeback::properties::ColumnProperty;

fn entry(key: &str, value: ConfigValue) -> ConfigEntry {
    ConfigEntry {
        key: key.to_string(),
        value,
    }
}

fn list(items: &[&str]) -> ConfigValue {
    ConfigValue::TextList(items.iter().map(|s| s.to_string()).collect())
}

fn jaffle_shop_file() -> ConfigFile {
    ConfigFile {
        base: vec![
            entry("model_fanout_threshold", ConfigValue::Integer(3)),
            entry("render_descriptions", ConfigValue::Boolean(true)),
        ],
        target: vec![
            TargetOverride {
                profile: None,
                target: "dev".to_string(),
                entries: vec![
                    entry("model_fanout_threshold", ConfigValue::Integer(5)),
                    entry(
                        "select",
                        list(&["missing_column_descriptions", "missing_model_descriptions"]),
                    ),
                ],
            },
            TargetOverride {
                profile: Some("shop".to_string()),
                target: "dev".to_string(),
                entries: vec![entry("model_fanout_threshold", ConfigValue::Integer(9))],
            },
        ],
    }
}

#[test]
fn test_resolve_target_override_jaffle_shop() {
    let cfg = jaffle_shop_file()
        .resolve("", Some("dev"), "tests/jaffle_shop")
        .expect("resolve failed");
    assert_eq!(cfg.model_fanout_threshold, 5);
    assert_eq!(
        cfg.select,
        vec![
            Selector::MissingColumnDescriptions,
            Selector::MissingModelDescriptions
        ]
    );
    assert_eq!(cfg.project_dir.as_deref(), Some("tests/jaffle_shop"));
    assert!(cfg.render_descriptions);
    assert!(!cfg.fix);
}

#[test]
fn override_of_a_profile_is_taken_only_with_that_profile() {
    let file = jaffle_shop_file();
    assert_eq!(
        file.resolve("shop", Some("dev"), ".").unwrap().model_fanout_threshold,
        9
    );
    // with a profile given, the override of no profile is not taken
    assert_eq!(
        file.resolve("other", Some("dev"), ".").unwrap().model_fanout_threshold,
        3
    );
    assert_eq!(
        file.resolve("", Some("prod"), ".").unwrap().model_fanout_threshold,
        3
    );
    assert_eq!(
        file.resolve("shop", None, ".").unwrap().model_fanout_threshold,
        3
    );
}

#[test]
fn empty_file_gives_the_defaults() {
    let file = ConfigFile {
        base: Vec::new(),
        target: Vec::new(),
    };
    let cfg = file.resolve("", None, "proj").unwrap();
    let expected = Config {
        project_dir: Some("proj".to_string()),
        ..Default::default()
    };
    assert_eq!(cfg, expected);
}

#[test]
fn values_are_read_by_kind() {
    let entries = vec![
        entry("exclude", list(&["dead_model"])),
        entry("unfixable", list(&["missing_properties_file"])),
        entry("fixable", list(&[])),
        entry("required_tests", list(&["unique", "not_null"])),
        entry("invalid_descriptions", list(&["n/a"])),
        entry("writeback", ConfigValue::Text("rust".to_string())),
        entry("fix", ConfigValue::Boolean(true)),
    ];
    let cfg = configure(&entries, "p").unwrap();
    assert_eq!(cfg.exclude, vec![Selector::DeadModel]);
    assert_eq!(cfg.unfixable, vec![Selector::MissingPropertiesFile]);
    assert!(cfg.fixable.is_empty());
    assert_eq!(cfg.required_tests, vec!["unique", "not_null"]);
    assert_eq!(cfg.invalid_descriptions, vec!["n/a"]);
    assert_eq!(cfg.writeback, WritebackMethod::Rust);
    assert!(!cfg.fix, "fixing is switched on by the caller only");
    assert_eq!(cfg.select.len(), 23);
}

#[test]
fn errors_of_a_configuration() {
    let unknown = vec![entry("models_fanout_threshold", ConfigValue::Integer(10))];
    match configure(&unknown, "p") {
        Err(ConfigError::UnknownKeys(text)) => {
            assert!(text.contains("Did you mean `model_fanout_threshold`"));
        }
        other => panic!("unexpected {other:?}"),
    }
    let bad_selector = vec![entry("select", list(&["root_models", "missing_model_description"]))];
    assert_eq!(
        configure(&bad_selector, "p"),
        Err(ConfigError::UnknownSelector(
            "missing_model_description".to_string()
        ))
    );
    let bad_kind = vec![entry("select", ConfigValue::Text("root_models".to_string()))];
    assert_eq!(
        configure(&bad_kind, "p"),
        Err(ConfigError::InvalidValue {
            key: "select".to_string()
        })
    );
    let negative = vec![entry("model_fanout_threshold", ConfigValue::Integer(-1))];
    assert_eq!(
        configure(&negative, "p"),
        Err(ConfigError::InvalidValue {
            key: "model_fanout_threshold".to_string()
        })
    );
    let method = vec![entry("writeback", ConfigValue::Text("perl".to_string()))];
    assert_eq!(
        configure(&method, "p").unwrap_err().to_string(),
        "Invalid config: invalid value for `writeback`"
    );
    let flag = vec![entry("render_descriptions", ConfigValue::Other("1.5".to_string()))];
    assert!(configure(&flag, "p").is_err());
}

#[test]
fn merging_replaces_in_place_and_appends() {
    let base = vec![
        entry("a", ConfigValue::Integer(1)),
        entry("b", ConfigValue::Integer(2)),
    ];
    let over = vec![
        entry("b", ConfigValue::Integer(20)),
        entry("c", ConfigValue::Integer(30)),
        entry("c", ConfigValue::Integer(31)),
    ];
    assert_eq!(
        merge_entries(&base, &over),
        vec![
            entry("a", ConfigValue::Integer(1)),
            entry("b", ConfigValue::Integer(20)),
            entry("c", ConfigValue::Integer(31)),
        ]
    );
    assert_eq!(get_value(&base, "b"), Some(&ConfigValue::Integer(2)));
    assert_eq!(get_value(&base, "z"), None);
}

#[test]
fn write_paths_and_cache_paths() {
    assert_eq!(path_with_extension("models/marts/orders.sql", "yml"), "models/marts/orders.yml");
    assert_eq!(path_with_extension("orders", "yml"), "orders.yml");
    assert_eq!(path_with_extension("a.b/orders", "yml"), "a.b/orders.yml");
    assert_eq!(path_with_extension("dir/.hidden", "yml"), "dir/.hidden.yml");
    assert_eq!(path_with_extension("x.tar.gz", "yml"), "x.tar.yml");
    assert_eq!(path_with_extension("dir/", "yml"), "dir.yml");
    assert_eq!(path_with_extension("/", "yml"), "/");
    assert_eq!(path_with_extension("", "yml"), "");
    for sample in [
        "models/marts/orders.sql",
        "orders",
        "dir/.hidden",
        "x.tar.gz",
        "a.b/c",
        "dir/",
        "/orders.sql",
    ] {
        assert_eq!(
            path_with_extension(sample, "yml"),
            std::path::Path::new(sample)
                .with_extension("yml")
                .to_string_lossy()
        );
    }
    let mut model = Node::new(NodeKind::Model, "model.shop.orders");
    model.name = "orders".to_string();
    model.database = "db".to_string();
    model.schema = "main".to_string();
    model.original_file_path = "models/orders.sql".to_string();
    assert_eq!(get_write_path(&model), "models/orders.yml");
    assert_eq!(
        get_generated_file_path(&model, Some("/proj")),
        "/proj/models/orders.yml"
    );
    assert_eq!(get_generated_file_path(&model, None), "models/orders.yml");
    assert_eq!(
        get_cached_parquet_path(&model, None),
        "target/db/schemas/db/main/orders/output.parquet"
    );
    assert_eq!(
        get_cached_parquet_path(&model, Some("/proj")),
        "/proj/target/db/schemas/db/main/orders/output.parquet"
    );
    assert_eq!(extract_model_name("model.shop.orders"), "orders");
}

#[test]
fn generated_document_holds_the_columns() {
    let mut model = Node::new(NodeKind::Model, "model.shop.orders");
    model.name = "orders".to_string();
    model.description = Some("Orders.".to_string());
    let document = generate_model(&model, &vec!["id".to_string(), "total".to_string()]);
    let blocks = document.models.unwrap();
    assert_eq!(blocks.len(), 1);
    assert_eq!(blocks[0].name.as_deref(), Some("orders"));
    assert_eq!(blocks[0].description.as_deref(), Some("Orders."));
    assert_eq!(
        blocks[0].columns,
        vec![ColumnProperty::new("id", None), ColumnProperty::new("total", None)]
    );
    assert!(document.sources.is_none());
    assert!(document.extras.is_empty());
}

#[test]
fn only_models_without_a_file_are_generated() {
    let mut manifest = Manifest::new();
    let a = Node::new(NodeKind::Model, "model.a");
    let mut b = Node::new(NodeKind::Model, "model.b");
    b.patch_path = Some("b.yml".to_string());
    let c = Node::new(NodeKind::Seed, "seed.c");
    let d = Node::new(NodeKind::Model, "model.d");
    manifest.nodes = vec![a, b, c, d];
    let fix = Config::default().with_fix(true);
    assert_eq!(files_to_generate(&manifest, &fix), vec!["model.a", "model.d"]);
    assert!(files_to_generate(&manifest, &Config::default()).is_empty());
    let excluded = Config {
        exclude: vec![Selector::MissingPropertiesFile],
        ..Default::default()
    }
    .with_fix(true);
    assert!(files_to_generate(&manifest, &excluded).is_empty());
}

#[test]
fn a_section_of_tables_names_a_profile() {
    let entry = |key: &str, value: ConfigValue| ConfigEntry {
        key: key.to_string(),
        value,
    };
    let dev = vec![entry("model_fanout_threshold", ConfigValue::Integer(5))];
    let prod = vec![entry("render_descriptions", ConfigValue::Boolean(true))];
    let profile = TargetSection {
        name: "shop".to_string(),
        entries: vec![
            entry("dev", ConfigValue::Other("table".to_string())),
            entry("prod", ConfigValue::Other("table".to_string())),
        ],
        tables: vec![
            NamedTable {
                name: "dev".to_string(),
                entries: dev.clone(),
            },
            NamedTable {
                name: "prod".to_string(),
                entries: prod.clone(),
            },
        ],
    };
    assert_eq!(
        overrides_of(&profile),
        vec![
            TargetOverride {
                profile: Some("shop".to_string()),
                target: "dev".to_string(),
                entries: dev.clone(),
            },
            TargetOverride {
                profile: Some("shop".to_string()),
                target: "prod".to_string(),
                entries: prod,
            },
        ]
    );
    let target = TargetSection {
        name: "dev".to_string(),
        entries: dev.clone(),
        tables: Vec::new(),
    };
    assert_eq!(
        overrides_of(&target),
        vec![TargetOverride {
            profile: None,
            target: "dev".to_string(),
            entries: dev,
        }]
    );
    let empty = TargetSection {
        name: "none".to_string(),
        entries: Vec::new(),
        tables: Vec::new(),
    };
    assert_eq!(overrides_of(&empty)[0].profile, None);
}
