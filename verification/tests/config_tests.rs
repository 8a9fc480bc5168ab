use dbt_lint_yaml::config::default_fixable;
use dbt_lint_yaml::config::default_invalid_descriptions;
use dbt_lint_yaml::config::default_model_fanout_threshold;
use dbt_lint_yaml::config::default_select;
use dbt_lint_yaml::config::default_writeback;
use dbt_lint_yaml::config::find_suggestion;
use dbt_lint_yaml::config::parse_selectors;
use dbt_lint_yaml::config::pick_suggestion;
use dbt_lint_yaml::config::supported_keys;
use dbt_lint_yaml::config::validate_keys;
use dbt_lint_yaml::config::Config;
use dbt_lint_yaml::config::ConfigError;
use dbt_lint_yaml::config::Selector;
use dbt_lint_yaml::config::WritebackMethod;

#[test]
fn test_default_config() {
    let config = Config::default();
    assert_eq!(config.select, default_select());
    assert_eq!(config.exclude, Vec::new());
    assert_eq!(config.fixable, default_fixable());
    assert_eq!(config.unfixable, Vec::new());
    assert_eq!(
        config.model_fanout_threshold,
        default_model_fanout_threshold()
    );
    assert!(config.is_selected(Selector::MissingColumnDescriptions));
    assert!(!config.fix, "fix should be disabled by default");
    assert!(
        !config.is_fixable(Selector::MissingColumnDescriptions),
        "fixable selectors require fix to be enabled"
    );
}

#[test]
fn test_from_toml_str() {}

#[test]
fn test_unknown_key_suggests_alternative() {
    let keys = vec!["models_fanout_threshold".to_string()];
    let result = validate_keys(&keys);
    assert!(
        result.is_err(),
        "validate_keys should return Err for unknown key"
    );
    let err = result.err().unwrap();
    let message = err.to_string();

    assert!(
        message.contains("models_fanout_threshold"),
        "Unexpected error message: {message}"
    );
    assert!(
        message.contains("Did you mean `model_fanout_threshold`"),
        "Missing suggestion in: {message}"
    );
    assert!(
        message.contains("Supported keys"),
        "Supported keys not listed in: {message}"
    );
}

#[test]
fn test_from_str_rejects_unknown_selector() {
    let names = vec!["missing_model_description".to_string()];
    let err = parse_selectors(&names).expect_err("invalid selector should error");
    let message = err.to_string();
    for variant in Selector::all() {
        let expected = variant.as_str();
        assert!(
            message.contains(expected),
            "error should mention {expected}, got: {message}"
        );
    }
}

#[test]
fn test_is_fixable() {
    let mut config = Config {
        fix: true,
        ..Default::default()
    };

    assert!(
        config.is_fixable(Selector::MissingColumnDescriptions),
        "MissingColumnDescriptions is fixable"
    );
    assert!(
        !config.is_fixable(Selector::DirectJoinToSource),
        "DirectJoinToSource is not fixable"
    );

    config.exclude = vec![Selector::MissingColumnDescriptions];
    assert!(
        !config.is_fixable(Selector::MissingColumnDescriptions),
        "MissingColumnDescriptions is not fixable if excluded"
    );

    config.exclude.clear();
    config.unfixable = vec![Selector::MissingColumnDescriptions];
    assert!(
        !config.is_fixable(Selector::MissingColumnDescriptions),
        "MissingColumnDescriptions is not fixable if unfixable"
    );
}

#[test]
fn default_values_are_exact() {
    assert_eq!(default_model_fanout_threshold(), 3);
    assert_eq!(default_writeback(), WritebackMethod::Python);
    assert_eq!(
        default_invalid_descriptions(),
        vec!["TBD".to_string(), "FILL ME OUT".to_string()]
    );
    assert_eq!(default_select().len(), 23);
    assert_eq!(
        default_fixable(),
        vec![
            Selector::MissingColumnDescriptions,
            Selector::MissingModelDescriptions,
            Selector::MissingSourceTableDescriptions,
            Selector::MissingPropertiesFile,
            Selector::ModelsSeparateFromPropertiesFile,
        ]
    );
}

#[test]
fn with_fix_changes_only_the_flag() {
    let config = Config::default().with_fix(true);
    assert!(config.fix);
    assert_eq!(config.select, default_select());
    assert_eq!(config.model_fanout_threshold, 3);
    let back = config.with_fix(false);
    assert!(!back.fix);
}

#[test]
fn selector_names_round_trip() {
    for selector in Selector::all() {
        assert_eq!(Selector::from_name(selector.as_str()), Some(selector));
    }
    assert_eq!(Selector::from_name("no_such_rule"), None);
    assert_eq!(
        Selector::from_name("root_models"),
        Some(Selector::RootModels)
    );
}

#[test]
fn parse_selectors_keeps_order() {
    let names = vec!["dead_model".to_string(), "model_fanout".to_string()];
    assert_eq!(
        parse_selectors(&names).unwrap(),
        vec![Selector::DeadModel, Selector::ModelFanout]
    );
    let bad = vec!["dead_model".to_string(), "nope".to_string()];
    assert_eq!(
        parse_selectors(&bad),
        Err(ConfigError::UnknownSelector("nope".to_string()))
    );
}

#[test]
fn validate_keys_accepts_supported_keys() {
    assert_eq!(validate_keys(&supported_keys()), Ok(()));
    assert_eq!(validate_keys(&Vec::new()), Ok(()));
}

#[test]
fn validate_keys_reports_every_unknown_key() {
    let keys = vec![
        "select".to_string(),
        "selekt".to_string(),
        "completely_different_words".to_string(),
    ];
    let err = validate_keys(&keys).unwrap_err();
    let expected = "Unknown config key `selekt`. Did you mean `select`?\n\
Unknown config key `completely_different_words`.\n\
Supported keys: select, exclude, fixable, unfixable, fix, project_dir, model_fanout_threshold, required_tests, invalid_descriptions, render_descriptions, writeback";
    assert_eq!(err, ConfigError::UnknownKeys(expected.to_string()));
}

#[test]
fn suggestion_is_the_nearest_key_within_three_edits() {
    assert_eq!(find_suggestion("selct"), Some("select".to_string()));
    assert_eq!(find_suggestion("fixx"), Some("fix".to_string()));
    assert_eq!(find_suggestion("zzzzzzzzzzzzzzzz"), None);
    // distance 3 is still offered, distance 4 is not
    assert_eq!(find_suggestion("excl"), Some("exclude".to_string()));
    assert_eq!(find_suggestion("writeback1234"), None);
}

#[test]
fn pick_suggestion_takes_the_first_minimum() {
    assert_eq!(pick_suggestion(&vec![5, 2, 2, 7]), Some(1));
    assert_eq!(pick_suggestion(&vec![4, 4]), None);
    assert_eq!(pick_suggestion(&vec![3]), Some(0));
    assert_eq!(pick_suggestion(&Vec::new()), None);
    assert_eq!(pick_suggestion(&vec![9, 0]), Some(1));
}

#[test]
fn config_error_texts() {
    assert_eq!(
        ConfigError::InvalidRoot.to_string(),
        "Config must be a TOML table at the root"
    );
    assert_eq!(ConfigError::UnknownKeys("x".to_string()).to_string(), "x");
}
