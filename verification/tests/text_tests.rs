use dbt_lint_yaml::lists::count_not_tests;
use dbt_lint_yaml::lists::count_prefixed;
use dbt_lint_yaml::lists::filter_prefixed;
use dbt_lint_yaml::text::char_ascii_lower;
use dbt_lint_yaml::text::char_is_whitespace;
use dbt_lint_yaml::text::is_description_missing;
use dbt_lint_yaml::text::join;
use dbt_lint_yaml::text::last_segment;
use dbt_lint_yaml::text::normalize_path;
use dbt_lint_yaml::text::path_components;
use dbt_lint_yaml::text::path_dir;
use dbt_lint_yaml::text::path_file_name;
use dbt_lint_yaml::text::path_is_absolute;
use dbt_lint_yaml::text::path_join;
use dbt_lint_yaml::text::resolve_patch_path;
use dbt_lint_yaml::text::same_dir;
use dbt_lint_yaml::text::starts_with;
use dbt_lint_yaml::text::text_is_blank_or_marker;
use dbt_lint_yaml::text::to_chars;
use dbt_lint_yaml::text::trim_bounds;

#[test]
fn whitespace_agrees_with_the_standard_library() {
    let mut code: u32 = 0;
    while code <= 0x10FFFF {
        if let Some(c) = char::from_u32(code) {
            assert_eq!(char_is_whitespace(c), c.is_whitespace(), "at {code:#x}");
        }
        code += 1;
    }
}

#[test]
fn ascii_lower_agrees_with_the_standard_library() {
    let mut code: u32 = 0;
    while code <= 0x10FFFF {
        if let Some(c) = char::from_u32(code) {
            assert_eq!(char_ascii_lower(c), c.to_ascii_lowercase(), "at {code:#x}");
        }
        code += 1;
    }
}

#[test]
fn trim_bounds_agree_with_trim() {
    let samples = vec![
        "",
        " ",
        "a",
        "  a  ",
        "\t fill me out \n",
        "\u{3000}x y\u{2003}",
        "no space",
        "   ",
        " a b ",
    ];
    for sample in samples {
        let chars = to_chars(sample);
        let (lo, hi) = trim_bounds(&chars);
        let trimmed: String = chars[lo..hi].iter().collect();
        assert_eq!(trimmed, sample.trim(), "for {sample:?}");
    }
}

#[test]
fn blank_or_marker_examples() {
    let markers = vec!["TBD".to_string(), "FILL ME OUT".to_string()];
    assert!(text_is_blank_or_marker("", &markers));
    assert!(text_is_blank_or_marker("   ", &markers));
    assert!(text_is_blank_or_marker("tbd", &markers));
    assert!(text_is_blank_or_marker("  Fill Me Out ", &markers));
    assert!(!text_is_blank_or_marker("TBD later", &markers));
    assert!(!text_is_blank_or_marker("A proper description", &markers));
    assert!(is_description_missing(&None, &markers));
    assert!(!is_description_missing(&Some("ok".to_string()), &markers));
    assert!(is_description_missing(&Some("TbD".to_string()), &markers));
}

#[test]
fn prefixes_and_segments() {
    assert!(starts_with("source.raw.orders", "source."));
    assert!(!starts_with("model.x", "source."));
    assert!(starts_with("abc", ""));
    assert!(!starts_with("ab", "abc"));
    assert_eq!(last_segment("model.jaffle_shop.orders", '.'), "orders");
    assert_eq!(last_segment("orders", '.'), "orders");
    assert_eq!(last_segment("a.", '.'), "");
}

#[test]
fn path_examples() {
    assert_eq!(path_dir("models/marts/orders.yml"), "models/marts");
    assert_eq!(path_dir("orders.yml"), "");
    assert_eq!(path_dir("/orders.yml"), "/");
    assert_eq!(path_dir("models//marts/orders.yml"), "models/marts");
    assert_eq!(path_dir("models/marts/"), "models");
    assert_eq!(path_file_name("models/marts/orders.yml"), "orders.yml");
    assert_eq!(path_file_name("orders.yml"), "orders.yml");
    assert_eq!(path_file_name("models/"), "models");
    assert_eq!(path_file_name("/"), "");
    assert_eq!(normalize_path("a//b///c/"), "a/b/c");
    assert_eq!(normalize_path("//"), "/");
    assert_eq!(normalize_path(""), "");
    for sample in [
        "models/marts/orders.yml",
        "orders.yml",
        "/orders.yml",
        "/a/b.yml",
        "a//b.yml",
        "a/b/",
        "a//b//c.sql",
        "//x",
    ] {
        let path = std::path::Path::new(sample);
        assert_eq!(
            std::path::Path::new(&path_dir(sample)),
            path.parent().unwrap(),
            "{sample}"
        );
        assert_eq!(
            path_file_name(sample),
            path.file_name().unwrap().to_string_lossy(),
            "{sample}"
        );
    }
    assert!(same_dir("models//a.sql", "models/b.yml"));
    assert!(same_dir("/a.sql", "/b.yml"));
    assert!(!same_dir("/a.sql", "b.yml"));
    assert!(same_dir("models/a.sql", "models/b.yml"));
    assert!(!same_dir("models/a.sql", "models/x/b.yml"));
    assert!(path_is_absolute("/tmp/x"));
    assert!(!path_is_absolute("tmp/x"));
    assert!(!path_is_absolute(""));
    assert_eq!(path_join("models", "a.yml"), "models/a.yml");
    assert_eq!(path_join("models/", "a.yml"), "models/a.yml");
    assert_eq!(path_join("", "a.yml"), "a.yml");
    assert_eq!(resolve_patch_path("/root", "models/a.yml"), "/root/models/a.yml");
    assert_eq!(resolve_patch_path("/root", "/abs/a.yml"), "/abs/a.yml");
}

#[test]
fn joining_texts() {
    let items = vec!["a".to_string(), "b".to_string(), "c".to_string()];
    assert_eq!(join(&items, ", "), "a, b, c");
    assert_eq!(join(&vec!["only".to_string()], ","), "only");
    assert_eq!(join(&Vec::new(), ","), "");
}

#[test]
fn list_filters() {
    let ids = vec![
        "model.a".to_string(),
        "test.b".to_string(),
        "unit_test.c".to_string(),
        "model.d".to_string(),
        "exposure.e".to_string(),
    ];
    assert_eq!(
        filter_prefixed(&ids, "model."),
        vec!["model.a".to_string(), "model.d".to_string()]
    );
    assert_eq!(count_prefixed(&ids, "model."), 2);
    assert_eq!(count_prefixed(&ids, "seed."), 0);
    assert_eq!(count_not_tests(&ids), 3);
}

#[test]
fn paths_are_told_apart_by_their_components() {
    for sample in [
        "",
        ".",
        "./",
        "./a",
        "a/.",
        "a/./b",
        "/./a",
        "/.",
        "/",
        "//",
        "a//b///c/",
        "a/../b",
        "..",
        "../a/./b/",
        "models/./x.yml",
        ".hidden/./.x",
        "a/.../b",
    ] {
        let expected: Vec<String> = std::path::Path::new(sample)
            .components()
            .filter(|c| !matches!(c, std::path::Component::RootDir))
            .map(|c| c.as_os_str().to_string_lossy().into_owned())
            .collect();
        assert_eq!(path_components(sample), expected, "{sample:?}");
        let normal = normalize_path(sample);
        assert_eq!(
            std::path::Path::new(&normal),
            std::path::Path::new(sample),
            "{sample:?}"
        );
        assert_eq!(normalize_path(&normal), normal, "{sample:?}");
    }
    assert_eq!(normalize_path("models/./x.yml"), "models/x.yml");
    assert_eq!(normalize_path("./a/."), "./a");
    assert_eq!(normalize_path("/./a//"), "/a");
    assert!(same_dir("models/./x.yml", "models/x.sql"));
    assert_eq!(path_file_name("a/.."), "");
    assert_eq!(path_file_name("a/."), "a");
    assert_eq!(path_dir("a/.."), "a");
    assert_eq!(resolve_patch_path("/p/", "a//./b.yml"), "/p/a/b.yml");
    assert_eq!(resolve_patch_path("/p", "/abs//x.yml"), "/abs/x.yml");
    assert_eq!(resolve_patch_path("", "x.yml"), "x.yml");
}
