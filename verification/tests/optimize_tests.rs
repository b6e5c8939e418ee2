use covecto::config::OptimizeConfig;
use covecto::optimize::{
    optimize_svg, remove_comments, remove_empty_groups, remove_metadata_elements, remove_xml_prolog,
    shorten_path_numbers,
};

fn chars(s: &str) -> Vec<char> {
    s.chars().collect()
}

fn text(v: Vec<char>) -> String {
    v.into_iter().collect()
}

#[test]
fn test_remove_xml_prolog() {
    let input = r#"<?xml version="1.0" encoding="UTF-8"?>
<svg xmlns="http://www.w3.org/2000/svg" width="100" height="100"></svg>"#;
    let expected = r#"<svg xmlns="http://www.w3.org/2000/svg" width="100" height="100"></svg>"#;
    assert_eq!(text(remove_xml_prolog(&chars(input))), expected);
}

#[test]
fn test_remove_comments() {
    let input = r#"<svg><!-- comment --><rect/></svg>"#;
    let expected = "<svg><rect/></svg>";
    assert_eq!(text(remove_comments(&chars(input))), expected);
}

#[test]
fn test_shorten_numbers() {
    let input = r#"<path d="M1.000 2.50 3.140 4.0"/>"#;
    let expected = r#"<path d="M1 2.5 3.14 4"/>"#;
    assert_eq!(text(shorten_path_numbers(&chars(input))), expected);
}

#[test]
fn test_shorten_numbers_preserves_urls() {
    // Regression: shorten_path_numbers must NOT strip dots from URLs like xmlns
    let input =
        r#"<svg xmlns="http://www.w3.org/2000/svg" width="100"><path d="M1.0 2.0"/></svg>"#;
    let result = text(shorten_path_numbers(&chars(input)));
    assert!(
        result.contains("w3.org"),
        "URL should not be corrupted: {result}"
    );
    assert!(
        result.contains("http://www.w3.org/2000/svg"),
        "Full URL intact: {result}"
    );
    assert!(
        result.contains(r#"d="M1 2""#),
        "Path numbers should be shortened: {result}"
    );
}

#[test]
fn test_full_optimize() {
    let input = r##"<?xml version="1.0"?>
<!-- Generated by covecto -->
<svg width="100" height="100" xmlns="http://www.w3.org/2000/svg">
  <title>Test</title>
  <path d="M1.000 2.000 L3.500 4.000" fill="#ff0000"/>
</svg>"##;
    let config = OptimizeConfig::default();
    let result = optimize_svg(input, &config).unwrap();
    assert!(!result.contains("<?xml"));
    assert!(!result.contains("<!--"));
    assert!(!result.contains("<title"));
    assert!(!result.contains("1.000"));
}

#[test]
fn unclosed_comment_is_kept() {
    let input = "<svg><!-- x</svg>";
    assert_eq!(text(remove_comments(&chars(input))), input);
}

#[test]
fn groups_with_children_are_kept() {
    let input = r#"<g fill="red"><path d="M0 0"/></g>"#;
    assert_eq!(text(remove_empty_groups(chars(input))), input);
    let empty = r#"<svg><g fill="red"/> <path d="M0 0"/></svg>"#;
    assert_eq!(text(remove_empty_groups(chars(empty))), r#"<svg><path d="M0 0"/></svg>"#);
}

#[test]
fn non_empty_defs_are_kept() {
    let input = r#"<defs><clipPath id="c"/></defs>"#;
    assert_eq!(text(remove_metadata_elements(chars(input))), input);
    let empty = r#"<svg><defs id="d"/><title>t</title><rect/></svg>"#;
    assert_eq!(text(remove_metadata_elements(chars(empty))), "<svg><rect/></svg>");
}

#[test]
fn only_d_attributes_are_shortened() {
    let input = r#"<path id="1.50" d="M1.50 2.0"/>"#;
    assert_eq!(text(shorten_path_numbers(&chars(input))), r#"<path id="1.50" d="M1.5 2"/>"#);
    let accented = "<text>é 1.0</text>";
    assert_eq!(text(shorten_path_numbers(&chars(accented))), accented);
}

#[test]
fn shortening_keeps_the_numbers() {
    let input = r#"<path d="M1.0.5 2.00.25"/>"#;
    assert_eq!(text(shorten_path_numbers(&chars(input))), r#"<path d="M1..5 2..25"/>"#);
}

#[test]
fn default_optimization_keeps_translucent_paths() {
    let svg = "<svg width=\"1\" height=\"1\" xmlns=\"http://www.w3.org/2000/svg\"><g fill-opacity=\"0.502\"><path fill=\"#ff0000\" d=\"M0,0v1h1v-1Z\"/></g></svg>\n";
    let out = optimize_svg(svg, &OptimizeConfig::default()).unwrap();
    assert!(out.contains("<path fill=\"#ff0000\" d=\"M0,0v1h1v-1Z\"/>"), "{out}");
    assert_eq!(out.matches("<path").count(), 1);
}
