use mdx2md::config::{ComponentTransform, Config, ExpressionHandling, Options};
use mdx2md::parser::parse;
use mdx2md::tokenizer::tokenize;
use mdx2md::transform::transform;

fn run_transform(input: &str, config: &Config) -> String {
    let tokens = tokenize(input).unwrap();
    let doc = parse(tokens).unwrap();
    transform(&doc, config)
}

#[test]
fn test_strip_imports_exports() {
    let input = "import X from 'x';\nexport const y = 1;\n\n# Hello\n";
    let config = Config::default();
    let result = run_transform(input, &config);
    assert!(!result.contains("import"));
    assert!(!result.contains("export"));
    assert!(result.contains("# Hello"));
}

#[test]
fn test_preserve_frontmatter() {
    let input = "---\ntitle: Test\n---\n\n# Hello\n";
    let config = Config::default();
    let result = run_transform(input, &config);
    assert!(result.contains("---\ntitle: Test\n---"));
    assert!(result.contains("# Hello"));
}

#[test]
fn test_strip_frontmatter() {
    let input = "---\ntitle: Test\n---\n\n# Hello\n";
    let config = Config {
        options: Options { preserve_frontmatter: false, ..Default::default() },
        ..Default::default()
    };
    let result = run_transform(input, &config);
    assert!(!result.contains("title: Test"));
    assert!(result.contains("# Hello"));
}

#[test]
fn test_component_template() {
    let input = r#"<Callout type="warning">Watch out!</Callout>"#;
    let mut config = Config::default();
    config.components.push((
        "Callout".to_string(),
        ComponentTransform { template: "> **{type}**: {children}".to_string() },
    ));
    let result = run_transform(input, &config);
    assert_eq!(result.trim(), "> **warning**: Watch out!");
}

#[test]
fn test_self_closing_component() {
    let input = r#"<Badge label="new" />"#;
    let mut config = Config::default();
    config.components.push((
        "Badge".to_string(),
        ComponentTransform { template: "{label}".to_string() },
    ));
    let result = run_transform(input, &config);
    assert_eq!(result.trim(), "new");
}

#[test]
fn test_default_component() {
    let input = r#"<Unknown>fallback content</Unknown>"#;
    let mut config = Config::default();
    config.components.push((
        "_default".to_string(),
        ComponentTransform { template: "{children}".to_string() },
    ));
    let result = run_transform(input, &config);
    assert_eq!(result.trim(), "fallback content");
}

#[test]
fn test_expression_strip() {
    let input = "The answer is {40 + 2}.";
    let config = Config::default();
    let result = run_transform(input, &config);
    assert_eq!(result.trim(), "The answer is .");
}

#[test]
fn test_expression_preserve() {
    let input = "The answer is {40 + 2}.";
    let config = Config {
        options: Options {
            expression_handling: ExpressionHandling::PreserveRaw,
            ..Default::default()
        },
        ..Default::default()
    };
    let result = run_transform(input, &config);
    assert_eq!(result.trim(), "The answer is {40 + 2}.");
}

#[test]
fn test_expression_placeholder() {
    let input = "The answer is {40 + 2}.";
    let config = Config {
        options: Options {
            expression_handling: ExpressionHandling::Placeholder,
            ..Default::default()
        },
        ..Default::default()
    };
    let result = run_transform(input, &config);
    assert_eq!(result.trim(), "The answer is [expression].");
}

#[test]
fn test_boolean_attribute_renders_true() {
    let input = "<Modal open />";
    let mut config = Config::default();
    config.components.push((
        "Modal".to_string(),
        ComponentTransform { template: "open={open}".to_string() },
    ));
    let result = run_transform(input, &config);
    assert_eq!(result.trim(), "open=true");
}

#[test]
fn test_unmatched_element_is_unwrapped() {
    let input = "<Unknown>kept content</Unknown>";
    let config = Config::default();
    let result = run_transform(input, &config);
    assert_eq!(result.trim(), "kept content");
}

#[test]
fn test_template_blockquote_reindents_multiline_children() {
    let input = "<Callout>line one\nline two</Callout>";
    let mut config = Config::default();
    config.components.push((
        "Callout".to_string(),
        ComponentTransform { template: "> {children}".to_string() },
    ));
    let result = run_transform(input, &config);
    assert!(result.contains("> line one\n> line two"), "got: {result}");
}

#[test]
fn test_template_literal_newline_expansion() {
    let input = r#"<Badge label="new" />"#;
    let mut config = Config::default();
    config.components.push((
        "Badge".to_string(),
        ComponentTransform { template: "[{label}]\\n".to_string() },
    ));
    let result = run_transform(input, &config);
    assert_eq!(result, "[new]\n");
}

#[test]
fn test_blockquote_prefix_on_blank_child_line() {
    let input = "<Callout>line one\n\nline two</Callout>";
    let mut config = Config::default();
    config.components.push((
        "Callout".to_string(),
        ComponentTransform { template: "> {children}".to_string() },
    ));
    let result = run_transform(input, &config);
    assert!(result.contains("> line one\n>\n> line two"), "got: {result:?}");
}
