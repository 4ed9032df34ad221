use mdx2md::config::{
    ComponentTransform, Config, ExpressionHandling, MarkdownRewrites, Options, TableFormat,
    TableRewrite,
};
use mdx2md::convert;
use mdx2md::convert_with_resolver;
use mdx2md::transform::ComponentResolver;

#[test]
fn test_invalid_mdx_returns_error() {
    let input = "Hello <Open> world";
    let config = Config::default();
    let result = convert(input, &config);
    assert!(result.is_err(), "unclosed JSX should return Err");
}

#[test]
fn test_unclosed_error_message() {
    let input = "Hello <Open> world";
    let config = Config::default();
    let err = convert(input, &config).unwrap_err();
    assert!(err.0.contains("Unclosed JSX element <Open>"), "got: {}", err.0);
}

#[test]
fn test_html_to_markdown_via_components() {
    let input = "<h1>Hello</h1>\n<p>This is <strong>bold</strong> and <em>italic</em>.</p>";
    let mut config = Config::default();
    config.components.push((
        "h1".to_string(),
        ComponentTransform { template: "# {children}\\n".to_string() },
    ));
    config.components.push((
        "p".to_string(),
        ComponentTransform { template: "{children}\\n".to_string() },
    ));
    config.components.push((
        "strong".to_string(),
        ComponentTransform { template: "**{children}**".to_string() },
    ));
    config.components.push((
        "em".to_string(),
        ComponentTransform { template: "*{children}*".to_string() },
    ));
    config.components.push((
        "_default".to_string(),
        ComponentTransform { template: "{children}".to_string() },
    ));
    let result = convert(input, &config).unwrap();
    assert!(result.contains("# Hello"), "Expected '# Hello', got: {}", result);
    assert!(result.contains("**bold**"), "Expected '**bold**', got: {}", result);
    assert!(result.contains("*italic*"), "Expected '*italic*', got: {}", result);
}

#[test]
fn test_plain_text_default_config_passthrough() {
    let input = "# Hello\n\nA paragraph with **bold** and *italic*.\n";
    let config = Config::default();
    let result = convert(input, &config).unwrap();
    assert_eq!(result, input);
}

#[test]
fn test_plain_text_blank_line_collapse() {
    let input = "one\n\n\n\ntwo";
    let config = Config::default();
    let result = convert(input, &config).unwrap();
    assert_eq!(result, "one\n\ntwo\n");
}

#[test]
fn test_empty_input() {
    let config = Config::default();
    let result = convert("", &config).unwrap();
    assert_eq!(result, "\n");
}

#[test]
fn test_expression_three_handlings() {
    let input = "The answer is {40 + 2}.";
    let strip = Config::default();
    assert_eq!(convert(input, &strip).unwrap(), "The answer is .\n");
    let preserve = Config {
        options: Options {
            expression_handling: ExpressionHandling::PreserveRaw,
            ..Default::default()
        },
        ..Default::default()
    };
    assert_eq!(convert(input, &preserve).unwrap(), "The answer is {40 + 2}.\n");
    let placeholder = Config {
        options: Options {
            expression_handling: ExpressionHandling::Placeholder,
            ..Default::default()
        },
        ..Default::default()
    };
    assert_eq!(convert(input, &placeholder).unwrap(), "The answer is [expression].\n");
}

#[test]
fn test_callout_template_via_pipeline() {
    let input = r#"<Callout type="warning">Watch out!</Callout>"#;
    let mut config = Config::default();
    config.components.push((
        "Callout".to_string(),
        ComponentTransform { template: "> **{type}**: {children}".to_string() },
    ));
    let result = convert(input, &config).unwrap();
    assert_eq!(result.trim(), "> **warning**: Watch out!");
}

#[test]
fn test_two_by_two_table_to_list() {
    let input = "\
| H1 | H2 |
|----|----|
| c  | c  |
| c  | c  |
";
    let config = Config {
        markdown: MarkdownRewrites {
            tables: Some(TableRewrite { format: TableFormat::List }),
            ..Default::default()
        },
        ..Default::default()
    };
    let result = convert(input, &config).unwrap();
    let bullets: Vec<&str> = result.lines().filter(|l| l.starts_with("- ")).collect();
    assert_eq!(bullets.len(), 2);
    assert_eq!(bullets[0], "- **H1**: c, **H2**: c");
    assert_eq!(bullets[1], "- **H1**: c, **H2**: c");
    assert!(!result.contains("|"));
}

#[test]
fn test_resolver_overrides_templates() {
    struct Fixed;

    impl ComponentResolver for Fixed {
        fn resolve(
            &self,
            tag: &str,
            _props: &Vec<(String, String)>,
            children: &str,
        ) -> Option<String> {
            if tag == "Callout" {
                Some(format!("NOTE: {children}"))
            } else {
                None
            }
        }
    }

    let input = r#"<Callout type="warning">Watch out!</Callout>"#;
    let mut config = Config::default();
    config.components.push((
        "Callout".to_string(),
        ComponentTransform { template: "> **{type}**: {children}".to_string() },
    ));
    let result = convert_with_resolver(input, &config, &Fixed).unwrap();
    assert_eq!(result.trim(), "NOTE: Watch out!");
}

#[test]
fn test_carriage_returns_normalized() {
    let input = "a\r\nb\r\n";
    let config = Config::default();
    let result = convert(input, &config).unwrap();
    assert_eq!(result, "a\nb\n");
}
