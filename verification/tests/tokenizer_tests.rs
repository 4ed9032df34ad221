use mdx2md::tokenizer::{tokenize, RawAttrValue, RawAttribute, Token};

#[test]
fn test_frontmatter() {
    let input = "---\ntitle: Hello\nauthor: Test\n---\n\n# Content\n";
    let tokens = tokenize(input).unwrap();
    assert_eq!(tokens[0], Token::Frontmatter("title: Hello\nauthor: Test".to_string()));
    assert!(matches!(&tokens[1], Token::Markdown(s) if s.contains("# Content")));
}

#[test]
fn test_import() {
    let input = "import { Callout } from './components';\n\n# Hello\n";
    let tokens = tokenize(input).unwrap();
    assert_eq!(tokens[0], Token::Import("import { Callout } from './components';".to_string()));
    assert!(matches!(&tokens[1], Token::Markdown(_)));
}

#[test]
fn test_export() {
    let input = "export const meta = { draft: true };\n\n# Hello\n";
    let tokens = tokenize(input).unwrap();
    assert_eq!(tokens[0], Token::Export("export const meta = { draft: true };".to_string()));
}

#[test]
fn test_export_default_multiline() {
    let input = "export default function Layout({ children }) {\n  return <main>{children}</main>;\n}\n";
    let tokens = tokenize(input).unwrap();
    assert!(matches!(&tokens[0], Token::Export(s) if s.starts_with("export default")));
}

#[test]
fn test_jsx_self_closing() {
    let input = r#"<Badge label="new" />"#;
    let tokens = tokenize(input).unwrap();
    assert_eq!(
        tokens[0],
        Token::JsxOpenTag {
            tag: "Badge".to_string(),
            attributes: vec![RawAttribute {
                name: "label".to_string(),
                value: Some(RawAttrValue::String("new".to_string())),
            }],
            self_closing: true,
        }
    );
}

#[test]
fn test_jsx_open_close() {
    let input = r#"<Callout type="warning">content</Callout>"#;
    let tokens = tokenize(input).unwrap();
    assert!(matches!(&tokens[0], Token::JsxOpenTag { tag, self_closing: false, .. } if tag == "Callout"));
    assert!(matches!(&tokens[1], Token::Markdown(s) if s == "content"));
    assert!(matches!(&tokens[2], Token::JsxCloseTag { tag } if tag == "Callout"));
}

#[test]
fn test_jsx_boolean_attribute() {
    let input = "<Modal open />";
    let tokens = tokenize(input).unwrap();
    assert_eq!(
        tokens[0],
        Token::JsxOpenTag {
            tag: "Modal".to_string(),
            attributes: vec![RawAttribute { name: "open".to_string(), value: None }],
            self_closing: true,
        }
    );
}

#[test]
fn test_expression() {
    let input = "The answer is {40 + 2}.";
    let tokens = tokenize(input).unwrap();
    assert_eq!(tokens.len(), 3);
    assert!(matches!(&tokens[0], Token::Markdown(s) if s == "The answer is "));
    assert_eq!(tokens[1], Token::Expression("40 + 2".to_string()));
    assert!(matches!(&tokens[2], Token::Markdown(s) if s == "."));
}

#[test]
fn test_nested_braces_in_expression() {
    let input = "{obj.map(x => { return x; })}";
    let tokens = tokenize(input).unwrap();
    assert_eq!(tokens[0], Token::Expression("obj.map(x => { return x; })".to_string()));
}

#[test]
fn tokenizer_test_markdown_passthrough() {
    let input = "# Hello\n\nA paragraph with **bold** and *italic*.\n";
    let tokens = tokenize(input).unwrap();
    assert_eq!(tokens.len(), 1);
    assert!(matches!(&tokens[0], Token::Markdown(s) if s == input));
}

#[test]
fn test_lowercase_tags_are_jsx() {
    let input = "<div>hello</div>";
    let tokens = tokenize(input).unwrap();
    assert!(matches!(&tokens[0], Token::JsxOpenTag { tag, self_closing: false, .. } if tag == "div"));
    assert!(matches!(&tokens[1], Token::Markdown(s) if s == "hello"));
    assert!(matches!(&tokens[2], Token::JsxCloseTag { tag } if tag == "div"));
}

#[test]
fn test_html_self_closing_tag() {
    let input = "<br />";
    let tokens = tokenize(input).unwrap();
    assert_eq!(
        tokens[0],
        Token::JsxOpenTag { tag: "br".to_string(), attributes: vec![], self_closing: true }
    );
}

#[test]
fn test_html_tag_with_attributes() {
    let input = r#"<a href="https://example.com">link</a>"#;
    let tokens = tokenize(input).unwrap();
    assert!(matches!(&tokens[0], Token::JsxOpenTag { tag, attributes, self_closing: false }
        if tag == "a" && attributes.len() == 1 && attributes[0].name == "href"));
    assert!(matches!(&tokens[1], Token::Markdown(s) if s == "link"));
    assert!(matches!(&tokens[2], Token::JsxCloseTag { tag } if tag == "a"));
}

#[test]
fn test_html_comment_not_parsed_as_tag() {
    let input = "<!-- this is a comment -->";
    let tokens = tokenize(input).unwrap();
    assert_eq!(tokens.len(), 1);
    assert!(matches!(&tokens[0], Token::Markdown(_)));
}

#[test]
fn test_autolink_not_parsed_as_tag() {
    let input = "<http://example.com>";
    let tokens = tokenize(input).unwrap();
    assert_eq!(tokens.len(), 1);
    assert!(matches!(&tokens[0], Token::Markdown(_)));
}

#[test]
fn test_expression_attr_value() {
    let input = r#"<Comp value={42} />"#;
    let tokens = tokenize(input).unwrap();
    assert_eq!(
        tokens[0],
        Token::JsxOpenTag {
            tag: "Comp".to_string(),
            attributes: vec![RawAttribute {
                name: "value".to_string(),
                value: Some(RawAttrValue::Expression("42".to_string())),
            }],
            self_closing: true,
        }
    );
}

#[test]
fn test_kitchen_sink_token_types() {
    let input = r#"---
title: Kitchen Sink
author: Test
---

import { Callout } from './components';
import CodeBlock from './CodeBlock';
export const meta = { draft: true };

# Welcome

This is a paragraph with an [internal link](/docs/getting-started) and an
![image](/assets/logo.png "Logo").

<Callout type="warning">
  Watch out for **bold** and *italic* inside JSX.

  <CodeBlock language="rust">
    fn main() {}
  </CodeBlock>
</Callout>

Here is an inline component: <Badge label="new" />.

The answer is {40 + 2}.

## Data Table

| Feature     | Status |
|-------------|--------|
| Frontmatter | Done   |
| JSX         | Done   |
| Tables      | Done   |

export default function Layout({ children }) {
  return <main>{children}</main>;
}
"#;
    let tokens = tokenize(input).unwrap();

    let types: Vec<&str> = tokens
        .iter()
        .map(|t| match t {
            Token::Frontmatter(_) => "Frontmatter",
            Token::Import(_) => "Import",
            Token::Export(_) => "Export",
            Token::JsxOpenTag { .. } => "JsxOpen",
            Token::JsxCloseTag { .. } => "JsxClose",
            Token::Expression(_) => "Expression",
            Token::Markdown(_) => "Markdown",
        })
        .collect();

    assert!(types.contains(&"Frontmatter"), "Should have frontmatter");
    assert!(types.iter().filter(|&&t| t == "Import").count() == 2, "Should have 2 imports");
    assert!(types.contains(&"Export"), "Should have export");
    assert!(types.contains(&"JsxOpen"), "Should have JSX open tags");
    assert!(types.contains(&"JsxClose"), "Should have JSX close tags");
    assert!(types.contains(&"Expression"), "Should have expression");
    assert!(types.contains(&"Markdown"), "Should have markdown");

    assert!(matches!(&tokens[0], Token::Frontmatter(s) if s.contains("title: Kitchen Sink")));
}

#[test]
fn test_unicode_markdown_run() {
    let input = "Grüße aus München — καλημέρα!\n";
    let tokens = tokenize(input).unwrap();
    assert_eq!(tokens.len(), 1);
    assert!(matches!(&tokens[0], Token::Markdown(s) if s == input));
}

#[test]
fn test_frontmatter_fence_mid_line_not_closing() {
    let input = "---\ntitle: a---b\n---\n\n# H\n";
    let tokens = tokenize(input).unwrap();
    assert_eq!(tokens[0], Token::Frontmatter("title: a---b".to_string()));
}

#[test]
fn test_unterminated_frontmatter_is_markdown() {
    let input = "---\ntitle: open\nno close\n";
    let tokens = tokenize(input).unwrap();
    assert_eq!(tokens.len(), 1);
    assert!(matches!(&tokens[0], Token::Markdown(s) if s == input));
}

#[test]
fn test_import_crlf_terminated() {
    let input = "import X from 'x';\r\nrest\n";
    let tokens = tokenize(input).unwrap();
    assert_eq!(tokens[0], Token::Import("import X from 'x';".to_string()));
    assert!(matches!(&tokens[1], Token::Markdown(s) if s == "rest\n"));
}

#[test]
fn test_attribute_with_escaped_quote() {
    let input = "<A x=\"a\\\"b\" />";
    let tokens = tokenize(input).unwrap();
    assert_eq!(
        tokens[0],
        Token::JsxOpenTag {
            tag: "A".to_string(),
            attributes: vec![RawAttribute {
                name: "x".to_string(),
                value: Some(RawAttrValue::String("a\\\"b".to_string())),
            }],
            self_closing: true,
        }
    );
}

#[test]
fn test_whitespace_only_braces_are_markdown() {
    let input = "a {  } b";
    let tokens = tokenize(input).unwrap();
    assert_eq!(tokens.len(), 1);
    assert!(matches!(&tokens[0], Token::Markdown(s) if s == input));
}
