use mdx2md::ast::{AttrValue, MdxDocument, MdxNode};
use mdx2md::parser::{parse, ParseError};
use mdx2md::tokenizer::tokenize;

fn parse_str(input: &str) -> Result<MdxDocument, ParseError> {
    let tokens = tokenize(input).map_err(|e| ParseError { message: e.message })?;
    parse(tokens)
}

#[test]
fn test_simple_markdown() {
    let doc = parse_str("# Hello\n\nWorld\n").unwrap();
    assert_eq!(doc.nodes.len(), 1);
    assert!(matches!(&doc.nodes[0], MdxNode::Markdown(_)));
}

#[test]
fn test_frontmatter_and_markdown() {
    let doc = parse_str("---\ntitle: Test\n---\n\n# Hello\n").unwrap();
    assert_eq!(doc.nodes.len(), 2);
    assert!(matches!(&doc.nodes[0], MdxNode::Frontmatter(s) if s.contains("title: Test")));
    assert!(matches!(&doc.nodes[1], MdxNode::Markdown(_)));
}

#[test]
fn test_self_closing_jsx() {
    let doc = parse_str(r#"<Badge label="new" />"#).unwrap();
    assert_eq!(doc.nodes.len(), 1);
    match &doc.nodes[0] {
        MdxNode::JsxElement { tag, attributes, self_closing, children } => {
            assert_eq!(tag, "Badge");
            assert!(self_closing);
            assert!(children.is_empty());
            assert_eq!(attributes.len(), 1);
            assert_eq!(attributes[0].name, "label");
            assert_eq!(attributes[0].value, Some(AttrValue::String("new".to_string())));
        },
        _ => panic!("Expected JsxElement"),
    }
}

#[test]
fn test_jsx_with_children() {
    let doc = parse_str(r#"<Callout type="warning">Watch out!</Callout>"#).unwrap();
    assert_eq!(doc.nodes.len(), 1);
    match &doc.nodes[0] {
        MdxNode::JsxElement { tag, children, self_closing, .. } => {
            assert_eq!(tag, "Callout");
            assert!(!self_closing);
            assert_eq!(children.len(), 1);
            assert!(matches!(&children[0], MdxNode::Markdown(s) if s == "Watch out!"));
        },
        _ => panic!("Expected JsxElement"),
    }
}

#[test]
fn test_nested_jsx() {
    let input = r#"<Outer><Inner>text</Inner></Outer>"#;
    let doc = parse_str(input).unwrap();
    assert_eq!(doc.nodes.len(), 1);
    match &doc.nodes[0] {
        MdxNode::JsxElement { tag, children, .. } => {
            assert_eq!(tag, "Outer");
            assert_eq!(children.len(), 1);
            match &children[0] {
                MdxNode::JsxElement { tag, children: inner_children, .. } => {
                    assert_eq!(tag, "Inner");
                    assert_eq!(inner_children.len(), 1);
                    assert!(matches!(&inner_children[0], MdxNode::Markdown(s) if s == "text"));
                },
                _ => panic!("Expected inner JsxElement"),
            }
        },
        _ => panic!("Expected outer JsxElement"),
    }
}

#[test]
fn test_jsx_with_markdown_and_expression_children() {
    let input = r#"<Wrapper>Hello {name} world</Wrapper>"#;
    let doc = parse_str(input).unwrap();
    match &doc.nodes[0] {
        MdxNode::JsxElement { children, .. } => {
            assert_eq!(children.len(), 3);
            assert!(matches!(&children[0], MdxNode::Markdown(s) if s == "Hello "));
            assert!(matches!(&children[1], MdxNode::Expression(s) if s == "name"));
            assert!(matches!(&children[2], MdxNode::Markdown(s) if s == " world"));
        },
        _ => panic!("Expected JsxElement"),
    }
}

#[test]
fn test_mismatched_tags() {
    let result = parse_str("<Outer>text</Inner>");
    assert!(result.is_err());
    let err = result.unwrap_err();
    assert!(err.message.contains("Unexpected closing tag </Inner>"));
}

#[test]
fn test_unclosed_element() {
    let result = parse_str("<Outer>text");
    assert!(result.is_err());
    let err = result.unwrap_err();
    assert!(err.message.contains("Unclosed JSX element <Outer>"));
}

#[test]
fn test_unexpected_close_tag() {
    let result = parse_str("text</Outer>");
    assert!(result.is_err());
}

#[test]
fn test_mismatched_message_names_expected_tag() {
    let err = parse_str("<Outer>text</Inner>").unwrap_err();
    assert!(err.message.contains("expected </Outer>"));
}
