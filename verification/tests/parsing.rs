use tuist::dom::{AttrMap, ElementData, Node, NodeType};
use tuist::html::parse;

fn expect_text(node: &Node, content: &str) {
    match &node.node_type {
        NodeType::Text(s) => assert_eq!(*s, content.to_string()),
        NodeType::Element(_) => panic!("expected a text node"),
    }
}

fn expect_element<'a>(node: &'a Node, tag: &str) -> &'a ElementData {
    match &node.node_type {
        NodeType::Element(data) => {
            assert_eq!(data.tag, tag.to_string());
            data
        },
        NodeType::Text(_) => panic!("expected an element node"),
    }
}

#[test]
fn parses_simple_text() {
    let input = String::from("Some text");
    let text = parse(input.clone()).expect("well-formed input");
    expect_text(&text, &input);
    assert_eq!(text.children.len(), 0);
}

#[test]
fn parses_simple_paragraph() {
    let input = String::from("<p>Some text</p>");
    let node = parse(input).expect("well-formed input");
    let data = expect_element(&node, "p");
    assert_eq!(data.attrs.len(), 0);
    assert_eq!(node.children.len(), 1);
    expect_text(node.children.first().unwrap(), "Some text");
}

#[test]
fn infers_html_tag() {
    let input = String::from("<!DOCTYPE html>");
    let node = parse(input).expect("well-formed input");
    let data = expect_element(&node, "html");
    assert_eq!(data.attrs.len(), 0);
    assert_eq!(node.children.len(), 0);
}

#[test]
fn parses_nested_elements() {
    let input = String::from(
        "
         <!DOCTYPE html>
        <html>
        <head>
        <title>Title of the document</title>
        </head>
        </html>
                                 ",
    );
    let node = parse(input).expect("well-formed input");
    let data = expect_element(&node, "html");
    assert_eq!(data.attrs.len(), 0);
    assert_eq!(node.children.len(), 1);
    let head = node.children.first().unwrap();

    let head_data = expect_element(head, "head");
    assert_eq!(head_data.attrs.len(), 0);
    assert_eq!(head.children.len(), 1);

    let title = head.children.first().unwrap();

    let title_data = expect_element(title, "title");
    assert_eq!(title_data.attrs.len(), 0);
    assert_eq!(title.children.len(), 1);

    let text = title.children.first().unwrap();

    expect_text(text, "Title of the document");
    assert_eq!(text.children.len(), 0);
}

#[test]
fn parses_meta_tag() {
    let input = String::from(
        r#"
              <meta name="viewport" content="width=device-width, initial-scale=1.0">
            "#,
    );
    let node = parse(input).expect("well-formed input");
    let data = expect_element(&node, "meta");
    assert_eq!(data.attrs.len(), 2);
    assert_eq!(data.attrs.get("name"), Some(&"viewport".to_string()));
    assert_eq!(
        data.attrs.get("content"),
        Some(&"width=device-width, initial-scale=1.0".to_string())
    );
    assert_eq!(node.children.len(), 0);
}

#[test]
fn parses_meta_tag_with_closing_slash() {
    let input = String::from(
        "\n              <meta charset=\"UTF-8\"/>\n            ",
    );
    let node = parse(input).expect("well-formed input");
    let data = expect_element(&node, "meta");
    assert_eq!(data.attrs.len(), 1);
    assert_eq!(data.attrs.get("charset"), Some(&"UTF-8".to_string()));
    assert_eq!(node.children.len(), 0);
}

#[test]
fn empty_input_wraps_into_html() {
    let node = parse(String::new()).expect("empty input parses");
    let data = expect_element(&node, "html");
    assert_eq!(data.attrs.len(), 0);
    assert_eq!(node.children.len(), 0);
}

#[test]
fn two_top_level_nodes_wrap_into_html() {
    let node = parse("<p>a</p><p>b</p>".to_string()).expect("well-formed input");
    expect_element(&node, "html");
    assert_eq!(node.children.len(), 2);
    expect_element(&node.children[0], "p");
    expect_element(&node.children[1], "p");
}

#[test]
fn keeps_multi_byte_trailing_character() {
    let node = parse("héllo é".to_string()).expect("well-formed input");
    expect_text(&node, "héllo é");
}

#[test]
fn script_content_never_appears() {
    let node = parse("<script>var x = \"<p>\";</script>".to_string())
        .expect("well-formed input");
    let data = expect_element(&node, "html");
    assert_eq!(data.attrs.len(), 0);
    assert_eq!(node.children.len(), 0);
}

#[test]
fn script_with_attributes_is_skipped_verbatim() {
    let node = parse("<script src=\"x.js\">if (1 < 2) {}</script>".to_string())
        .expect("well-formed input");
    let data = expect_element(&node, "html");
    assert_eq!(data.attrs.len(), 0);
    assert_eq!(node.children.len(), 0);
}

#[test]
fn repeated_attribute_keeps_last_value() {
    let node = parse(r#"<meta a="1" a="2">"#.to_string()).expect("well-formed input");
    let data = expect_element(&node, "meta");
    assert_eq!(data.attrs.len(), 1);
    assert_eq!(data.attrs.get("a"), Some(&"2".to_string()));
}

#[test]
fn single_quoted_and_bare_attributes() {
    let node = parse("<meta hidden a='x y'>".to_string()).expect("well-formed input");
    let data = expect_element(&node, "meta");
    assert_eq!(data.attrs.len(), 2);
    assert_eq!(data.attrs.get("hidden"), Some(&"".to_string()));
    assert_eq!(data.attrs.get("a"), Some(&"x y".to_string()));
}

#[test]
fn rejects_mismatched_closing_tag() {
    assert!(parse("<p>x</q>".to_string()).is_none());
}

#[test]
fn rejects_missing_quote() {
    assert!(parse("<p a=>x</p>".to_string()).is_none());
    assert!(parse("<p a=\"x>y</p>".to_string()).is_none());
}

#[test]
fn rejects_input_ending_mid_construct() {
    assert!(parse("<p".to_string()).is_none());
    assert!(parse("<p>x".to_string()).is_none());
    assert!(parse("<script>x".to_string()).is_none());
    assert!(parse("<!doctype".to_string()).is_none());
}

#[test]
fn reads_id_and_classes() {
    let node = parse(r#"<p id="main" class="a b a">x</p>"#.to_string())
        .expect("well-formed input");
    let data = expect_element(&node, "p");
    match &node.children.first().unwrap().node_type {
        NodeType::Text(s) => assert_eq!(*s, "x".to_string()),
        NodeType::Element(_) => panic!("expected a text node"),
    }
    assert_eq!(data.id(), Some(&"main".to_string()));
    let classes = data.classes();
    assert_eq!(classes, vec!["a".to_string(), "b".to_string(), "a".to_string()]);
}

#[test]
fn attr_map_overwrites_and_counts() {
    let mut attrs = AttrMap::new();
    assert_eq!(attrs.len(), 0);
    attrs.insert("k".to_string(), "1".to_string());
    attrs.insert("k".to_string(), "2".to_string());
    attrs.insert("j".to_string(), "3".to_string());
    assert_eq!(attrs.len(), 2);
    assert_eq!(attrs.get("k"), Some(&"2".to_string()));
    assert_eq!(attrs.get("j"), Some(&"3".to_string()));
    assert_eq!(attrs.get("absent"), None);
}
