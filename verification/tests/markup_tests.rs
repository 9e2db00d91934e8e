use markup::dom;
use markup::dom::AttrValue;
use markup::dom::DocumentData;
use markup::dom::Node;
use markup::dom::NodeType;
use markup::html;
use markup::scan::ParseErrorKind;

fn parse_root(input: &str) -> Node {
    let mut context = DocumentData::new();
    html::parse(input.to_string(), &mut context).expect("input should parse")
}

#[test]
fn empty_element_parses_and_prints_collapsed() {
    let node = parse_root("<div></div>");
    match &node.node_type {
        NodeType::ElementNode(e) => {
            assert_eq!(e.tag_name, "div");
            assert_eq!(e.attributes.0.len(), 0);
            assert_eq!(e.child_nodes.len(), 0);
        }
        _ => panic!("expected an element"),
    }
    assert_eq!(node.pretty_print(0), "<div></div>\n");
}

#[test]
fn element_with_one_text_child() {
    let node = parse_root("<p>hi</p>");
    match &node.node_type {
        NodeType::ElementNode(e) => {
            assert_eq!(e.tag_name, "p");
            assert_eq!(e.child_nodes.len(), 1);
            match &e.child_nodes[0].node_type {
                NodeType::TextNode(t) => assert_eq!(t, "hi"),
                _ => panic!("expected a text child"),
            }
        }
        _ => panic!("expected an element"),
    }
}

#[test]
fn comment_keeps_text_without_terminator() {
    let node = parse_root("<!--note-->");
    match &node.node_type {
        NodeType::CommentNode(t) => {
            assert_eq!(t, "note");
            assert!(!t.contains("-->"));
        }
        _ => panic!("expected a comment"),
    }
    let padded = parse_root("<!-- note -->");
    match &padded.node_type {
        NodeType::CommentNode(t) => {
            assert_eq!(t, " note ");
            assert!(!t.contains("-->"));
        }
        _ => panic!("expected a comment"),
    }
}

#[test]
fn comment_pretty_prints_between_markers() {
    let node = parse_root("<!--note-->");
    assert_eq!(node.pretty_print(0), "<!-- note -->\n");
}

#[test]
fn explicit_and_implicit_attributes() {
    let node = parse_root("<div id=\"x\" disabled></div>");
    match &node.node_type {
        NodeType::ElementNode(e) => {
            assert_eq!(e.attributes.0.len(), 2);
            assert_eq!(e.attributes.0[0].0, "id");
            assert!(matches!(&e.attributes.0[0].1, AttrValue::Text(v) if v == "x"));
            assert_eq!(e.attributes.0[1].0, "disabled");
            assert!(matches!(&e.attributes.0[1].1, AttrValue::Implicit));
        }
        _ => panic!("expected an element"),
    }
    assert_eq!(node.pretty_print(0), "<div id=\"x\" disabled></div>\n");
}

#[test]
fn valueless_attribute_directly_before_terminator() {
    let node = parse_root("<div disabled></div>");
    match &node.node_type {
        NodeType::ElementNode(e) => {
            assert_eq!(e.attributes.0.len(), 1);
            assert_eq!(e.attributes.0[0].0, "disabled");
            assert!(matches!(&e.attributes.0[0].1, AttrValue::Implicit));
            assert_eq!(e.child_nodes.len(), 0);
        }
        _ => panic!("expected an element"),
    }
}

#[test]
fn valueless_attribute_in_self_closing_tag() {
    let node = parse_root("<input disabled/>");
    match &node.node_type {
        NodeType::ElementNode(e) => {
            assert_eq!(e.tag_name, "input");
            assert_eq!(e.attributes.0.len(), 1);
            assert!(matches!(&e.attributes.0[0].1, AttrValue::Implicit));
            assert_eq!(e.child_nodes.len(), 0);
        }
        _ => panic!("expected an element"),
    }
}

#[test]
fn bad_character_after_attribute_name_fails() {
    let mut context = DocumentData::new();
    let err = html::parse("<div a?></div>".to_string(), &mut context).unwrap_err();
    assert_eq!(err.kind, ParseErrorKind::UnexpectedCharacter);
    assert_eq!(err.pos, 6);
}

#[test]
fn unicode_whitespace_separates_attributes() {
    let node = parse_root("<div\u{00A0}disabled></div>");
    match &node.node_type {
        NodeType::ElementNode(e) => {
            assert_eq!(e.attributes.0.len(), 1);
            assert_eq!(e.attributes.0[0].0, "disabled");
        }
        _ => panic!("expected an element"),
    }
}

#[test]
fn cloned_tree_equals_the_original() {
    let node = parse_root("<div id=\"x\"><p>hi</p><!--note--></div>");
    let copy = node.clone();
    assert_eq!(node, copy);
}

#[test]
fn single_quoted_attribute_value() {
    let node = parse_root("<div id='y'></div>");
    match &node.node_type {
        NodeType::ElementNode(e) => {
            assert!(matches!(&e.attributes.0[0].1, AttrValue::Text(v) if v == "y"));
        }
        _ => panic!("expected an element"),
    }
}

#[test]
fn duplicate_attribute_overwrites() {
    let node = parse_root("<div a=\"1\" a=\"2\"></div>");
    match &node.node_type {
        NodeType::ElementNode(e) => {
            assert_eq!(e.attributes.0.len(), 1);
            assert!(matches!(&e.attributes.0[0].1, AttrValue::Text(v) if v == "2"));
        }
        _ => panic!("expected an element"),
    }
}

#[test]
fn self_closing_element_has_no_children() {
    let node = parse_root("<br/>");
    match &node.node_type {
        NodeType::ElementNode(e) => {
            assert_eq!(e.tag_name, "br");
            assert_eq!(e.child_nodes.len(), 0);
        }
        _ => panic!("expected an element"),
    }
}

#[test]
fn single_top_level_node_is_unwrapped() {
    let node = parse_root("<div></div>");
    assert!(matches!(&node.node_type, NodeType::ElementNode(e) if e.tag_name == "div"));
}

#[test]
fn multiple_top_level_nodes_are_wrapped_in_html() {
    let node = parse_root("<a></a><b></b>");
    match &node.node_type {
        NodeType::ElementNode(e) => {
            assert_eq!(e.tag_name, "html");
            assert_eq!(e.attributes.0.len(), 0);
            assert_eq!(e.child_nodes.len(), 2);
        }
        _ => panic!("expected the synthetic wrapper"),
    }
}

#[test]
fn empty_input_yields_empty_wrapper() {
    let node = parse_root("");
    match &node.node_type {
        NodeType::ElementNode(e) => {
            assert_eq!(e.tag_name, "html");
            assert_eq!(e.child_nodes.len(), 0);
        }
        _ => panic!("expected the synthetic wrapper"),
    }
}

#[test]
fn nested_tree_mirrors_input() {
    let node = parse_root("<html><body><h1>Title</h1><p>text</p></body></html>");
    match &node.node_type {
        NodeType::ElementNode(e) => {
            assert_eq!(e.tag_name, "html");
            assert_eq!(e.child_nodes.len(), 1);
            match &e.child_nodes[0].node_type {
                NodeType::ElementNode(body) => {
                    assert_eq!(body.tag_name, "body");
                    assert_eq!(body.child_nodes.len(), 2);
                }
                _ => panic!("expected the body element"),
            }
        }
        _ => panic!("expected an element"),
    }
}

#[test]
fn print_then_reparse_is_isomorphic_without_text() {
    let input = "<div id=\"x\" disabled><span></span><b><i></i></b></div>";
    let first = parse_root(input);
    let printed = first.pretty_print(0);
    let second = parse_root(&printed);
    assert_eq!(first, second);
}

#[test]
fn unterminated_comment_fails() {
    let mut context = DocumentData::new();
    let err = html::parse("<!-- oops".to_string(), &mut context).unwrap_err();
    assert_eq!(err.kind, ParseErrorKind::UnexpectedEndOfInput);
}

#[test]
fn mismatched_closing_tag_fails() {
    let mut context = DocumentData::new();
    let err = html::parse("<p>x</q>".to_string(), &mut context).unwrap_err();
    assert_eq!(err.kind, ParseErrorKind::MismatchedClosingTag);
}

#[test]
fn unquoted_attribute_value_fails() {
    let mut context = DocumentData::new();
    let err = html::parse("<p x=1></p>".to_string(), &mut context).unwrap_err();
    assert_eq!(err.kind, ParseErrorKind::UnexpectedCharacter);
}

#[test]
fn truncated_element_fails() {
    let mut context = DocumentData::new();
    let err = html::parse("<div".to_string(), &mut context).unwrap_err();
    assert_eq!(err.kind, ParseErrorKind::UnexpectedEndOfInput);
}

#[test]
fn style_block_feeds_shared_collection() {
    let mut context = DocumentData::new();
    context
        .load_document("<style>h1{font-size:14px;}</style>".to_string())
        .expect("document should parse");
    assert_eq!(context.stylesheets.len(), 1);
    assert_eq!(context.stylesheets[0].rules.len(), 1);
}

#[test]
fn nested_style_block_feeds_shared_collection() {
    let mut context = DocumentData::new();
    context
        .load_document(
            "<html><head><style>h1{font-size:14px;}</style></head><body><h1>Hello</h1></body></html>"
                .to_string(),
        )
        .expect("document should parse");
    assert_eq!(context.stylesheets.len(), 1);
    assert_eq!(context.stylesheets[0].rules.len(), 1);
}

#[test]
fn malformed_style_block_fails_the_document() {
    let mut context = DocumentData::new();
    let err = context
        .load_document("<style>h1{font-size:14vw;}</style>".to_string())
        .unwrap_err();
    assert_eq!(err.kind, ParseErrorKind::UnrecognizedUnit);
    // The position is document-relative: the style text starts at 7 and
    // the unrecognized unit at 15 within it.
    assert_eq!(err.pos, 22);
    assert_eq!(context.stylesheets.len(), 0);
}

#[test]
fn document_parse_wraps_context() {
    let node = dom::parse("<style>h1{font-size:14px;}</style>".to_string())
        .expect("document should parse");
    match &node.node_type {
        NodeType::DocumentNode(d) => {
            assert!(matches!(&*d.root, Some(_)));
            assert_eq!(d.stylesheets.len(), 1);
        }
        _ => panic!("expected a document node"),
    }
}

#[test]
fn document_node_prints_as_nothing() {
    let node = dom::parse("<div></div>".to_string()).expect("document should parse");
    assert_eq!(node.pretty_print(0), "");
}

#[test]
fn constructors_build_the_expected_nodes() {
    let t = dom::text("hello".to_string());
    assert!(matches!(&t.node_type, NodeType::TextNode(s) if s == "hello"));
    let c = dom::comment("side note".to_string());
    assert!(matches!(&c.node_type, NodeType::CommentNode(s) if s == "side note"));
    let e = dom::element("p".to_string(), markup::dom::AttrMap(Vec::new()), vec![t]);
    match &e.node_type {
        NodeType::ElementNode(d) => {
            assert_eq!(d.tag_name, "p");
            assert_eq!(d.child_nodes.len(), 1);
        }
        _ => panic!("expected an element"),
    }
}

#[test]
fn pretty_print_indents_children() {
    let node = parse_root("<div><p>hi</p></div>");
    let printed = node.pretty_print(0);
    assert_eq!(printed, "<div>\n  <p>\n    hi\n  </p>\n</div>\n");
}
