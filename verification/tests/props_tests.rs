use rust_minibrowser::dom::{getElementsByTagName, text, AttrMap, NodeType};
use rust_minibrowser::grammar::{Expected, ParseError};
use rust_minibrowser::parse::{
    attributes, comment, document, element_child, load_doc_from_buffer, space,
};

#[test]
fn tag_wraps_text() {
    let doc = load_doc_from_buffer(b"<p>hello</p>".to_vec()).unwrap();
    match &doc.root_node.node_type {
        NodeType::Element(data) => {
            assert_eq!(data.tag_name, "p");
            assert!(data.id().is_none());
        },
        other => panic!("expected an element, got {:?}", other),
    }
    assert_eq!(doc.root_node.children.len(), 1);
    assert_eq!(doc.root_node.children[0], text("hello".to_string()));
    assert_eq!(doc.base_url, "");
}

#[test]
fn attribute_folding() {
    let input = b"foo=\"bar\" baz=\"quxx\"".to_vec();
    let (map, _end) = attributes(&input, 0);
    assert_eq!(map.get("foo").unwrap(), "bar");
    assert_eq!(map.get("baz").unwrap(), "quxx");
    assert!(map.get("quxx").is_none());

    let input = b"a=\"1\" a=\"2\"".to_vec();
    let (map, _end) = attributes(&input, 0);
    assert_eq!(map.get("a").unwrap(), "2");
}

#[test]
fn empty_attribute_value() {
    let input = b"a=\"\"".to_vec();
    let (map, end) = attributes(&input, 0);
    assert_eq!(map.get("a").unwrap(), "");
    assert_eq!(end, 4);
}

#[test]
fn nesting_three_deep() {
    let doc = load_doc_from_buffer(b"<html><body><div>x</div></body></html>".to_vec()).unwrap();
    let html = &doc.root_node;
    assert_eq!(html.children.len(), 1);
    let body = &html.children[0];
    assert_eq!(body.children.len(), 1);
    let div = &body.children[0];
    assert_eq!(div.children.len(), 1);
    match (&html.node_type, &body.node_type, &div.node_type) {
        (NodeType::Element(h), NodeType::Element(b), NodeType::Element(d)) => {
            assert_eq!(h.tag_name, "html");
            assert_eq!(b.tag_name, "body");
            assert_eq!(d.tag_name, "div");
        },
        _ => panic!("expected three nested elements"),
    }
    assert_eq!(div.children[0], text("x".to_string()));
}

#[test]
fn meta_is_not_an_element() {
    let input = b"<meta charset=\"UTF-8\">".to_vec();
    let (node, end) = element_child(&input, 0).unwrap();
    match &node.node_type {
        NodeType::Meta(meta) => {
            assert_eq!(meta.attributes.get("charset").unwrap(), "UTF-8");
        },
        other => panic!("expected a meta node, got {:?}", other),
    }
    assert_eq!(node.children.len(), 0);
    assert_eq!(end, 22);
}

#[test]
fn doctype_is_optional() {
    let with = load_doc_from_buffer(b"<!DOCTYPE html><html></html>".to_vec()).unwrap();
    let without = load_doc_from_buffer(b"<html></html>".to_vec()).unwrap();
    assert_eq!(with, without);
    match &with.root_node.node_type {
        NodeType::Element(data) => {
            assert_eq!(data.tag_name, "html");
            assert!(data.id().is_none());
        },
        other => panic!("expected an element, got {:?}", other),
    }
    assert_eq!(with.root_node.children.len(), 0);
}

#[test]
fn first_match_in_preorder() {
    let doc = load_doc_from_buffer(
        b"<html><div>first</div><div>second</div></html>".to_vec(),
    )
        .unwrap();
    let found = getElementsByTagName(&doc.root_node, "div").unwrap();
    assert_eq!(found.children[0], text("first".to_string()));

    let root = getElementsByTagName(&doc.root_node, "html").unwrap();
    assert_eq!(root, &doc.root_node);

    assert!(getElementsByTagName(&doc.root_node, "span").is_none());
}

#[test]
fn classes_split_on_spaces() {
    let doc = load_doc_from_buffer(b"<div class=\"a b\">x</div>".to_vec()).unwrap();
    match &doc.root_node.node_type {
        NodeType::Element(data) => {
            let cs = data.classes();
            assert_eq!(cs.len(), 2);
            assert!(cs.contains(&"a".to_string()));
            assert!(cs.contains(&"b".to_string()));
        },
        other => panic!("expected an element, got {:?}", other),
    }
}

#[test]
fn classes_missing_attribute_is_empty() {
    let doc = load_doc_from_buffer(b"<div>x</div>".to_vec()).unwrap();
    match &doc.root_node.node_type {
        NodeType::Element(data) => assert_eq!(data.classes().len(), 0),
        other => panic!("expected an element, got {:?}", other),
    }
}

#[test]
fn classes_keep_duplicates_once() {
    let doc = load_doc_from_buffer(b"<div class=\"a b a\">x</div>".to_vec()).unwrap();
    match &doc.root_node.node_type {
        NodeType::Element(data) => {
            let cs = data.classes();
            assert_eq!(cs.len(), 2);
            assert!(cs.contains(&"a".to_string()));
            assert!(cs.contains(&"b".to_string()));
        },
        other => panic!("expected an element, got {:?}", other),
    }
}

#[test]
fn classes_consecutive_spaces_yield_empty_token() {
    let doc = load_doc_from_buffer(b"<div class=\"a  b\">x</div>".to_vec()).unwrap();
    match &doc.root_node.node_type {
        NodeType::Element(data) => {
            let cs = data.classes();
            assert_eq!(cs.len(), 3);
            assert!(cs.contains(&"".to_string()));
        },
        other => panic!("expected an element, got {:?}", other),
    }
}

#[test]
fn id_accessor() {
    let doc = load_doc_from_buffer(b"<div id=\"main\">x</div>".to_vec()).unwrap();
    match &doc.root_node.node_type {
        NodeType::Element(data) => assert_eq!(data.id().unwrap(), "main"),
        other => panic!("expected an element, got {:?}", other),
    }
}

#[test]
fn unterminated_element_is_an_error() {
    let err = load_doc_from_buffer(b"<div>hello".to_vec()).unwrap_err();
    assert_eq!(err, ParseError { pos: 10, expected: Expected::OpenAngle });
}

#[test]
fn unmatched_quote_is_an_error() {
    let err = load_doc_from_buffer(b"<div foo=\"bar></div>".to_vec()).unwrap_err();
    assert_eq!(err, ParseError { pos: 4, expected: Expected::Gt });
}

#[test]
fn digit_in_attribute_key_is_an_error() {
    let err = load_doc_from_buffer(b"<div foo1=\"x\"></div>".to_vec()).unwrap_err();
    assert_eq!(err, ParseError { pos: 4, expected: Expected::Gt });
}

#[test]
fn hyphen_in_attribute_key_is_an_error() {
    let err = load_doc_from_buffer(b"<div data-x=\"x\"></div>".to_vec()).unwrap_err();
    assert_eq!(err, ParseError { pos: 4, expected: Expected::Gt });
}

#[test]
fn multibyte_text_decodes() {
    let doc = load_doc_from_buffer(b"<p>h\xc3\xa9llo</p>".to_vec()).unwrap();
    assert_eq!(doc.root_node.children[0], text("h\u{e9}llo".to_string()));
}

#[test]
fn ill_formed_text_encoding_is_an_error() {
    assert!(load_doc_from_buffer(b"<p>h\xc3llo</p>".to_vec()).is_err());
}

#[test]
fn trailing_bytes_are_ignored() {
    let (doc, end) = document(&b"<a></a>junk".to_vec()).unwrap();
    assert_eq!(end, 7);
    match &doc.root_node.node_type {
        NodeType::Element(data) => assert_eq!(data.tag_name, "a"),
        other => panic!("expected an element, got {:?}", other),
    }
}

#[test]
fn unterminated_comment_is_an_error() {
    let input = b"<!-- never closed".to_vec();
    let err = comment(&input, 0).unwrap_err();
    assert_eq!(err, ParseError { pos: 17, expected: Expected::CommentClose });
}

#[test]
fn whitespace_run_is_skipped() {
    let input = b"  \t\r\nx".to_vec();
    assert_eq!(space(&input, 0), 5);
    assert_eq!(space(&input, 5), 5);
}

#[test]
fn attr_map_last_write_wins() {
    let mut m = AttrMap::new();
    m.insert("a".to_string(), "1".to_string());
    m.insert("a".to_string(), "2".to_string());
    assert_eq!(m.get("a").unwrap(), "2");
    assert!(m.get("b").is_none());
}

#[test]
fn mismatched_close_tag_is_accepted() {
    let doc = load_doc_from_buffer(b"<div>x</span>".to_vec()).unwrap();
    match &doc.root_node.node_type {
        NodeType::Element(data) => assert_eq!(data.tag_name, "div"),
        other => panic!("expected an element, got {:?}", other),
    }
}
