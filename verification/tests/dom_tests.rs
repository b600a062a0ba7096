use rust_minibrowser::dom::{AttrMap, Document, MetaData, Node, NodeType};
use rust_minibrowser::parse::{
    attribute, attributes, close_element, comment, doctype, document, element, element_child,
    element_name, meta_tag, open_element,
};

#[test]
fn test_element_name() {
    let input = b"div".to_vec();
    let result = element_name(&input, 0);
    println!("{:?}", result);
    assert_eq!(String::from("div"), result.unwrap().0);
}

#[test]
fn test_element_name_with_number() {
    let input = b"h3".to_vec();
    let result = element_name(&input, 0);
    println!("{:?}", result);
    assert_eq!(String::from("h3"), result.unwrap().0);
}

#[test]
fn test_attribute_simple() {
    let input = b"foo=\"bar\"".to_vec();
    let result = attribute(&input, 0);
    println!("{:#?}", result);
    let ((key, value), end) = result.unwrap();
    assert_eq!(key, "foo");
    assert_eq!(value, "bar");
    assert_eq!(end, 9);
}

#[test]
fn test_attribute_complex() {
    let input = b"foo=\"bar-foo-8\"".to_vec();
    let result = attribute(&input, 0);
    println!("{:#?}", result);
    let ((key, value), _end) = result.unwrap();
    assert_eq!(key, "foo");
    assert_eq!(value, "bar-foo-8");
}

#[test]
fn test_several_attributes() {
    let input = b"foo=\"bar\" baz=\"quxx\" ".to_vec();
    let (map, end) = attributes(&input, 0);
    println!("{:#?}", map);
    assert_eq!(map.get("foo").unwrap(), "bar");
    assert_eq!(map.get("baz").unwrap(), "quxx");
    assert_eq!(end, 20);
}

#[test]
fn test_element() {
    let input = b"<head>".to_vec();
    let opened = open_element(&input, 0);
    println!("{:#?}", opened);
    let ((name, _attrs), end) = opened.unwrap();
    assert_eq!(name, "head");
    assert_eq!(end, 6);

    let input = b"</head>".to_vec();
    let closed = close_element(&input, 0);
    println!("{:#?}", closed);
    assert_eq!(closed.unwrap().0, "head");

    let input = b" some foo text ".to_vec();
    let child = element_child(&input, 0);
    println!("{:#?}", child);
    let (node, end) = child.unwrap();
    assert_eq!(node.node_type, NodeType::Text(String::from(" some foo text ")));
    assert_eq!(end, 15);

    let input = b"<head></head>".to_vec();
    let child = element_child(&input, 0);
    println!("{:#?}", child);
    let (node, _end) = child.unwrap();
    match node.node_type {
        NodeType::Element(data) => assert_eq!(data.tag_name, "head"),
        other => panic!("expected an element, got {:?}", other),
    }
}

#[test]
fn test_element_text() {
    let input = b"<head> foo </head>".to_vec();
    let result = element_child(&input, 0);
    println!("{:#?}", result);
    let (node, _end) = result.unwrap();
    assert_eq!(node.children.len(), 1);
    assert_eq!(node.children[0].node_type, NodeType::Text(String::from("foo ")));
}

#[test]
fn test_element_text_element() {
    let input = b"<head><body></body></head>".to_vec();
    let result = element(&input, 0);
    println!("{:#?}", result);
    let (node, _end) = result.unwrap();
    assert_eq!(node.children.len(), 1);
    match &node.children[0].node_type {
        NodeType::Element(data) => assert_eq!(data.tag_name, "body"),
        other => panic!("expected an element, got {:?}", other),
    }
}

#[test]
fn test_nested() {
    let input = b"
     <html>
       <body>
        <div>some text</div>
       </body>
     </html>
    "
        .to_vec();
    let result = element(&input, 0);
    println!("{:#?}", result);
    let (node, _end) = result.unwrap();
    match &node.node_type {
        NodeType::Element(data) => assert_eq!(data.tag_name, "html"),
        other => panic!("expected an element, got {:?}", other),
    }
}

#[test]
fn test_elem_with_attrs() {
    let input = b"
     <html lang=\"en\">
       <body>
        <div>some text</div>
       </body>
     </html>
    "
        .to_vec();
    let result = element(&input, 0);
    println!("{:#?}", result);
    let (node, _end) = result.unwrap();
    match &node.node_type {
        NodeType::Element(data) => {
            assert_eq!(data.tag_name, "html");
            assert_eq!(data.attributes.get("lang").unwrap(), "en");
        },
        other => panic!("expected an element, got {:?}", other),
    }
}

fn count_elements(node: &Node) -> usize {
    let mut n = 0;
    for child in node.children.iter() {
        if let NodeType::Element(_) = child.node_type {
            n += 1;
        }
    }
    n
}

#[test]
fn test_multi_children() {
    let input = b"
     <html>
       <body>
        <div>part 1</div>
        <div>part 2</div>
       </body>
     </html>
    "
        .to_vec();
    let result = element(&input, 0);
    println!("{:#?}", result);
    let (node, _end) = result.unwrap();
    match &node.children[0].node_type {
        NodeType::Element(data) => assert_eq!(data.tag_name, "body"),
        other => panic!("expected an element, got {:?}", other),
    }
    assert_eq!(count_elements(&node.children[0]), 2);
}

#[test]
fn test_multi_children_h3() {
    let input = b"
     <html>
       <body>
        <div>part 1</div>
        <h3>part 2</h3>
       </body>
     </html>
    "
        .to_vec();
    let result = element(&input, 0);
    println!("{:#?}", result);
    let (node, _end) = result.unwrap();
    assert_eq!(count_elements(&node.children[0]), 2);
}

#[test]
fn test_doctype() {
    let input = b"<!DOCTYPE html>".to_vec();
    let result = doctype(&input, 0);
    println!("{:?}", result);
    assert_eq!((), result.unwrap().0);
}

#[test]
fn test_metatag() {
    let input = b"<meta charset=\"UTF-8\">".to_vec();
    let result = meta_tag(&input, 0);
    println!("{:?}", result);
    let mut atts = AttrMap::new();
    atts.insert("charset".to_string(), "UTF-8".to_string());
    assert_eq!(
        Node { node_type: NodeType::Meta(MetaData { attributes: atts }), children: vec![] },
        result.unwrap().0
    );
}

#[test]
fn test_comment() {
    let input = b"<!-- a cool - comment-->".to_vec();
    let result = comment(&input, 0);
    println!("{:?}", result);
    let (content, end) = result.unwrap();
    assert_eq!(content, " a cool - comment");
    assert_eq!(end, 24);
}

#[test]
fn test_comment_2() {
    let input = b"<foo> and a better <!-- a cool - comment--></foo>".to_vec();
    let result = document(&input);
    println!("{:?}", result);
    assert!(result.is_err());
}

#[test]
fn test_simple_doc() {
    let input = b"
    <!DOCTYPE html>
<html>
    <head>
        <meta charset=\"UTF-8\"></head></html>
    "
        .to_vec();
    let result = document(&input);
    println!("{:?}", result);
    let mut atts = AttrMap::new();
    atts.insert("charset".to_string(), "UTF-8".to_string());
    let expected = Document {
        root_node: Node {
            node_type: NodeType::Element(rust_minibrowser::dom::ElementData {
                tag_name: "html".to_string(),
                attributes: AttrMap::new(),
            }),
            children: vec![
                Node {
                    node_type: NodeType::Element(rust_minibrowser::dom::ElementData {
                        tag_name: "head".to_string(),
                        attributes: AttrMap::new(),
                    }),
                    children: vec![
                        Node {
                            node_type: NodeType::Meta(MetaData { attributes: atts }),
                            children: vec![],
                        },
                    ],
                },
            ],
        },
        base_url: "".to_string(),
    };
    assert_eq!(expected, result.unwrap().0);
}
