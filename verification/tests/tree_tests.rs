use patch_xml::xml_structure::bidirectional_xml_tree::XmlNodeData;
use patch_xml::xml_structure::bidirectional_xml_tree::XmlTree;
use patch_xml::xml_structure::document::parse_document;
use patch_xml::xml_structure::document::DocumentElement;
use patch_xml::xml_structure::document::DocumentNode;

fn read_xml_tree(xml_str: &str) -> XmlTree {
    XmlTree::new(&parse_document(xml_str).unwrap())
}

fn get_test_xml_tree() -> XmlTree {
    XmlTree::new(&DocumentElement {
        prefix: None,
        name: "element".to_string(),
        attributes: Vec::new(),
        children: Vec::new(),
    })
}

#[test]
fn successful_append() {
    let foo_element = XmlNodeData::Text(String::from("Foo"));
    let mut xmltree = get_test_xml_tree();
    let root_id = xmltree.root;
    let foo_id = xmltree.append(root_id, foo_element).unwrap();
    let root = &xmltree.nodes[root_id];
    assert!(root.parent.is_none());
    let root_element = match &root.data {
        XmlNodeData::Element(e) => Some(e),
        XmlNodeData::Comment(_) => None,
        XmlNodeData::CData(_) => None,
        XmlNodeData::Text(_) => None,
        XmlNodeData::ProcessingInstruction(_, _) => None,
    };
    assert!(root_element.is_some());
    let root_element = root_element.unwrap();
    assert_eq!(root_element.name, String::from("element"));
    assert_eq!(root_element.prefix, None);
    assert_eq!(root_element.children.len(), 1);
    let foo_child = root_element.children.first();
    assert!(foo_child.is_some());
    assert_eq!(*foo_child.unwrap(), foo_id);
    let foo_child = &xmltree.nodes[*foo_child.unwrap()];
    assert!(foo_child.parent.is_some());
    let foo_child_parent = match &xmltree.nodes[foo_child.parent.unwrap()].data {
        XmlNodeData::Element(e) => Some(e),
        XmlNodeData::Comment(_) => None,
        XmlNodeData::CData(_) => None,
        XmlNodeData::Text(_) => None,
        XmlNodeData::ProcessingInstruction(_, _) => None,
    };
    assert!(foo_child_parent.is_some());
    let foo_child_parent = foo_child_parent.unwrap();
    assert_eq!(foo_child_parent.name, root_element.name);
    assert_eq!(foo_child_parent.children, root_element.children);
    let foo_child = match &foo_child.data {
        XmlNodeData::Element(_) => None,
        XmlNodeData::Comment(_) => None,
        XmlNodeData::CData(_) => None,
        XmlNodeData::Text(t) => Some(t.clone()),
        XmlNodeData::ProcessingInstruction(_, _) => None,
    };
    assert!(foo_child.is_some());
    let foo_child = foo_child.unwrap();
    assert_eq!(foo_child, String::from("Foo"));
}

#[test]
fn simple_element() {
    let foo_element = XmlNodeData::Text(String::from("Foo"));
    let mut xmltree = get_test_xml_tree();
    let root_id = xmltree.root;
    xmltree.append(root_id, foo_element).unwrap();
    assert_eq!(
        read_xml_tree(r#"<element>Foo</element>"#).to_xmltree().unwrap(),
        xmltree.to_xmltree().unwrap()
    );
}

#[test]
fn document_survives_the_tree() {
    let text = r#"<a x="1" y="2"><b>one</b><!--note--><c><d /></c>two</a>"#;
    let document = parse_document(text).unwrap();
    let tree = XmlTree::new(&document);
    assert_eq!(tree.to_xmltree().unwrap(), document);
    assert_eq!(document.children.len(), 4);
    assert_eq!(document.children[1], DocumentNode::Comment("note".to_string()));
    assert_eq!(
        document.attributes,
        vec![
            ("x".to_string(), "1".to_string()),
            ("y".to_string(), "2".to_string())
        ]
    );
}
