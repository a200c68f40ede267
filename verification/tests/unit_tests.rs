use patch_xml::error::PatchError;
use patch_xml::input::common::HexSerde;
use patch_xml::input::common::RegExStruct;
use patch_xml::input::config;
use patch_xml::input::svd;
use patch_xml::input::svd::BitRange;
use patch_xml::output::ParseConstantError;
use patch_xml::output::SvdConstant;
use patch_xml::patch_structure::CaptureReference;
use patch_xml::patch_structure::ModificationIdentifier;
use patch_xml::patch_structure::Query;
use patch_xml::patch_structure::Regex;
use patch_xml::patch_structure::SegmentReference;
use patch_xml::patch_structure::SimpleValueType;
use patch_xml::text;
use patch_xml::xml_structure::bidirectional_xml_tree::MoveCopyAction;
use patch_xml::xml_structure::bidirectional_xml_tree::XmlNode;
use patch_xml::xml_structure::bidirectional_xml_tree::XmlNodeData;
use patch_xml::xml_structure::bidirectional_xml_tree::XmlTree;
use patch_xml::xml_structure::document::parse_document;
use patch_xml::xml_structure::document::write_document;
use patch_xml::xml_structure::document::DocumentNode;
use patch_xml::xml_structure::xml_path::PathSegment;
use patch_xml::xml_structure::xml_path::XmlPath;
use patch_xml::yaml::parse_yaml;
use patch_xml::yaml::YamlNode;

fn tree_of(xml: &str) -> XmlTree {
    XmlTree::new(&parse_document(xml).unwrap())
}

fn text_of(tree: &XmlTree) -> String {
    write_document(&DocumentNode::Element(tree.to_xmltree().unwrap()))
        .unwrap()
        .strip_prefix(r#"<?xml version="1.0" encoding="UTF-8"?>"#)
        .unwrap()
        .to_string()
}

fn key(text: &str) -> YamlNode {
    YamlNode::String(text.to_string())
}

#[test]
fn numerals_are_written_and_read() {
    assert_eq!(text::u64_to_string(0), "0");
    assert_eq!(text::u64_to_string(10), "10");
    assert_eq!(text::u64_to_string(u64::MAX), "18446744073709551615");
    assert_eq!(text::i64_to_string(-33), "-33");
    assert_eq!(text::i64_to_string(i64::MIN), "-9223372036854775808");
    assert_eq!(text::bool_to_string(true), "true");
    assert_eq!(text::bool_to_string(false), "false");
    assert_eq!(text::parse_usize(&"42".chars().collect()), Some(42));
    assert_eq!(text::parse_usize(&"+42".chars().collect()), Some(42));
    assert_eq!(text::parse_usize(&"".chars().collect()), None);
    assert_eq!(text::parse_usize(&"+".chars().collect()), None);
    assert_eq!(text::parse_usize(&"4x".chars().collect()), None);
    assert_eq!(
        text::parse_usize(&"99999999999999999999999".chars().collect()),
        None
    );
    assert_eq!(text::read_integer("-12"), Some(-12));
    assert_eq!(text::read_integer("+12"), Some(12));
    assert_eq!(text::read_integer("1.5"), None);
    assert_eq!(text::read_integer("-"), None);
}

#[test]
fn texts_are_split_at_every_separator() {
    assert_eq!(text::split_on("a/b", '/'), vec!["a", "b"]);
    assert_eq!(text::split_on("", '/'), vec![""]);
    assert_eq!(text::split_on("/a//", '/'), vec!["", "a", "", ""]);
    assert_eq!(text::chars_of("añ"), vec!['a', 'ñ']);
    assert_eq!(text::string_of(&vec!['a', 'ñ']), "añ");
    assert!(text::same_text("añ", "añ"));
    assert!(!text::same_text("a", "b"));
}

#[test]
fn selectors_match_whole_names() {
    let selector = Regex::from("ele(?P<rest>.+)").unwrap();
    assert_eq!(selector.as_str(), "^ele(?P<rest>.+)$");
    assert!(selector.is_match("element"));
    assert!(!selector.is_match("an element"));
    assert!(!selector.is_match("ele"));
    assert_eq!(
        selector.group_texts("element", 1),
        vec![Some("ment".to_string())]
    );
    assert_eq!(
        selector.group_texts("element", 0),
        vec![Some("element".to_string())]
    );
    assert_eq!(selector.group_texts("element", 2), vec![None]);
    assert_eq!(
        selector.named_group_texts("element", "rest"),
        vec![Some("ment".to_string())]
    );
    assert_eq!(selector.named_group_texts("element", "other"), vec![None]);
    assert!(selector.group_texts("other", 0).is_empty());
    assert_eq!(Regex::from("(").unwrap_err(), PatchError::InvalidPattern);
    assert_eq!(selector, Regex::from("ele(?P<rest>.+)").unwrap());
    assert_ne!(selector, Regex::from("ele(.+)").unwrap());
    let loose = Regex::unanchored("b+").unwrap();
    assert!(loose.is_match("abba"));
    assert_eq!(
        loose.group_texts("abbab", 0),
        vec![Some("bb".to_string()), Some("b".to_string())]
    );
    assert_eq!(selector.clone().into_string(), "^ele(?P<rest>.+)$");
}

#[test]
fn references_name_a_path_and_a_capture() {
    let whole = SegmentReference::from("../x").unwrap();
    assert_eq!(whole.path, "../x");
    assert_eq!(whole.capture, CaptureReference::WholeExpression);
    let indexed = SegmentReference::from(".:12").unwrap();
    assert_eq!(indexed.capture, CaptureReference::Number(12));
    assert_eq!(indexed.to_string(), ".:12");
    let named = SegmentReference::from(".:n12").unwrap();
    assert_eq!(named.capture, CaptureReference::Name("n12".to_string()));
    assert_eq!(named.to_string(), ".:n12");
    assert_eq!(
        SegmentReference::from("a:b:c").unwrap_err(),
        PatchError::MalformedReference
    );
    assert_eq!(
        ModificationIdentifier::from("+a[b]").unwrap().to_string(),
        "Add[a[b]]"
    );
    assert_eq!(
        ModificationIdentifier::from("~a").unwrap().to_string(),
        "Replace[a]"
    );
    assert_eq!(
        ModificationIdentifier::from("").unwrap().to_string(),
        "Modify[]"
    );
}

#[test]
fn yaml_is_read_into_nodes() {
    assert_eq!(parse_yaml("~").unwrap(), YamlNode::Null);
    assert_eq!(parse_yaml("true").unwrap(), YamlNode::Bool(true));
    assert_eq!(parse_yaml("23").unwrap(), YamlNode::Unsigned(23));
    assert_eq!(parse_yaml("-23").unwrap(), YamlNode::Signed(-23));
    assert_eq!(
        parse_yaml("2.5").unwrap(),
        YamlNode::Float(2.5f64.to_string())
    );
    assert_eq!(parse_yaml("1.0").unwrap(), YamlNode::Float("1".to_string()));
    assert_eq!(parse_yaml("'23'").unwrap(), key("23"));
    assert_eq!(
        parse_yaml("- a\n- b: c\n").unwrap(),
        YamlNode::Sequence(vec![key("a"), YamlNode::Mapping(vec![(key("b"), key("c"))])])
    );
    assert_eq!(parse_yaml("a: [").unwrap_err(), PatchError::MalformedYaml);
}

#[test]
fn reserved_keys_may_occur_once() {
    let twice = |name: &str| {
        YamlNode::Mapping(vec![(
            key("e"),
            YamlNode::Mapping(vec![(key(name), key("a")), (key(name), key("b"))]),
        )])
    };
    for name in ["$modify", "$if", "$move", "$copy"] {
        assert_eq!(
            Query::from_yaml(&twice(name)).unwrap_err(),
            PatchError::DuplicateKey
        );
    }
    let attributes = YamlNode::Mapping(vec![(
        key("$modify"),
        YamlNode::Mapping(vec![
            (key("$attributes"), YamlNode::Null),
            (key("$attributes"), YamlNode::Null),
        ]),
    )]);
    assert_eq!(
        Query::from_yaml(&attributes).unwrap_err(),
        PatchError::DuplicateKey
    );
}

#[test]
fn a_mapping_is_read_with_every_entry() {
    assert_eq!(
        parse_yaml("a: 1\nb: 2\na: 3\n").unwrap(),
        YamlNode::Mapping(vec![
            (key("a"), YamlNode::Unsigned(1)),
            (key("b"), YamlNode::Unsigned(2)),
            (key("a"), YamlNode::Unsigned(3)),
        ])
    );
    assert_eq!(
        parse_yaml("a: ~\na: ~\n").unwrap(),
        YamlNode::Mapping(vec![(key("a"), YamlNode::Null), (key("a"), YamlNode::Null)])
    );
}

#[test]
fn a_reserved_key_written_twice_is_refused() {
    let xml = "<e>Foo</e>";
    for name in ["$modify", "$if", "$move", "$copy"] {
        let patch = format!("e:\n  {}: A\n  {}: B\n", name, name);
        assert_eq!(
            patch_xml::patch_document(xml, &patch).unwrap_err(),
            PatchError::DuplicateKey
        );
        assert_eq!(
            patch_xml::patch_xml(xml.to_string(), patch).unwrap_err(),
            PatchError::DuplicateKey.message()
        );
    }
    let attributes = "e:\n  $modify:\n    $attributes: {a: b}\n    $attributes: {c: d}\n";
    assert_eq!(
        patch_xml::patch_document(xml, &attributes.to_string()).unwrap_err(),
        PatchError::DuplicateKey
    );
    let once = patch_xml::patch_document(xml, &"e:\n  $modify: A\n".to_string()).unwrap();
    assert!(once.ends_with("<e>A</e>"));
}

#[test]
fn a_selector_written_twice_is_applied_twice() {
    let patch = "e:\n  s: a\n  s: b\n".to_string();
    let text = patch_xml::patch_document("<e><s>x</s></e>", &patch).unwrap();
    assert!(text.ends_with("<e><s>b</s></e>"));
    let turned = "e:\n  s: b\n  s: a\n".to_string();
    let text = patch_xml::patch_document("<e><s>x</s></e>", &turned).unwrap();
    assert!(text.ends_with("<e><s>a</s></e>"));
    let query = Query::from_yaml(&parse_yaml(&patch).unwrap()).unwrap();
    match &query {
        Query::Complex(top) => match &top.subqueries[0].1 {
            Query::Complex(inner) => assert_eq!(inner.subqueries.len(), 2),
            _ => panic!("a mapping is a complex query"),
        },
        _ => panic!("a mapping is a complex query"),
    }
}

#[test]
fn selectors_may_occur_twice() {
    let patch = YamlNode::Mapping(vec![(
        key("e"),
        YamlNode::Mapping(vec![(key("s"), key("[.]a")), (key("s"), key("b"))]),
    )]);
    let query = Query::from_yaml(&patch).unwrap();
    match &query {
        Query::Complex(top) => match &top.subqueries[0].1 {
            Query::Complex(inner) => assert_eq!(inner.subqueries.len(), 2),
            _ => panic!("a mapping is a complex query"),
        },
        _ => panic!("a mapping is a complex query"),
    }
    let mut processor = patch_xml::patch_processor::PatchProcessor {
        xml_tree: tree_of("<e><s>x</s></e>"),
    };
    processor.apply(&query).unwrap();
    assert_eq!(text_of(&processor.xml_tree), "<e><s>b</s></e>");
}

#[test]
fn scalars_are_read_by_kind() {
    assert_eq!(
        SimpleValueType::from_yaml(&YamlNode::Signed(5)).unwrap(),
        SimpleValueType::UnsignedInteger(5)
    );
    assert_eq!(
        SimpleValueType::from_yaml(&YamlNode::Signed(-5)).unwrap(),
        SimpleValueType::SignedInteger(-5)
    );
    assert_eq!(
        SimpleValueType::from_yaml(&YamlNode::Float("2.5".to_string())).unwrap(),
        SimpleValueType::Float("2.5".to_string())
    );
    assert_eq!(
        SimpleValueType::from_yaml(&YamlNode::Sequence(Vec::new())).unwrap_err(),
        PatchError::UnexpectedShape
    );
    let tree = tree_of("<e />");
    assert_eq!(
        SimpleValueType::Float("2.5".to_string())
            .eval_to_string(&tree, tree.root)
            .unwrap(),
        Some("2.5".to_string())
    );
    assert_eq!(
        SimpleValueType::Remove.eval_to_string(&tree, tree.root).unwrap(),
        None
    );
}

#[test]
fn tree_operations_do_what_they_say() {
    let mut tree = tree_of("<e><a>1</a><b /><a>2</a></e>");
    let root = tree.root;
    assert_eq!(tree.nodes[root].name(), Some("e".to_string()));
    let children = tree.nodes[root].children().nodes;
    assert_eq!(children.len(), 3);
    assert_eq!(tree.children_named(root, "a"), vec![children[0], children[2]]);
    assert_eq!(
        tree.lookup_path(root, &vec!["b".to_string(), "..".to_string(), ".".to_string()]),
        Ok(root)
    );
    assert_eq!(
        tree.lookup_path(root, &vec!["a".to_string()]),
        Err(PatchError::AmbiguousPath)
    );
    assert_eq!(
        tree.lookup_path(root, &vec!["c".to_string()]),
        Err(PatchError::PathNotFound)
    );
    assert_eq!(
        tree.lookup_path(root, &vec!["..".to_string()]),
        Err(PatchError::PathAboveRoot)
    );
    let made = XmlNode::get_node_info_by_path(
        &mut tree,
        root,
        &vec!["b".to_string(), "c".to_string(), "d".to_string()],
        true,
    )
    .unwrap();
    assert_eq!(tree.nodes[made].name(), Some("d".to_string()));
    assert_eq!(text_of(&tree), "<e><a>1</a><b><c><d /></c></b><a>2</a></e>");
    assert!(XmlNode::remove(&mut tree, children[0]));
    assert!(!XmlNode::remove(&mut tree, children[0]));
    assert!(!XmlNode::remove(&mut tree, root));
    assert_eq!(text_of(&tree), "<e><b><c><d /></c></b><a>2</a></e>");
    let copy = XmlNode::deep_clone(&mut tree, children[1]);
    assert_eq!(tree.nodes[copy].parent, None);
    assert_eq!(tree.nodes[copy].name(), Some("b".to_string()));
    assert_eq!(text_of(&tree), "<e><b><c><d /></c></b><a>2</a></e>");
    tree.attach(copy, children[2]);
    assert_eq!(
        text_of(&tree),
        "<e><b><c><d /></c></b><a>2<b><c><d /></c></b></a></e>"
    );
    assert!(tree.nodes[children[1]].clear_children());
    assert!(tree.rename(children[1], &"z".to_string()));
    tree.patch_attribute(children[1], &"k".to_string(), Some("v".to_string()));
    tree.patch_attribute(children[1], &"l".to_string(), Some("w".to_string()));
    tree.patch_attribute(children[1], &"k".to_string(), Some("x".to_string()));
    tree.patch_attribute(children[1], &"m".to_string(), None);
    assert_eq!(
        text_of(&tree),
        "<e><z k=\"x\" l=\"w\" /><a>2<b><c><d /></c></b></a></e>"
    );
    tree.patch_attribute(children[1], &"k".to_string(), None);
    assert_eq!(text_of(&tree), "<e><z l=\"w\" /><a>2<b><c><d /></c></b></a></e>");
    assert_eq!(
        tree.append(made, XmlNodeData::Text("t".to_string())),
        Ok(tree.nodes.len() - 1)
    );
    let text = tree.nodes.len() - 1;
    assert_eq!(
        tree.append(text, XmlNodeData::Text("t".to_string())),
        Err(PatchError::NotAnElement)
    );
    assert_eq!(tree.element_text(children[2]), "2");
}

#[test]
fn a_failed_walk_keeps_what_it_made_and_makes_no_more() {
    let xml = "<e><a>1</a><b /><a>2</a></e>";
    let path = |segments: &[&str]| segments.iter().map(|s| s.to_string()).collect::<Vec<String>>();

    let mut tree = tree_of(xml);
    let root = tree.root;
    let size = tree.nodes.len();
    assert_eq!(
        XmlNode::get_node_info_by_path(&mut tree, root, &path(&[".."]), true),
        Err(PatchError::PathAboveRoot)
    );
    assert_eq!(tree.nodes.len(), size);
    assert_eq!(text_of(&tree), xml);

    for auto_create in [false, true] {
        let mut tree = tree_of(xml);
        assert_eq!(
            XmlNode::get_node_info_by_path(&mut tree, root, &path(&["a", "c"]), auto_create),
            Err(PatchError::AmbiguousPath)
        );
        assert_eq!(tree.nodes.len(), size);
        assert_eq!(text_of(&tree), xml);
    }

    let mut tree = tree_of(xml);
    assert_eq!(
        XmlNode::get_node_info_by_path(&mut tree, root, &path(&["b", "c", "d"]), false),
        Err(PatchError::PathNotFound)
    );
    assert_eq!(tree.nodes.len(), size);
    assert_eq!(text_of(&tree), xml);
    assert_eq!(
        XmlNode::get_node_info_by_path(&mut tree, root, &path(&["b", ".."]), false),
        Ok(root)
    );
    assert_eq!(tree.nodes.len(), size);

    let mut tree = tree_of(xml);
    assert_eq!(
        XmlNode::get_node_info_by_path(&mut tree, root, &path(&["c", "d", "..", "..", "a", "f"]), true),
        Err(PatchError::AmbiguousPath)
    );
    assert_eq!(tree.nodes.len(), size + 2);
    assert_eq!(text_of(&tree), "<e><a>1</a><b /><a>2</a><c><d /></c></e>");

    let mut tree = tree_of(xml);
    assert_eq!(
        XmlNode::get_node_info_by_path(&mut tree, root, &path(&["c", "..", ".."]), true),
        Err(PatchError::PathAboveRoot)
    );
    assert_eq!(text_of(&tree), "<e><a>1</a><b /><a>2</a><c /></e>");
}

#[test]
fn a_failed_move_detaches_and_copies_nothing() {
    let xml = "<e><s>Foo</s></e>";
    let expression = |text: &str| patch_xml::patch_structure::ReferenceExpression::parse(text).unwrap();
    for action in [MoveCopyAction::Move, MoveCopyAction::Copy] {
        let mut tree = tree_of(xml);
        let root = tree.root;
        let size = tree.nodes.len();
        assert_eq!(
            XmlNode::move_copy_node(&mut tree, root, &expression("a/"), action),
            Err(PatchError::MoveOfRoot)
        );
        assert_eq!(tree.nodes.len(), size);
        assert_eq!(text_of(&tree), xml);
    }

    let mut tree = tree_of(xml);
    let root = tree.root;
    let size = tree.nodes.len();
    assert_eq!(
        XmlNode::move_copy_node(&mut tree, root, &expression("a/b"), MoveCopyAction::Move),
        Err(PatchError::MoveOfRoot)
    );
    assert_eq!(tree.nodes.len(), size);
    assert_eq!(text_of(&tree), "<b><s>Foo</s></b>");

    let mut tree = tree_of("<e><s>Foo</s><t /><t /></e>");
    let s = tree.nodes[tree.root].children().nodes[0];
    assert_eq!(
        XmlNode::move_copy_node(&mut tree, s, &expression("u/../t/v/"), MoveCopyAction::Move),
        Err(PatchError::AmbiguousPath)
    );
    assert_eq!(text_of(&tree), "<e><s>Foo</s><t /><t /><u /></e>");

    let mut tree = tree_of("<e><s>Foo</s></e>");
    let s = tree.nodes[tree.root].children().nodes[0];
    assert_eq!(
        XmlNode::move_copy_node(&mut tree, s, &expression("[x]/"), MoveCopyAction::Move),
        Err(PatchError::PathNotFound)
    );
    assert_eq!(text_of(&tree), "<e><s>Foo</s></e>");
}

#[test]
fn an_error_leaves_the_work_that_was_done_before_it() {
    let xml = "<e><a>1</a><b>2</b><c>3</c></e>";
    let patch = "e:\n  a: A\n  b: '[zz]'\n  c: C\n";
    let query = Query::from_yaml(&parse_yaml(patch).unwrap()).unwrap();
    let mut processor = patch_xml::patch_processor::PatchProcessor {
        xml_tree: tree_of(xml),
    };
    assert_eq!(processor.apply(&query), Err(PatchError::PathNotFound));
    assert_eq!(text_of(&processor.xml_tree), "<e><a>A</a><b>2</b><c>3</c></e>");
    assert_eq!(
        patch_xml::patch_document(xml, &patch.to_string()),
        Err(PatchError::PathNotFound)
    );

    let mut processor = patch_xml::patch_processor::PatchProcessor {
        xml_tree: tree_of(xml),
    };
    let first = Query::from_yaml(&parse_yaml("e:\n  a: '[zz]'\n  b: B\n").unwrap()).unwrap();
    assert_eq!(processor.apply(&first), Err(PatchError::PathNotFound));
    assert_eq!(text_of(&processor.xml_tree), xml);
}

#[test]
fn children_that_no_selector_matches_are_left_alone() {
    let xml = "<e><a>1<k /></a><b x=\"1\">2</b><c>3</c><b>4</b><d /></e>";
    let patch = "e:\n  b: B\n  d: ~\n  a:\n    k: K\n".to_string();
    let text = patch_xml::patch_document(xml, &patch).unwrap();
    assert!(text.ends_with("<e><a>1<k>K</k></a><b x=\"1\">B</b><c>3</c><b>B</b></e>"));
    let mut tree = tree_of(xml);
    let root = tree.root;
    let before = tree.nodes[root].children().nodes;
    let query = Query::from_yaml(&parse_yaml("b: B\nd: ~\nz: Z\n").unwrap()).unwrap();
    match &query {
        Query::Complex(complex) => {
            patch_xml::patch_processor::PatchProcessor::apply_complex_query(&mut tree, root, complex)
                .unwrap();
        },
        _ => panic!("a mapping is a complex query"),
    }
    let after = tree.nodes[root].children().nodes;
    assert_eq!(after, vec![before[0], before[1], before[2], before[3]]);
    assert_eq!(text_of(&tree), "<e><a>1<k /></a><b x=\"1\">B</b><c>3</c><b>B</b></e>");

    let renaming = "e:\n  a:\n    $move: f\n    k:\n      $copy: g\n".to_string();
    let text = patch_xml::patch_document(xml, &renaming).unwrap();
    assert!(text.ends_with("<e><f>1<g /></f><b x=\"1\">2</b><c>3</c><b>4</b><d /></e>"));
}

#[test]
fn moving_renames_and_relocates() {
    let mut tree = tree_of("<e><s><ss>Foo</ss></s></e>");
    let s = tree.nodes[tree.root].children().nodes[0];
    let ss = tree.nodes[s].children().nodes[0];
    let target = patch_xml::patch_structure::ReferenceExpression::parse("../s2/t").unwrap();
    XmlNode::move_copy_node(&mut tree, ss, &target, MoveCopyAction::Move).unwrap();
    assert_eq!(text_of(&tree), "<e><s /><s2><t>Foo</t></s2></e>");
    let keep = patch_xml::patch_structure::ReferenceExpression::parse("s3/").unwrap();
    XmlNode::move_copy_node(&mut tree, s, &keep, MoveCopyAction::Copy).unwrap();
    assert_eq!(text_of(&tree), "<e><s /><s2><t>Foo</t></s2><s3><s /></s3></e>");
}

#[test]
fn documents_are_read_and_written() {
    let document = parse_document("<p:e a=\"1\" xmlns:p=\"u\">x<![CDATA[y]]><?t d?></p:e>").unwrap();
    assert_eq!(document.prefix, Some("p".to_string()));
    assert_eq!(document.name, "e");
    assert_eq!(document.attributes, vec![("a".to_string(), "1".to_string())]);
    assert_eq!(
        document.children,
        vec![
            DocumentNode::Text("x".to_string()),
            DocumentNode::Text("y".to_string()),
            DocumentNode::ProcessingInstruction("t".to_string(), Some("d".to_string())),
        ]
    );
    assert_eq!(
        parse_document("not xml").unwrap_err(),
        PatchError::MalformedXml
    );
    assert_eq!(
        write_document(&DocumentNode::Text("x".to_string())).unwrap_err(),
        PatchError::UnwritableXml
    );
    let written =
        write_document(&DocumentNode::Element(parse_document("<e><f></f></e>").unwrap())).unwrap();
    assert_eq!(
        written,
        "<?xml version=\"1.0\" encoding=\"UTF-8\"?><e><f /></e>"
    );
}

#[test]
fn paths_only_climb() {
    let mut path = XmlPath::new();
    for name in ["a", "b", "c"] {
        path.segments.push(PathSegment {
            name: name.to_string(),
            regex: Regex::from(name).unwrap(),
        });
    }
    assert_eq!(path.apply(".././/..".to_string()), Ok(()));
    assert_eq!(path.segments.len(), 1);
    assert_eq!(path.segments[0].name, "a");
    assert_eq!(path.apply("../..".to_string()), Ok(()));
    assert_eq!(path.segments.len(), 0);
    assert_eq!(
        path.apply("../x".to_string()),
        Err(PatchError::UnsupportedPathSegment)
    );
}

#[test]
fn constants_are_read_in_three_bases() {
    assert_eq!(
        SvdConstant::from_string("#101".to_string()),
        Ok(SvdConstant { value: 5 })
    );
    assert_eq!(
        SvdConstant::from_string("0x1f".to_string()),
        Ok(SvdConstant { value: 31 })
    );
    assert_eq!(
        SvdConstant::from_string("0X1F".to_string()),
        Ok(SvdConstant { value: 31 })
    );
    assert_eq!(
        SvdConstant::from_string("+17".to_string()),
        Ok(SvdConstant { value: 17 })
    );
    assert_eq!(
        SvdConstant::from_string("4294967295".to_string()),
        Ok(SvdConstant { value: u32::MAX })
    );
    assert_eq!(
        SvdConstant::from_string("4294967296".to_string()),
        Err(ParseConstantError::Overflow)
    );
    assert_eq!(
        SvdConstant::from_string("".to_string()),
        Err(ParseConstantError::Empty)
    );
    assert_eq!(
        SvdConstant::from_string("0x".to_string()),
        Err(ParseConstantError::Empty)
    );
    assert_eq!(
        SvdConstant::from_string("#102".to_string()),
        Err(ParseConstantError::InvalidDigit)
    );
    assert_eq!(
        SvdConstant::from_string("-1".to_string()),
        Err(ParseConstantError::InvalidDigit)
    );
    assert_eq!(
        SvdConstant::from_string("Hello World".to_string()),
        Err(ParseConstantError::InvalidDigit)
    );
    assert_eq!(HexSerde::serialize(&0), "0x0");
    assert_eq!(HexSerde::serialize(&255), "0xFF");
    assert_eq!(HexSerde::serialize(&0x1A2B3C4D), "0x1A2B3C4D");
    assert_eq!(HexSerde::deserialize("0xff"), Ok(255));
    assert_eq!(HexSerde::deserialize("255"), Ok(255));
    assert_eq!(
        HexSerde::deserialize("#11"),
        Err(ParseConstantError::InvalidDigit)
    );
}

#[test]
fn bit_ranges_have_masks() {
    assert_eq!(
        BitRange::OffsetWidthStyle {
            bit_offset: 4,
            bit_width: Some(3)
        }
        .to_mask(),
        0x70
    );
    assert_eq!(
        BitRange::OffsetWidthStyle {
            bit_offset: 28,
            bit_width: None
        }
        .to_mask(),
        0xF000_0000
    );
    assert_eq!(BitRange::LsbMsbStyle { lsb: 2, msb: 5 }.to_mask(), 0x1C);
    assert_eq!(BitRange::LsbMsbStyle { lsb: 5, msb: 2 }.to_mask(), 0x1C);
    assert_eq!(
        BitRange::OffsetWidthStyle {
            bit_offset: 30,
            bit_width: Some(8)
        }
        .to_mask(),
        0xC000_0000
    );
}

#[test]
fn field_masks_are_checked() {
    let mut field = patch_xml::output::Field {
        derived_from: None,
        dim: None,
        dim_increment: None,
        dim_index: None,
        dim_name: None,
        dim_array_index: None,
        name: "".to_string(),
        description: None,
        bit_offset: None,
        bit_width: None,
        lsb: None,
        msb: None,
        bit_range: Some("[0x7:#11]".to_string()),
        access: None,
        modified_write_values: None,
        write_constraint: None,
        read_action: None,
        enumerated_values: None,
    };
    assert_eq!(
        field.try_to_get_mask(),
        Ok(patch_xml::output::FieldMask::LsbMsb {
            lsb: SvdConstant { value: 3 },
            msb: SvdConstant { value: 7 }
        })
    );
    assert_eq!(field.checked_mask(), Some(field.get_mask()));
    field.lsb = Some(SvdConstant { value: 1 });
    assert_eq!(field.find_mask(), Err(patch_xml::output::MaskError::InvalidSetup));
    assert_eq!(field.checked_mask(), None);
    assert!(field.post_check().unwrap_err().starts_with("Invalid mask setup"));
    field.lsb = None;
    field.bit_range = Some("[x:1]".to_string());
    assert_eq!(
        field.post_check().unwrap_err(),
        "Invalid format for bit range pattern: Could not convert msb or lsb in SvdConstant: [x:1]"
    );
    let register = |fields| patch_xml::output::Register {
        derived_from: None,
        dim: None,
        dim_increment: None,
        dim_index: None,
        dim_name: None,
        dim_array_index: None,
        name: "r".to_string(),
        display_name: "r".to_string(),
        description: "r".to_string(),
        alternate_group: None,
        alternate_register: None,
        address_offset: SvdConstant { value: 0 },
        size: None,
        access: None,
        protection: None,
        reset_value: None,
        reset_mask: None,
        data_type: None,
        modified_write_values: None,
        write_constraint: None,
        read_action: None,
        fields,
    };
    assert!(register(None).post_check().is_ok());
    assert!(register(Some(patch_xml::output::Fields {
        field: vec![field.clone()]
    }))
    .post_check()
    .is_err());
    field.bit_range = None;
    assert!(register(Some(patch_xml::output::Fields { field: vec![field] }))
        .post_check()
        .is_ok());
}

fn plain_field(name: &str) -> svd::Field {
    svd::Field {
        name: name.to_string(),
        bit_offset: 0,
        bit_width: 1,
        derived_from: None,
        description: Some("old".to_string()),
        access: None,
        modified_write_values: None,
        write_constraint: None,
        read_action: None,
        enumerated_values: None,
        enumerated_values2: None,
    }
}

#[test]
fn patches_are_merged_by_selector() {
    let mut register = svd::Register {
        name: "CTRL".to_string(),
        size: 32,
        reset_value: 0,
        display_name: "ctrl".to_string(),
        description: "control".to_string(),
        access: None,
        derived_from: None,
        alternate_group: None,
        address_offset: 4,
        modified_write_values: None,
        write_constraint: None,
        read_action: None,
        fields: svd::Fields {
            field: vec![plain_field("EN"), plain_field("MODE0"), plain_field("MODE1")],
        },
    };
    let patch = config::Register {
        patch_type: None,
        derived_from: None,
        display_name: Some("Control".to_string()),
        description: None,
        access: Some(patch_xml::input::common::AccessType::ReadOnly),
        alternate_group: None,
        address_offset: Some(8),
        modified_write_values: None,
        write_constraint: None,
        read_action: None,
        fields: vec![
            (
                RegExStruct::from("MODE.").unwrap(),
                config::Field {
                    patch_type: None,
                    derived_from: None,
                    description: Some("mode".to_string()),
                    access: None,
                    modified_write_values: None,
                    write_constraint: None,
                    read_action: None,
                    enumerated_values: Some(config::EnumeratedValues {
                        _patch_type: None,
                        name: Some("modes".to_string()),
                        derived_from: None,
                        usage: None,
                        enumerated_value: Vec::new(),
                    }),
                    enumerated_values2: None,
                },
            ),
            (
                RegExStruct::from("MODE1").unwrap(),
                config::Field {
                    patch_type: None,
                    derived_from: Some("MODE0".to_string()),
                    description: None,
                    access: None,
                    modified_write_values: None,
                    write_constraint: None,
                    read_action: None,
                    enumerated_values: None,
                    enumerated_values2: None,
                },
            ),
        ],
    };
    patch.merge_into(&mut register);
    assert_eq!(register.display_name, "Control");
    assert_eq!(register.description, "control");
    assert_eq!(register.address_offset, 8);
    assert_eq!(
        register.access,
        Some(patch_xml::input::common::AccessType::ReadOnly)
    );
    assert_eq!(register.fields.field[0], plain_field("EN"));
    assert_eq!(
        register.fields.field[1].description,
        Some("mode".to_string())
    );
    assert_eq!(
        register.fields.field[1].enumerated_values,
        Some(svd::EnumeratedValues {
            name: Some("modes".to_string()),
            derived_from: None,
            usage: None,
            enumerated_value: Vec::new(),
        })
    );
    assert_eq!(register.fields.field[1].derived_from, None);
    assert_eq!(
        register.fields.field[2].derived_from,
        Some("MODE0".to_string())
    );
    assert_eq!(
        register.fields.field[2].description,
        Some("mode".to_string())
    );
}

#[test]
fn names_for_values_are_merged() {
    let mut value = svd::EnumeratedValue {
        name: "on".to_string(),
        description: Some("old".to_string()),
        value: Some(0),
        is_default: None,
    };
    config::EnumeratedValue::Value(1).merge_into(&mut value);
    assert_eq!(value.value, Some(1));
    assert_eq!(value.description, Some("old".to_string()));
    assert_eq!(value.is_default, Some(false));
    config::EnumeratedValue::DefaultDescription("new".to_string()).merge_into(&mut value);
    assert_eq!(value.value, Some(1));
    assert_eq!(value.description, Some("new".to_string()));
    assert_eq!(value.is_default, Some(true));
    config::EnumeratedValue::ValueDescription(2, "two".to_string()).merge_into(&mut value);
    assert_eq!(value.value, Some(2));
    assert_eq!(value.description, Some("two".to_string()));
    assert_eq!(value.is_default, Some(false));
    config::EnumeratedValue::Default.merge_into(&mut value);
    assert_eq!(value.is_default, Some(true));
    assert_eq!(svd::EnumeratedValues::new().enumerated_value.len(), 0);
}
