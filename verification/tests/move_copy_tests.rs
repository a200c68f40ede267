fn check_move_copy(xml_str: &str, patch_str: &str, expected_result: &str) {
    let result_str = patch_xml::patch_xml(xml_str.to_string(), patch_str.to_string());
    assert_eq!(
        result_str.unwrap(),
        format!(
            r#"<?xml version="1.0" encoding="UTF-8"?>{}"#,
            expected_result
        )
    );
}

#[test]
fn simple_rename() {
    check_move_copy(
        r#"<element>Foo</element>"#,
        "element:\n  $move: new_element\n",
        r#"<new_element>Foo</new_element>"#,
    );
}

#[test]
fn simple_move() {
    check_move_copy(
        r#"<element><subelement><subsubelement>Foo</subsubelement></subelement></element>"#,
        "element:\n  subelement:\n    subsubelement:\n      $move: ../subelement2/\n",
        r#"<element><subelement /><subelement2><subsubelement>Foo</subsubelement></subelement2></element>"#,
    );
}

#[test]
fn simple_change_and_move() {
    check_move_copy(
        r#"<element><subelement><subsubelement>Foo</subsubelement></subelement></element>"#,
        "element:\n  subelement:\n    subsubelement:\n      $move: ../subelement2/\n      $modify:\n          subsubsubelement: 34\n",
        r#"<element><subelement /><subelement2><subsubelement>Foo<subsubsubelement>34</subsubsubelement></subsubelement></subelement2></element>"#,
    );
}

#[test]
fn simple_move2() {
    check_move_copy(
        r#"<element><subelement><subsubelement>Foo</subsubelement></subelement></element>"#,
        "element:\n  subelement:\n    subsubelement:\n      $move: subelement2/\n",
        r#"<element><subelement><subelement2><subsubelement>Foo</subsubelement></subelement2></subelement></element>"#,
    );
}

#[test]
fn simple_copy() {
    check_move_copy(
        r#"<element><subelement><subsubelement>Foo</subsubelement></subelement></element>"#,
        "element:\n  subelement:\n    subsubelement:\n      $copy: ../subelement2/\n",
        r#"<element><subelement><subsubelement>Foo</subsubelement></subelement><subelement2><subsubelement>Foo</subsubelement></subelement2></element>"#,
    );
}

