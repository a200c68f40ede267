fn check_modification(xml_str: &str, patch_str: &str, expected_result: &str) {
    let result_str = patch_xml::patch_xml(xml_str.to_string(), patch_str.to_string());
    assert_eq!(
        result_str.unwrap(),
        format!(
            r#"<?xml version="1.0" encoding="UTF-8"?>{}"#,
            expected_result
        )
    );
}

#[test]
fn simple_update() {
    check_modification(
        r#"<element>Foo</element>"#,
        "element:\n  $modify: Bar\n",
        r#"<element>Bar</element>"#,
    );
}

#[test]
fn complex_update() {
    check_modification(
        r#"<element><subelement>Foo</subelement></element>"#,
        "element:\n  $modify:\n    subelement: Bar\n",
        r#"<element><subelement>Bar</subelement></element>"#,
    );
}

#[test]
fn complex_update_implicite_creation() {
    check_modification(
        r#"<element></element>"#,
        "element:\n  $modify:\n    subelement: Bar\n",
        r#"<element><subelement>Bar</subelement></element>"#,
    );
}

#[test]
fn complex_add() {
    check_modification(
        r#"<element><subelement>Foo</subelement></element>"#,
        "element:\n  $modify:\n    +subelement: Bar\n",
        r#"<element><subelement>Foo</subelement><subelement>Bar</subelement></element>"#,
    );
}

