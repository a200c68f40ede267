fn check_multi_query(xml_str: &str, patch_str: &str, expected_result: &str) {
    let result_str = patch_xml::patch_xml(xml_str.to_string(), patch_str.to_string());
    assert_eq!(
        result_str.unwrap(),
        format!(
            r#"<?xml version="1.0" encoding="UTF-8"?>{}"#,
            expected_result
        )
    );
}

#[test]
fn successive_change() {
    check_multi_query(
        r#"<element>Foo</element>"#,
        "- element: Bar\n- element: Baz\n",
        r#"<element>Baz</element>"#,
    );
}

#[test]
fn individual_changes() {
    check_multi_query(
        r#"<element><subelement1>Foo1</subelement1><subelement2>Foo2</subelement2></element>"#,
        "element:\n  subelement1: Bar1\n  subelement2: Bar2\n",
        r#"<element><subelement1>Bar1</subelement1><subelement2>Bar2</subelement2></element>"#,
    );
}

