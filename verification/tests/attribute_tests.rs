fn check_attributes(xml_str: &str, patch_str: &str, expected_result: &str) {
    let result_str = patch_xml::patch_xml(xml_str.to_string(), patch_str.to_string());
    assert_eq!(
        result_str.unwrap(),
        format!(
            r#"<?xml version="1.0" encoding="UTF-8"?>{}"#,
            expected_result
        )
    );
}

#[test]
fn simple_unpatched_attribute() {
    check_attributes(
        r#"<element attr1="value1" attr2="value2" attr3="value3" attr4="value4" attr5="value5">Foo</element>"#,
        "element: Bar",
        r#"<element attr1="value1" attr2="value2" attr3="value3" attr4="value4" attr5="value5">Bar</element>"#,
    );
}

#[test]
fn simple_patched_attribute() {
    check_attributes(
        r#"<element attr1="value1" attr2="value2">Foo</element>"#,
        "element:\n    $modify:\n        $attributes:\n            attr1: \"new value1\"\n            attr2: ~\n            attr3: \"new value3\"\n",
        r#"<element attr1="new value1" attr3="new value3">Foo</element>"#,
    );
}

