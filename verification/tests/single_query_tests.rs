fn check_single_query(xml_str: &str, patch_str: &str, expected_result: &str) {
    let result_str = patch_xml::patch_xml(xml_str.to_string(), patch_str.to_string());
    assert_eq!(
        result_str.unwrap(),
        format!(
            r#"<?xml version="1.0" encoding="UTF-8"?>{}"#,
            expected_result
        )
    );
}

#[test]
fn simple_pattern() {
    check_single_query(
        r#"<element>Foo</element>"#,
        "element:\n  Bar",
        r#"<element>Bar</element>"#,
    );
}

#[test]
fn simple_boolean() {
    check_single_query(
        r#"<element>Foo</element>"#,
        "element:\n  true",
        r#"<element>true</element>"#,
    );
}

#[test]
fn simple_unsigned() {
    check_single_query(
        r#"<element>Foo</element>"#,
        "element:\n  23",
        r#"<element>23</element>"#,
    );
}

#[test]
fn simple_signed() {
    check_single_query(
        r#"<element>Foo</element>"#,
        "element:\n  -33",
        r#"<element>-33</element>"#,
    );
}

#[test]
fn simple_remove() {
    check_single_query(
        r#"<element><subelement>Foo</subelement></element>"#,
        "element:\n    subelement: ~",
        r#"<element />"#,
    );
}

#[test]
fn simple_clear() {
    check_single_query(
        r#"<element><subelement>Foo</subelement></element>"#,
        "element:\n    subelement: {}",
        r#"<element><subelement /></element>"#,
    );
}

#[test]
fn simple_double_clear() {
    check_single_query(
        r#"<element><subelement>Foo</subelement><subelement>Bar</subelement></element>"#,
        "element:\n    subelement: {}",
        r#"<element><subelement /><subelement /></element>"#,
    );
}

#[test]
fn regex_query() {
    check_single_query(
        r#"<element>Foo</element>"#,
        "el.+:\n  Bar",
        r#"<element>Bar</element>"#,
    );
}

#[test]
fn no_matching_regex_query() {
    check_single_query(
        r#"<element>Foo</element>"#,
        "ela.+:\n  Bar",
        r#"<element>Foo</element>"#,
    );
}

