fn check_referencing(xml_str: &str, patch_str: &str, expected_result: &str) {
    let result_str = patch_xml::patch_xml(xml_str.to_string(), patch_str.to_string());
    assert_eq!(
        result_str.unwrap(),
        format!(
            r#"<?xml version="1.0" encoding="UTF-8"?>{}"#,
            expected_result
        )
    );
}

#[test]
fn referencing_query_named() {
    check_referencing(
        r#"<element>Foo</element>"#,
        "ele(?P<appendix>.+):\n  Referenced [.:appendix]",
        r#"<element>Referenced ment</element>"#,
    );
}

#[test]
fn referencing_query_indexed() {
    check_referencing(
        r#"<element>Foo</element>"#,
        "ele(.+):\n  Referenced [.:1]",
        r#"<element>Referenced ment</element>"#,
    );
}

#[test]
fn referencing_query_global() {
    check_referencing(
        r#"<element>Foo</element>"#,
        "ele(.+):\n  Referenced [.:0]",
        r#"<element>Referenced element</element>"#,
    );
}

#[test]
fn referencing_query_global_implicite() {
    check_referencing(
        r#"<element>Foo</element>"#,
        "ele(.+):\n  Referenced [.]",
        r#"<element>Referenced element</element>"#,
    );
}

#[test]
fn referencing_query_multiple_level() {
    check_referencing(
        r#"<element><subelement><subsubelement>Foo</subsubelement></subelement></element>"#,
        "ele(.+):\n  subelement:\n    subsubelement:\n      Referenced [../../.:1]",
        r#"<element><subelement><subsubelement>Referenced ment</subsubelement></subelement></element>"#,
    );
}

#[test]
fn referencing_multiple_parallel() {
    check_referencing(
        r#"<element><subelement1>Foo1</subelement1><subelement2>Foo2</subelement2></element>"#,
        "element:\n  subelement(?P<senum>.+): Bar[.:senum]\n",
        r#"<element><subelement1>Bar1</subelement1><subelement2>Bar2</subelement2></element>"#,
    );
}

