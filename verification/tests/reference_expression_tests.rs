use patch_xml::patch_structure::ReferenceExpression;
use patch_xml::patch_structure::Segment;
use patch_xml::patch_structure::SegmentReference;

#[test]
fn there_and_back_again() {
    let pattern = "hello[world]lovely[myra]end".to_string();
    let refex = ReferenceExpression::parse(pattern.as_str()).unwrap();
    assert_eq!(refex.to_string(), pattern)
}

#[test]
fn common_pattern() {
    let pattern = "hello[world]lovely[myra]end".to_string();
    let refex = ReferenceExpression::parse(pattern.as_str()).unwrap();
    assert_eq!(
        ReferenceExpression {
            segments: vec![
                Segment::String("hello".to_string()),
                Segment::Reference(SegmentReference::from("world").unwrap()),
                Segment::String("lovely".to_string()),
                Segment::Reference(SegmentReference::from("myra").unwrap()),
                Segment::String("end".to_string()),
            ]
        },
        refex
    )
}

#[test]
fn escaped_bracket() {
    let pattern = r#"hello[world]lovely\[myra\]end"#.to_string();
    let refex = ReferenceExpression::parse(pattern.as_str()).unwrap();
    assert_eq!(
        ReferenceExpression {
            segments: vec![
                Segment::String("hello".to_string()),
                Segment::Reference(SegmentReference::from("world").unwrap()),
                Segment::String("lovely[myra]end".to_string()),
            ]
        },
        refex
    )
}

#[test]
fn wrong_separation() {
    let pattern = "hello[world]lovely\\[myra\\]end".to_string();
    let refex = ReferenceExpression::parse(pattern.as_str()).unwrap();
    assert_ne!(
        ReferenceExpression {
            segments: vec![
                Segment::String("hello".to_string()),
                Segment::Reference(SegmentReference::from("world").unwrap()),
                Segment::String("lovely".to_string()),
                Segment::String("[myra]".to_string()),
                Segment::String("end".to_string()),
            ]
        },
        refex
    )
}

#[test]
fn escaped_token_pattern() {
    let pattern = r#"hello[\[\]\n\r\t\\\'\"]world\[\]\n\r\t\\\'\""#.to_string();
    let refex = ReferenceExpression::parse(pattern.as_str()).unwrap();
    assert_eq!(
        ReferenceExpression {
            segments: vec![
                Segment::String("hello".to_string()),
                Segment::Reference(SegmentReference::from("[]\n\r\t\\\'\"").unwrap()),
                Segment::String("world[]\n\r\t\\\'\"".to_string()),
            ]
        },
        refex
    )
}
