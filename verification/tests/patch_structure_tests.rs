use patch_xml::patch_structure::parse;
use patch_xml::patch_structure::Comparator;
use patch_xml::patch_structure::ComplexQuery;
use patch_xml::patch_structure::ComplexValue;
use patch_xml::patch_structure::Filter;
use patch_xml::patch_structure::ModificationIdentifier;
use patch_xml::patch_structure::ModificationValue;
use patch_xml::patch_structure::Modifier;
use patch_xml::patch_structure::Query;
use patch_xml::patch_structure::ReferenceExpression;
use patch_xml::patch_structure::Regex;
use patch_xml::patch_structure::SimpleValueType;

fn regex(source: &str) -> Regex {
    Regex::from(source).unwrap()
}

fn refex(source: &str) -> ReferenceExpression {
    ReferenceExpression::from(source).unwrap()
}

fn pattern(source: &str) -> SimpleValueType {
    SimpleValueType::Pattern(refex(source))
}

fn child(selector: &str, filter: Filter) -> Filter {
    Filter::Child((regex(selector), Box::new(filter)))
}

fn complex_test_helper(yaml_str: &str, expected_result: Query) {
    let result: Query = parse(&yaml_str.to_string()).unwrap().unwrap();
    assert_eq!(result, expected_result);
}

fn simple_value_test_helper(yaml_str: &str, simple_value_type: SimpleValueType) {
    let result: Query = parse(&yaml_str.to_string()).unwrap().unwrap();
    let expected_result = Query::Complex(ComplexQuery {
        modifier: Modifier::new(),
        modification: None,
        subqueries: vec![(regex("elementa"), Query::Simple(simple_value_type))],
    });
    assert_eq!(result, expected_result);
}

fn filtered_query(filter: Filter) -> Query {
    Query::Complex(ComplexQuery {
        modifier: Modifier::new(),
        modification: None,
        subqueries: vec![(
            regex("elementa"),
            Query::Complex(ComplexQuery {
                modifier: Modifier {
                    filter: Some(filter),
                    move_to: None,
                    copy: None,
                },
                modification: None,
                subqueries: Vec::new(),
            }),
        )],
    })
}

#[test]
fn test_pattern() {
    simple_value_test_helper("elementa: \"hello world\"\n", pattern("hello world"));
}

#[test]
fn test_boolean() {
    simple_value_test_helper("elementa: true\n", SimpleValueType::Boolean(true));
}

#[test]
fn test_signed_int() {
    simple_value_test_helper("elementa: -23\n", SimpleValueType::SignedInteger(-23));
}

#[test]
fn test_unsigned_int() {
    simple_value_test_helper("elementa: 32\n", SimpleValueType::UnsignedInteger(32));
}

#[test]
fn test_remove() {
    simple_value_test_helper("elementa: ~\n", SimpleValueType::Remove);
}

#[test]
fn test_nested_queries() {
    let expected_result = Query::from(vec![(
        regex("elementa"),
        Query::from(vec![(regex("elementb"), Query::Simple(SimpleValueType::Remove))]),
    )]);
    complex_test_helper("elementa:\n  elementb: ~\n", expected_result);
}

#[test]
fn test_query_duplicate_keys() {
    let expected_result = Query::from(vec![(
        regex("elementa"),
        Query::from(vec![
            (regex("elementb"), Query::Simple(SimpleValueType::Remove)),
            (regex("elementb"), Query::Simple(SimpleValueType::Remove)),
        ]),
    )]);
    complex_test_helper("elementa:\n  elementb: ~\n  elementb: ~\n", expected_result);
}

#[test]
fn test_root_query_lists() {
    let expected_result = Query::ComplexVec(vec![
        ComplexQuery {
            modifier: Modifier {
                filter: None,
                move_to: None,
                copy: None,
            },
            modification: None,
            subqueries: vec![(regex("elementa"), Query::Simple(pattern("hello")))],
        },
        ComplexQuery {
            modifier: Modifier {
                filter: None,
                move_to: None,
                copy: None,
            },
            modification: None,
            subqueries: vec![(regex("elementa"), Query::Simple(pattern("world")))],
        },
    ]);
    complex_test_helper("- elementa: hello\n- elementa: world\n", expected_result);
}

#[test]
fn test_simple_filter() {
    let expected_result = filtered_query(Filter::And(vec![
        child(
            "subelement1",
            Filter::Expression(Comparator::Equals, SimpleValueType::Boolean(true)),
        ),
        child(
            "subelement2",
            Filter::Expression(Comparator::GreaterThan, SimpleValueType::UnsignedInteger(4)),
        ),
        child(
            "subelement3",
            Filter::Expression(
                Comparator::LesserThan,
                SimpleValueType::Float(1.0f64.to_string()),
            ),
        ),
        child(
            "subelement4",
            Filter::Expression(Comparator::EqualsNot, SimpleValueType::SignedInteger(-2)),
        ),
        child("subelement5", Filter::Regex(regex("some(pattern)?"))),
    ]));
    complex_test_helper(
        "elementa:\n    $if:\n        subelement1: =true\n        subelement2: '>4'\n        subelement3: <1.0\n        subelement4: '!=-2'\n        subelement5: '^some(pattern)?$'\n",
        expected_result,
    );
}

#[test]
fn test_cascaded_filter() {
    let pair = || {
        Filter::And(vec![
            child(
                "subelement",
                Filter::Expression(Comparator::Equals, SimpleValueType::Boolean(true)),
            ),
            child(
                "subelement",
                Filter::Expression(Comparator::GreaterThan, SimpleValueType::UnsignedInteger(4)),
            ),
        ])
    };
    let expected_result = filtered_query(Filter::And(vec![
        child("filter_element_a", pair()),
        child("filter_element_b", pair()),
    ]));
    complex_test_helper(
        "elementa:\n    $if:\n        filter_element_a:\n            - subelement: =true\n            - subelement: '>4'\n        filter_element_b:\n            - subelement: =true\n            - subelement: '>4'\n",
        expected_result,
    );
}

#[test]
fn test_or_filter() {
    let expected_result = filtered_query(Filter::And(vec![
        Filter::Or(vec![
            child(
                "element0",
                Filter::Expression(Comparator::Equals, SimpleValueType::UnsignedInteger(5)),
            ),
            child(
                "element1",
                Filter::Expression(Comparator::Equals, SimpleValueType::Boolean(true)),
            ),
            child(
                "element2",
                Filter::Expression(
                    Comparator::GreaterThan,
                    SimpleValueType::Float(2.0f64.to_string()),
                ),
            ),
        ]),
        Filter::Or(vec![
            child(
                "element",
                Filter::Expression(Comparator::Equals, SimpleValueType::UnsignedInteger(5)),
            ),
            child(
                "element",
                Filter::Expression(Comparator::Equals, SimpleValueType::UnsignedInteger(2)),
            ),
            child(
                "element",
                Filter::Expression(Comparator::LesserThan, SimpleValueType::UnsignedInteger(1)),
            ),
        ]),
    ]));
    complex_test_helper(
        "elementa:\n    $if:\n        - $or:\n            $or:\n                element0: 5\n            element1: =true\n            element2: '>2.0'\n        - $or:\n            - $and:\n                element: 5\n            - element: =2\n            - element: '<1'\n",
        expected_result,
    );
}

#[test]
fn test_modifiers_simple() {
    let equals = |selector: &str, text: &str| {
        child(
            selector,
            Filter::Expression(Comparator::Equals, pattern(text)),
        )
    };
    let expected_result = Query::Complex(ComplexQuery {
        modifier: Modifier::new(),
        modification: None,
        subqueries: vec![(
            regex("elementa"),
            Query::Complex(ComplexQuery {
                modifier: Modifier {
                    filter: Some(Filter::And(vec![
                        Filter::Or(vec![
                            equals("subelement1", "pattern1"),
                            equals("subelement2", "pattern2"),
                            equals("subelement3", "pattern3"),
                        ]),
                        equals("subelement4", "pattern4"),
                        equals("subelement5", "pattern5"),
                        equals("subelement6", "pattern6"),
                        equals("subelement7", "pattern7"),
                    ])),
                    move_to: Some(refex("some other place")),
                    copy: Some(refex("some place")),
                },
                modification: Some(ModificationValue::SimpleValue(pattern("hello world"))),
                subqueries: Vec::new(),
            }),
        )],
    });
    complex_test_helper(
        "elementa:\n  $if:\n      $or:\n        - subelement1: \"pattern1\"\n        - subelement2: \"pattern2\"\n          subelement3: \"pattern3\"\n      $and:\n        - subelement4: \"pattern4\"\n        - subelement5: \"pattern5\"\n          subelement6: \"pattern6\"\n      subelement7: \"pattern7\"\n  $move: \"some other place\"\n  $copy: \"some place\"\n  $modify: \"hello world\"\n",
        expected_result,
    );
}

#[test]
fn test_modify_complex_map() {
    let expected_result = Query::from(vec![(
        regex("elementa"),
        Query::Complex(ComplexQuery {
            modifier: Modifier::new(),
            modification: Some(ModificationValue::ComplexValue(ComplexValue {
                modifier: Modifier::new(),
                subvalues: vec![
                    (
                        ModificationIdentifier::from("elementb").unwrap(),
                        ModificationValue::SimpleValue(pattern("hello")),
                    ),
                    (
                        ModificationIdentifier::from("elementc").unwrap(),
                        ModificationValue::SimpleValue(pattern("world")),
                    ),
                ],
                attributes: None,
            })),
            subqueries: Vec::new(),
        }),
    )]);
    complex_test_helper(
        "elementa:\n  $modify:\n    elementb: \"hello\"\n    elementc: \"world\"\n",
        expected_result,
    );
}

#[test]
fn test_modify_complex_list() {
    let value = |text: &str| ComplexValue {
        modifier: Modifier::new(),
        subvalues: vec![(
            ModificationIdentifier::from("elementb").unwrap(),
            ModificationValue::SimpleValue(pattern(text)),
        )],
        attributes: None,
    };
    let expected_result = Query::from(vec![(
        regex("elementa"),
        Query::Complex(ComplexQuery {
            modifier: Modifier::new(),
            modification: Some(ModificationValue::ComplexValueVec(vec![
                value("hello"),
                value("world"),
            ])),
            subqueries: Vec::new(),
        }),
    )]);
    complex_test_helper(
        "elementa:\n  $modify:\n    - elementb: \"hello\"\n    - elementb: \"world\"\n",
        expected_result,
    );
}

#[test]
fn test_simple_attributes_modification() {
    let expected_result = Query::from(vec![(
        regex("elementa"),
        Query::Complex(ComplexQuery {
            modifier: Modifier::new(),
            modification: Some(ModificationValue::ComplexValue(ComplexValue {
                modifier: Modifier::new(),
                subvalues: Vec::new(),
                attributes: Some(vec![
                    ("attribute1".to_string(), pattern("hello")),
                    ("attribute2".to_string(), SimpleValueType::Remove),
                ]),
            })),
            subqueries: Vec::new(),
        }),
    )]);
    complex_test_helper(
        "elementa:\n  $modify:\n    $attributes:\n      attribute1: \"hello\"\n      attribute2: ~\n",
        expected_result,
    );
}
