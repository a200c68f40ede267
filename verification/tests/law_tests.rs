use patch_xml::error::PatchError;
use patch_xml::patch_document;
use patch_xml::patch_structure::ReferenceExpression;
use patch_xml::patch_xml;

fn patched(xml: &str, patch: &str) -> String {
    let text = patch_xml(xml.to_string(), patch.to_string()).unwrap();
    text.strip_prefix(r#"<?xml version="1.0" encoding="UTF-8"?>"#)
        .unwrap()
        .to_string()
}

fn failure(xml: &str, patch: &str) -> PatchError {
    patch_document(xml, &patch.to_string()).unwrap_err()
}

#[test]
fn same_input_same_output() {
    let xml = "<e a=\"1\"><s>Foo</s><t><u>Bar</u></t></e>";
    let patch = "e:\n  s: x[..:0]\n  t:\n    u:\n      $copy: ../v/\n";
    let first = patch_xml(xml.to_string(), patch.to_string());
    let second = patch_xml(xml.to_string(), patch.to_string());
    assert_eq!(first, second);
    assert_eq!(
        first.unwrap(),
        "<?xml version=\"1.0\" encoding=\"UTF-8\"?><e a=\"1\"><s>xe</s><t><u>Bar</u></t><v><u>Bar</u></v></e>"
    );
}

#[test]
fn assigning_twice_is_assigning_once() {
    let xml = "<e><s><old />Foo</s><s>Baz</s></e>";
    let patch = "e:\n  s(.*): Bar[.:0]\n";
    let once = patched(xml, patch);
    let twice = patched(&once, patch);
    assert_eq!(once, "<e><s>Bars</s><s>Bars</s></e>");
    assert_eq!(twice, once);
}

#[test]
fn removing_twice_is_removing_once() {
    let xml = "<e><s>Foo</s><t /></e>";
    let patch = "e:\n  s: ~\n";
    let once = patched(xml, patch);
    let twice = patched(&once, patch);
    assert_eq!(once, "<e><t /></e>");
    assert_eq!(twice, once);
}

#[test]
fn assigning_a_reference_through_a_child_works_once_only() {
    let xml = "<e><x /></e>";
    let patch = "e: \"[./x/..]\"";
    let once = patched(xml, patch);
    assert_eq!(once, "<e>e</e>");
    assert_eq!(failure(&once, patch), PatchError::PathNotFound);
}

#[test]
fn plain_expression_is_rendered_as_written() {
    for text in ["", "plain", "a[b]c", "[../x:name]", "[.:0]", "[.:17]x[..]", "[a/b:]"] {
        let expression = ReferenceExpression::parse(text).unwrap();
        assert_eq!(expression.to_string(), text);
    }
}

#[test]
fn escapes_and_long_numerals_are_not_rendered_as_written() {
    assert_eq!(
        ReferenceExpression::parse("a\\[b").unwrap().to_string(),
        "a[b"
    );
    assert_eq!(
        ReferenceExpression::parse("[.:007]").unwrap().to_string(),
        "[.:7]"
    );
    assert_eq!(
        ReferenceExpression::parse("[.:+7]").unwrap().to_string(),
        "[.:7]"
    );
    assert_eq!(
        ReferenceExpression::parse("[a[b]").unwrap().to_string(),
        "a[b]"
    );
}

#[test]
fn unmatched_selector_changes_nothing() {
    let xml = "<e a=\"1\"><s>Foo</s><t /></e>";
    assert_eq!(patched(xml, "x.*:\n  s: Bar\n"), xml);
    assert_eq!(patched(xml, "x: ~\ny: {}\n"), xml);
    assert_eq!(patched(xml, "E: Bar\n"), xml);
}

#[test]
fn empty_patch_changes_nothing() {
    let xml = "<e a=\"1\"><s>Foo</s><t /></e>";
    assert_eq!(patched(xml, ""), xml);
}

#[test]
fn children_and_attributes_keep_their_order() {
    let xml = "<e><a /><b /><c /><d /></e>";
    assert_eq!(
        patched(xml, "e:\n  b: ~\n  $modify:\n    +b: new\n"),
        "<e><a /><c /><d /><b>new</b></e>"
    );
    let xml = "<e z=\"1\" y=\"2\" x=\"3\" />";
    assert_eq!(
        patched(
            xml,
            "e:\n  $modify:\n    $attributes:\n      y: new\n      w: more\n      z: ~\n"
        ),
        "<e y=\"new\" x=\"3\" w=\"more\" />"
    );
}

#[test]
fn move_and_copy_append_at_the_end() {
    let xml = "<e><a><m>1</m></a><b><x /></b></e>";
    assert_eq!(
        patched(xml, "e:\n  a:\n    m:\n      $move: ../b/\n"),
        "<e><a /><b><x /><m>1</m></b></e>"
    );
    assert_eq!(
        patched(xml, "e:\n  a:\n    m:\n      $copy: ../b/n\n"),
        "<e><a><n>1</n></a><b><x /><n>1</n></b></e>"
    );
}

#[test]
fn unselected_siblings_are_left_alone() {
    let xml = "<e><s i=\"1\"><k>Foo</k></s><t i=\"2\"><k>Foo</k><?pi data?></t><s><k /></s></e>";
    assert_eq!(
        patched(xml, "e:\n  s:\n    k: Bar\n    $modify:\n      +n: 1\n"),
        "<e><s i=\"1\"><k>Bar</k><n>1</n></s><t i=\"2\"><k>Foo</k><?pi data?></t><s><k>Bar</k><n>1</n></s></e>"
    );
}

#[test]
fn empty_mapping_clears_and_null_removes() {
    let xml = "<e><s a=\"1\"><k /></s><t>x</t></e>";
    assert_eq!(patched(xml, "e:\n  s: {}\n  t: ~\n"), "<e><s a=\"1\" /></e>");
}

#[test]
fn root_can_be_renamed_but_not_removed_or_moved() {
    assert_eq!(patched("<e>x</e>", "e: ~\n"), "<e>x</e>");
    assert_eq!(
        failure("<e>x</e>", "e:\n  $move: a/b\n"),
        PatchError::MoveOfRoot
    );
    assert_eq!(
        failure("<e>x</e>", "e:\n  $copy: a/\n"),
        PatchError::MoveOfRoot
    );
    assert_eq!(patched("<e>x</e>", "e:\n  $copy: f\n"), "<f>x</f>");
}

#[test]
fn climbing_above_the_root_fails() {
    assert_eq!(
        failure("<e>x</e>", "e: \"[..:0]\"\n"),
        PatchError::PathAboveRoot
    );
    assert_eq!(
        failure("<e><s /></e>", "e:\n  s: \"[../..]\"\n"),
        PatchError::PathAboveRoot
    );
}

#[test]
fn replace_leaves_what_is_there() {
    assert_eq!(
        patched("<e><s>Foo</s></e>", "e:\n  $modify:\n    ~s: Bar\n    ~t: Baz\n"),
        "<e><s>Foo</s><t>Baz</t></e>"
    );
}

#[test]
fn modify_changes_every_child_of_the_name() {
    assert_eq!(
        patched(
            "<e><s>1</s><t /><s>2</s></e>",
            "e:\n  $modify:\n    s: x\n"
        ),
        "<e><s>x</s><t /><s>x</s></e>"
    );
}

#[test]
fn modify_then_copy_then_move() {
    assert_eq!(
        patched(
            "<e><s>Foo</s></e>",
            "e:\n  s:\n    $move: m/\n    $copy: c/\n    $modify:\n      k: 1\n"
        ),
        "<e><c><s>Foo<k>1</k></s></c><m><s>Foo<k>1</k></s></m></e>"
    );
}

#[test]
fn errors_of_the_patch_say_which() {
    let xml = "<e><s /><s /></e>";
    assert_eq!(failure("<e>", "e: x"), PatchError::MalformedXml);
    assert_eq!(failure(xml, "e: [unclosed"), PatchError::MalformedYaml);
    assert_eq!(failure(xml, "'(': x"), PatchError::InvalidPattern);
    assert_eq!(failure(xml, "e: 'a\\qb'"), PatchError::InvalidEscape);
    assert_eq!(failure(xml, "e: 'a]b'"), PatchError::UnmatchedClosingBracket);
    assert_eq!(failure(xml, "e: 'a[b'"), PatchError::UnterminatedReference);
    assert_eq!(failure(xml, "e: '[a:b:c]'"), PatchError::MalformedReference);
    assert_eq!(failure(xml, "e:\n  $move: 5\n"), PatchError::UnexpectedShape);
    assert_eq!(failure(xml, "5: x\n"), PatchError::UnexpectedShape);
    assert_eq!(failure(xml, "- x\n- y\n"), PatchError::SimpleValueInSequence);
    assert_eq!(
        failure(xml, "e:\n  $modify:\n    - x\n"),
        PatchError::SimpleValueInSequence
    );
    assert_eq!(
        failure(xml, "e:\n  s:\n    $move: \"[../s:0]\"\n"),
        PatchError::AmbiguousPath
    );
    assert_eq!(
        failure(xml, "e: s[./t:0]\n"),
        PatchError::PathNotFound
    );
    assert_eq!(failure(xml, "e: \"[./s]\"\n"), PatchError::AmbiguousPath);
    assert_eq!(
        failure("<e><s /></e>", "e: \"[./s]\"\n"),
        PatchError::NoAppliedRegex
    );
    assert_eq!(
        failure(xml, "e(x)?: \"[.:1]\"\n"),
        PatchError::MissingCaptureGroup
    );
    assert_eq!(
        failure(xml, "e: \"[.:nothing]\"\n"),
        PatchError::MissingCaptureGroup
    );
}

#[test]
fn messages_name_the_patch_where_it_is_at_fault() {
    assert_eq!(
        patch_xml("<e />".to_string(), "e: 'a]b'".to_string()).unwrap_err(),
        "Error while reading patch: Closing bracket without preceding opening bracket."
    );
    assert_eq!(
        patch_xml("<e />".to_string(), "e: \"[..]\"".to_string()).unwrap_err(),
        "Path reaches end of XML tree!"
    );
    assert_eq!(
        PatchError::MoveOfRoot.message(),
        "Root node is not allowed to be moved..."
    );
}

#[test]
fn filters_select_among_the_matches() {
    let xml = "<e><s><v>5</v></s><s><v>7</v></s><s><v>-3</v></s><s><v>x</v></s><s /></e>";
    assert_eq!(
        patched(xml, "e:\n  s:\n    $if:\n      v: '>=6'\n    $modify:\n      hit: 1\n"),
        "<e><s><v>5</v></s><s><v>7</v><hit>1</hit></s><s><v>-3</v></s><s><v>x</v></s><s /></e>"
    );
    assert_eq!(
        patched(xml, "e:\n  s:\n    $if:\n      $or:\n        - v: '<0'\n        - v: x\n    $modify:\n      hit: 1\n"),
        "<e><s><v>5</v></s><s><v>7</v></s><s><v>-3</v><hit>1</hit></s><s><v>x</v><hit>1</hit></s><s /></e>"
    );
    assert_eq!(
        patched("<e><s>5</s><t>5</t></e>", "e:\n  .*:\n    $if: '^s$'\n    $modify: hit\n"),
        "<e><s>hit</s><t>5</t></e>"
    );
    assert_eq!(
        patched("<e><s>5</s><s>6</s></e>", "e:\n  s:\n    $if: '!=5'\n    $modify: hit\n"),
        "<e><s>5</s><s>hit</s></e>"
    );
}
