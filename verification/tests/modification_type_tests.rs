use patch_xml::patch_structure::ModificationIdentifier;
use patch_xml::patch_structure::ModificationType;
use patch_xml::patch_structure::ReferenceExpression;

#[test]
fn modify() {
    assert_eq!(
        ModificationIdentifier::from("pattern").unwrap(),
        ModificationIdentifier {
            mod_type: ModificationType::Modify,
            identifier: ReferenceExpression::from("pattern").unwrap()
        }
    );
}

#[test]
fn add() {
    assert_eq!(
        ModificationIdentifier::from("+pattern").unwrap(),
        ModificationIdentifier {
            mod_type: ModificationType::Add,
            identifier: ReferenceExpression::from("pattern").unwrap()
        }
    );
}

#[test]
fn replace() {
    assert_eq!(
        ModificationIdentifier::from("~pattern").unwrap(),
        ModificationIdentifier {
            mod_type: ModificationType::Replace,
            identifier: ReferenceExpression::from("pattern").unwrap()
        }
    );
}
