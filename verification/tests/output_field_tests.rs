use patch_xml::output::Field;
use patch_xml::output::FieldMask;
use patch_xml::output::SvdConstant;

fn empty_field() -> Field {
    Field {
        derived_from: None,
        dim: None,
        dim_increment: None,
        dim_index: None,
        dim_name: None,
        dim_array_index: None,
        name: "".to_string(),
        description: None,
        bit_offset: None,
        bit_width: None,
        lsb: None,
        msb: None,
        bit_range: None,
        access: None,
        modified_write_values: None,
        write_constraint: None,
        read_action: None,
        enumerated_values: None,
    }
}

fn get_field_with_bitrange(bit_range: &str) -> Field {
    let mut field = empty_field();
    field.bit_range = Some(bit_range.to_string());
    field
}

#[test]
fn test_invalid_bitrange_regex() {
    let field = get_field_with_bitrange("invalid pattern");
    let result = field.try_to_get_mask();
    assert!(result.is_err());
    assert_eq!(result.err().unwrap(), "Invalid format for bit range pattern: Could not match regular expression: invalid pattern")
}

#[test]
fn test_invalid_bitrange_lsb_msb_to_number() {
    let field = get_field_with_bitrange("[an:345]");
    assert!(field.try_to_get_mask().is_err());
}

#[test]
fn test_no_mask_at_all() {
    let field = empty_field();
    assert_eq!(field.get_mask(), FieldMask::Unset)
}

#[test]
fn test_mask_offset_width() {
    let mut field = empty_field();
    field.bit_offset = Some(SvdConstant { value: 77 });
    field.bit_width = Some(SvdConstant { value: 88 });
    assert_eq!(
        field.get_mask(),
        FieldMask::OffsetWidth {
            offset: SvdConstant { value: 77 },
            width: Some(SvdConstant { value: 88 })
        }
    )
}

#[test]
fn test_mask_lsb_msb() {
    let mut field = empty_field();
    field.lsb = Some(SvdConstant { value: 77 });
    field.msb = Some(SvdConstant { value: 88 });
    assert_eq!(
        field.get_mask(),
        FieldMask::LsbMsb {
            lsb: SvdConstant { value: 77 },
            msb: SvdConstant { value: 88 }
        }
    )
}

#[test]
fn dummy_test() {
    assert_eq!(2, 2);
}
