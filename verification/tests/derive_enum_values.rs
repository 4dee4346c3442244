use tools::derive_enum_values::{
    is_all_unit, is_recursion_possible, plan, recursive_steps, DeriveError, ItemShape, ValuesImpl,
    ValuesStep, VariantFields,
};
use tools::enums::EnumValues;

/// Check that the EnumValues derive picks the plain list for an enum with only unit variants
#[test]
fn test_only_unit() {
    // enum Values { Foo, Bar, Baz }
    let item = ItemShape::Enum(vec![VariantFields::Unit, VariantFields::Unit, VariantFields::Unit]);
    assert!(matches!(plan(&item), Ok(ValuesImpl::AllUnit)));
}

/// Check that the EnumValues derive picks the recursive implementation, one step per variant in
/// order, for an enum with unnamed variants whose single parameter type also implements EnumValues.
#[test]
fn test_recursion() {
    // enum ValuesOuter { Foo, Bar(ValuesInner), Baz }
    let outer = ItemShape::Enum(vec![
        VariantFields::Unit,
        VariantFields::Unnamed(1),
        VariantFields::Unit,
    ]);
    match plan(&outer) {
        Ok(ValuesImpl::Recursive(steps)) => assert_eq!(
            steps,
            vec![ValuesStep::Single, ValuesStep::Nested, ValuesStep::Single]
        ),
        _ => panic!("expected a recursive implementation"),
    }
    // enum ValuesInner { Oof, Rab }
    let inner = ItemShape::Enum(vec![VariantFields::Unit, VariantFields::Unit]);
    assert!(matches!(plan(&inner), Ok(ValuesImpl::AllUnit)));
}

#[test]
fn not_an_enum_is_refused() {
    assert_eq!(plan(&ItemShape::Other).err(), Some(DeriveError::NotAnEnum));
    assert_eq!(
        DeriveError::NotAnEnum.message(),
        "The enum_values macro is only supportet on enums"
    );
}

#[test]
fn unsupported_variants_are_refused() {
    let named = ItemShape::Enum(vec![VariantFields::Unit, VariantFields::Named]);
    assert_eq!(plan(&named).err(), Some(DeriveError::UnsupportedVariants));
    let two_fields = ItemShape::Enum(vec![VariantFields::Unnamed(2)]);
    assert_eq!(plan(&two_fields).err(), Some(DeriveError::UnsupportedVariants));
    let no_fields = ItemShape::Enum(vec![VariantFields::Unnamed(0)]);
    assert_eq!(plan(&no_fields).err(), Some(DeriveError::UnsupportedVariants));
    assert_eq!(
        DeriveError::UnsupportedVariants.message(),
        "EnumValues can only be implemented for enums with all unit variants."
    );
}

#[test]
fn empty_enum_is_all_unit() {
    assert!(is_all_unit(&[]));
    assert!(matches!(plan(&ItemShape::Enum(vec![])), Ok(ValuesImpl::AllUnit)));
}

#[test]
fn variant_checks() {
    assert!(!is_all_unit(&[VariantFields::Unit, VariantFields::Unnamed(1)]));
    assert!(is_recursion_possible(&[VariantFields::Unit, VariantFields::Unnamed(1)]));
    assert!(!is_recursion_possible(&[VariantFields::Named]));
    assert_eq!(
        recursive_steps(&[VariantFields::Unnamed(1), VariantFields::Unit]),
        vec![ValuesStep::Nested, ValuesStep::Single]
    );
}

#[derive(Debug, PartialEq)]
enum Letter {
    A,
    B,
}

impl EnumValues for Letter {
    fn values() -> Vec<Self> {
        vec![Letter::A, Letter::B]
    }
}

#[test]
fn enum_values_trait_lists_values() {
    assert_eq!(Letter::values(), vec![Letter::A, Letter::B]);
}
