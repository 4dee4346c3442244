use vstd::prelude::*;

verus! {

/// The fields of one enum variant, by shape.
#[derive(Clone, Copy, Debug, PartialEq, Eq, Structural)]
pub enum VariantFields {
    /// `V { a: A, .. }`
    Named,
    /// `V(A, ..)`, with its number of fields.
    Unnamed(usize),
    /// `V`
    Unit,
}

/// The item that `EnumValues` is derived for.
pub enum ItemShape {
    /// An enum, with the fields of its variants in declaration order.
    Enum(Vec<VariantFields>),
    /// Any other item.
    Other,
}

/// What one variant contributes to the list of values, in declaration order.
#[derive(Clone, Copy, Debug, PartialEq, Eq, Structural)]
pub enum ValuesStep {
    /// The unit variant itself.
    Single,
    /// Every value of the variant's one field type, each wrapped in the variant.
    Nested,
}

/// The implementation of `EnumValues` to generate.
pub enum ValuesImpl {
    /// Every variant is a unit variant: the values are the variants in order.
    AllUnit,
    /// One step per variant, in declaration order.
    Recursive(Vec<ValuesStep>),
}

/// Why `EnumValues` cannot be derived for an item.
#[derive(Clone, Copy, Debug, PartialEq, Eq, Structural)]
pub enum DeriveError {
    /// The item is not an enum.
    NotAnEnum,
    /// Some variant has named fields, or more or fewer than one unnamed field.
    UnsupportedVariants,
}

/// A variant that may stand in the recursive implementation.
pub open spec fn unit_or_single_field(v: VariantFields) -> bool {
    v is Unit || v == VariantFields::Unnamed(1)
}

/// The step of a variant in the recursive implementation.
pub open spec fn step_for(v: VariantFields) -> ValuesStep {
    if v is Unit {
        ValuesStep::Single
    } else {
        ValuesStep::Nested
    }
}

/// Whether every variant is a unit variant.
pub fn is_all_unit(variants: &[VariantFields]) -> (r: bool)
    ensures
        r == (forall|k: int| 0 <= k < variants@.len() ==> variants@[k] is Unit),
{
    let mut k: usize = 0;
    while k < variants.len()
        invariant
            k <= variants@.len(),
            forall|j: int| 0 <= j < k ==> variants@[j] is Unit,
        decreases variants@.len() - k,
    {
        match variants[k] {
            VariantFields::Unit => {},
            _ => {
                return false;
            },
        }
        k = k + 1;
    }
    true
}

/// Whether every variant is a unit variant or has exactly one unnamed field,
/// whose type is expected to implement `EnumValues` itself.
pub fn is_recursion_possible(variants: &[VariantFields]) -> (r: bool)
    ensures
        r == (forall|k: int| 0 <= k < variants@.len() ==> unit_or_single_field(variants@[k])),
{
    let mut k: usize = 0;
    while k < variants.len()
        invariant
            k <= variants@.len(),
            forall|j: int| 0 <= j < k ==> unit_or_single_field(variants@[j]),
        decreases variants@.len() - k,
    {
        let ok = match variants[k] {
            // Named variants are not supported
            VariantFields::Named => false,
            // An unnamed variant must have only one field, which we expect to impl EnumValues
            VariantFields::Unnamed(n) => n == 1,
            VariantFields::Unit => true,
        };
        if !ok {
            return false;
        }
        k = k + 1;
    }
    true
}

/// The steps of the recursive implementation, one per variant in order.
pub fn recursive_steps(variants: &[VariantFields]) -> (r: Vec<ValuesStep>)
    requires
        forall|k: int| 0 <= k < variants@.len() ==> unit_or_single_field(variants@[k]),
    ensures
        r@ == variants@.map_values(|v: VariantFields| step_for(v)),
{
    let mut steps: Vec<ValuesStep> = Vec::new();
    let mut k: usize = 0;
    while k < variants.len()
        invariant
            k <= variants@.len(),
            steps@ == variants@.subrange(0, k as int).map_values(|v: VariantFields| step_for(v)),
        decreases variants@.len() - k,
    {
        let step = match variants[k] {
            VariantFields::Unit => ValuesStep::Single,
            _ => ValuesStep::Nested,
        };
        steps.push(step);
        k = k + 1;
        assert(steps@ =~= variants@.subrange(0, k as int).map_values(|v: VariantFields| step_for(v)));
    }
    assert(variants@.subrange(0, k as int) =~= variants@);
    steps
}

/// Decides which implementation of `EnumValues` to generate for an item, or
/// why none can be.
pub fn plan(item: &ItemShape) -> (r: Result<ValuesImpl, DeriveError>)
    ensures
        match item {
            ItemShape::Other => r == Err::<ValuesImpl, DeriveError>(DeriveError::NotAnEnum),
            ItemShape::Enum(variants) => if forall|k: int|
                0 <= k < variants@.len() ==> variants@[k] is Unit {
                r matches Ok(ValuesImpl::AllUnit)
            } else if forall|k: int|
                0 <= k < variants@.len() ==> unit_or_single_field(variants@[k]) {
                r matches Ok(ValuesImpl::Recursive(steps)) && steps@ == variants@.map_values(
                    |v: VariantFields| step_for(v),
                )
            } else {
                r == Err::<ValuesImpl, DeriveError>(DeriveError::UnsupportedVariants)
            },
        },
{
    match item {
        ItemShape::Enum(variants) => {
            if is_all_unit(variants.as_slice()) {
                Ok(ValuesImpl::AllUnit)
            } else if is_recursion_possible(variants.as_slice()) {
                Ok(ValuesImpl::Recursive(recursive_steps(variants.as_slice())))
            } else {
                Err(DeriveError::UnsupportedVariants)
            }
        },
        ItemShape::Other => Err(DeriveError::NotAnEnum),
    }
}

impl DeriveError {
    /// The message the derive reports.
    pub fn message(&self) -> (r: &'static str)
        ensures
            r@ == (match self {
                DeriveError::NotAnEnum => "The enum_values macro is only supportet on enums"@,
                DeriveError::UnsupportedVariants => "EnumValues can only be implemented for enums with all unit variants."@,
            }),
    {
        match self {
            DeriveError::NotAnEnum => "The enum_values macro is only supportet on enums",
            DeriveError::UnsupportedVariants => "EnumValues can only be implemented for enums with all unit variants.",
        }
    }
}

} // verus!
