use vstd::prelude::*;

verus! {

/// Lists every value of an enum.
pub trait EnumValues: Sized {
    /// Return all the possible values from an enum, in declaration order.
    fn values() -> Vec<Self>;
}

} // verus!
