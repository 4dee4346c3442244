use vstd::prelude::*;

verus! {

/// Used to seal the [crate::Base] trait.
pub trait BaseSealed {
}

} // verus!
