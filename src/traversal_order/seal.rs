use vstd::prelude::*;

verus! {

/// Keeps [`super::TraversalOrder`] closed: no type outside this crate can
/// implement `Sealed`, so none can implement the order trait either.
pub trait Sealed {}

impl Sealed for super::BreadthFirst {}

impl Sealed for super::DepthFirst {}

} // verus!
