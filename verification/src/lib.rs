//! Generation engine for tagged-union (sum) types with heterogeneous payloads.
//!
//! Given a schema describing a sum type's variants (names, payload shapes,
//! grouping metadata), the engine produces marker-type declarations, accessor
//! operations between the sum type and each variant's payload, a plain
//! per-variant dispatch construct, and grouped dispatch constructs over a
//! validated partition of the variant set.

pub mod ident;
pub mod laws;
pub mod marker;
pub mod accessor;
pub mod artifacts;
pub mod dispatch;
pub mod grouped;
pub mod grouping;
pub mod schema;
pub mod semantics;

use vstd::prelude::*;

verus! {

/// Owned access to one variant's payload, gated by that variant's marker type.
///
/// Generated code implements this once per (sum type, variant) pair; the
/// `VariantToken` parameter is the variant's marker type.
pub trait EnumVariantDowncast<VariantToken> {
    type Target;

    /// Consumes the enum and returns the target value if it matches the variant.
    fn downcast(self) -> Option<Self::Target>;
}

/// Read-only access to one variant's payload, gated by the variant's marker.
pub trait EnumVariantDowncastRef<VariantToken> {
    type Target<'target> where Self: 'target;

    /// Returns a reference wrapper for the target field if the enum is the target variant.
    fn downcast_ref(&self) -> Option<Self::Target<'_>>;
}

/// Mutable access to one variant's payload, gated by the variant's marker.
pub trait EnumVariantDowncastMut<VariantToken> {
    type Target<'target> where Self: 'target;

    /// Returns a mutable reference wrapper for the target field if the enum is the target variant.
    fn downcast_mut(&mut self) -> Option<Self::Target<'_>>;
}

/// Associates a constraint-trait type with one variant's marker.
pub trait EnumVariantConstraint<VariantToken> {
    type Constraint: 'static;
}

} // verus!
