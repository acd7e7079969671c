//! Compact numeric ids for errors.
//!
//! Every error layer maps its values onto a small range of `u8` ids for
//! lightweight diagnostic reporting.  A layer that wraps another layer's
//! errors offsets its own ids past the wrapped layer's maximum, so composed
//! layers never collide; the maximum itself is part of the interface.

use vstd::prelude::*;

verus! {

/// An error type with a compact numeric id.
///
/// `disc_spec` is the id of a value and `disc_max_spec` a strict upper bound
/// on all ids of the type; every implementation proves the bound in
/// `lemma_disc_in_range`.
pub trait Discriminant: Sized {
    /// The numeric id of this value.
    spec fn disc_spec(&self) -> int;

    /// A strict upper bound on every id of this type.
    spec fn disc_max_spec() -> int;

    /// Every id lies below the type's bound.
    proof fn lemma_disc_in_range(&self)
        ensures
            0 <= self.disc_spec() < Self::disc_max_spec(),
    ;

    /// The bound itself is never negative.
    proof fn lemma_disc_max_nonneg()
        ensures
            Self::disc_max_spec() >= 0,
    ;

    /// Returns the numeric id of this value.
    fn discriminant(&self) -> (r: u8)
        requires
            Self::disc_max_spec() <= 255,
        ensures
            r as int == self.disc_spec(),
    ;

    /// Returns the bound on this type's ids.
    fn discriminant_max() -> (r: u8)
        requires
            Self::disc_max_spec() <= 255,
        ensures
            r as int == Self::disc_max_spec(),
    ;
}

impl Discriminant for crate::bity::Error {
    open spec fn disc_spec(&self) -> int {
        match self {
            crate::bity::Error::BufferOverflow => 0,
            crate::bity::Error::BufferUnderflow => 1,
        }
    }

    open spec fn disc_max_spec() -> int {
        2
    }

    proof fn lemma_disc_in_range(&self) {
    }

    proof fn lemma_disc_max_nonneg() {
    }

    fn discriminant(&self) -> (r: u8) {
        match self {
            crate::bity::Error::BufferOverflow => 0,
            crate::bity::Error::BufferUnderflow => 1,
        }
    }

    fn discriminant_max() -> (r: u8) {
        2
    }
}

} // verus!
