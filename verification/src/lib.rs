//! An incrementally maintained feature-encoding library for tabular and text
//! data.
//!
//! Rows of tagged values arrive and depart as signed updates (insertions and
//! retractions). Encoders are fitted against the current multiset of values
//! and transform each record independently, so a driver can maintain the
//! encoded output in time proportional to each change. The aggregates that
//! back the encoders are commutative groups: a retraction is folded in as the
//! exact inverse of the corresponding insertion.
//!
//! Scalars are exact rationals rather than binary floating point, so every
//! aggregate law holds exactly and every contract in this crate is proved.
//! A driver converts to floating point only at the very edge, after all
//! maintained state has been updated.

use vstd::prelude::*;

pub mod feature_encoders;
pub mod types;

verus! {

/// Everything that can go wrong inside the encoding core.
///
/// Errors are reported, never panicked: each public operation says in its
/// contract exactly on which inputs each variant is returned.
#[derive(Clone, Copy, Debug, PartialEq, Eq, Structural)]
pub enum EncodeError {
    /// `transform` was called before `fit` installed any metadata.
    NotFitted,
    /// A value of the wrong variant reached an encoder or an operation
    /// (for example a text value in a numeric scaler), or two values of
    /// different variants were compared.
    TypeMismatch,
    /// An aggregate was read while it summarized no records.
    EmptyAggregate,
    /// A scaler met a zero variance or a zero range, so the scaled value
    /// is undefined.
    DegenerateScale,
    /// A multi-column configuration contained no encoders.
    EmptyConfig,
    /// Exact arithmetic left the range of the machine integers that back it.
    Overflow,
}

} // verus!
