//! Shaped arrays, scalars, and the promotion and broadcasting rules that
//! combine them.

use vstd::prelude::*;

pub mod array;
pub mod array_or_atom;
pub mod atom;
pub mod decimal;
pub mod generic_array;
pub mod generic_matching_nouns;
pub mod matching_nouns;
pub mod noun;
pub mod numeral;
pub mod promote;
pub mod shape;

verus! {

/// The element type of integer arrays and atoms.
pub type IntegerElt = i64;

/// The element type of decimal arrays and atoms.
pub type DecimalElt = decimal::Decimal;

} // verus!
