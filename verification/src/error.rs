//! Why a record's declaration is refused.

use crate::conversion::ConversionSort;
use crate::state_filter::FilterError;
use vstd::prelude::*;

verus! {

/// A defect that ends generation. Fields, conversions and identifiers are
/// named by their place in the declaration.
#[derive(Clone, Copy, Debug, PartialEq, Eq, Structural)]
pub enum GenerationError {
    /// A type declared for the whole record is no path, so no field name comes of it.
    UnnamedExtraField { extra: usize },
    /// Two fields have the same name.
    DuplicateField { first: usize, second: usize },
    /// A conversion names a parameter that the record does not declare.
    UnresolvedParameter { field: usize, conversion: usize, ident: usize },
    /// Two types that fields can be taken as are the same type.
    AmbiguousConversion { one: ConversionSort, other: ConversionSort },
    /// No combination is registered for the fields asked for.
    MissingCombination,
    /// No remainder is registered for the fields left over.
    MissingRemainder,
}

/// A string that reads as `text`.
pub open spec fn spelled(text: Seq<char>) -> String {
    choose|s: String| s@ == text
}

fn spell(text: &str) -> (r: String)
    ensures
        r@ == spelled(text@)@,
{
    text.to_owned()
}

impl FilterError for GenerationError {
    open spec fn reads(&self) -> String {
        match *self {
            GenerationError::UnnamedExtraField { extra } => spelled(
                "no field name comes of a type declared for the whole record"@,
            ),
            GenerationError::DuplicateField { first, second } => spelled(
                "two fields have the same name"@,
            ),
            GenerationError::UnresolvedParameter { field, conversion, ident } => spelled(
                "a conversion names a parameter that the record does not declare"@,
            ),
            GenerationError::AmbiguousConversion { one, other } => spelled(
                "two fields can be taken as the same type"@,
            ),
            GenerationError::MissingCombination => spelled(
                "no combination is registered for these fields"@,
            ),
            GenerationError::MissingRemainder => spelled(
                "no remainder is registered for these fields"@,
            ),
        }
    }

    fn message(&self) -> (r: String) {
        match self {
            GenerationError::UnnamedExtraField { extra } => spell(
                "no field name comes of a type declared for the whole record",
            ),
            GenerationError::DuplicateField { first, second } => spell(
                "two fields have the same name",
            ),
            GenerationError::UnresolvedParameter { field, conversion, ident } => spell(
                "a conversion names a parameter that the record does not declare",
            ),
            GenerationError::AmbiguousConversion { one, other } => spell(
                "two fields can be taken as the same type",
            ),
            GenerationError::MissingCombination => spell(
                "no combination is registered for these fields",
            ),
            GenerationError::MissingRemainder => spell(
                "no remainder is registered for these fields",
            ),
        }
    }
}

} // verus!
