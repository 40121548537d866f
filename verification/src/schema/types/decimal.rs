//! The decimal type.

use crate::error::{ErrorKind, LqError};
use crate::ine_range::{I128IneRange, I8IneRange};
use crate::schema::metadata::Meta;
use vstd::prelude::*;

verus! {

/// A decimal number: a signed 128 bit coefficient times ten to the power of
/// a signed 8 bit exponent. On the wire a sequence of the two.
#[derive(Debug)]
pub struct TDecimal {
    pub meta: Meta,
    pub coefficient: I128IneRange,
    pub exponent: I8IneRange,
}

impl TDecimal {
    /// The decimals whose coefficient and exponent lie in the given ranges.
    pub fn new(coefficient: I128IneRange, exponent: I8IneRange) -> (t: Self)
        ensures
            t.meta.name is None && t.meta.doc is None,
            t.coefficient == coefficient,
            t.exponent == exponent,
    {
        TDecimal { meta: Meta::empty(), coefficient, exponent }
    }

    /// The decimals with a coefficient from `min_coefficient` to
    /// `max_coefficient` and an exponent from `min_exponent` to
    /// `max_exponent`; an error where a minimum is greater than its maximum.
    pub fn try_new(
        min_coefficient: i128,
        max_coefficient: i128,
        min_exponent: i8,
        max_exponent: i8,
    ) -> (r: Result<Self, LqError>)
        ensures
            r matches Ok(made) ==> made.meta.name is None && made.meta.doc is None,
            match r {
                Ok(t) => min_coefficient <= max_coefficient && min_exponent <= max_exponent
                    && t.coefficient.spec_start() == min_coefficient && t.coefficient.spec_end()
                    == max_coefficient && t.exponent.spec_start() == min_exponent
                    && t.exponent.spec_end() == max_exponent,
                Err(e) => !(min_coefficient <= max_coefficient && min_exponent <= max_exponent)
                    && e.kind == ErrorKind::Schema,
            },
    {
        let coefficient = I128IneRange::try_new(min_coefficient, max_coefficient)?;
        let exponent = I8IneRange::try_new(min_exponent, max_exponent)?;
        Ok(TDecimal::new(coefficient, exponent))
    }

    /// The range of the coefficient.
    pub fn coefficient(&self) -> (r: &I128IneRange)
        ensures
            *r == self.coefficient,
    {
        &self.coefficient
    }

    /// The range of the exponent.
    pub fn exponent(&self) -> (r: &I8IneRange)
        ensures
            *r == self.exponent,
    {
        &self.exponent
    }
}

} // verus!
