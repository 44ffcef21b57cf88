use vstd::prelude::*;

use crate::errors::InterpreterError;

verus! {

/// A 4-bit value: a register index or a 4-bit instruction field.
///
/// Every value of this type holds an integer in `[0, 15]`; the constructors
/// enforce the bound, so no consumer ever sees an invalid register index.
#[derive(Clone, Copy, Debug, PartialEq, Eq, Structural)]
pub struct Nibble(pub(crate) u8);

impl Nibble {
    #[verifier::type_invariant]
    pub(crate) open spec fn type_inv(self) -> bool {
        self.0 <= 15
    }

    /// The numeric value, for use in specifications.
    pub open(crate) spec fn value(self) -> u8 {
        self.0
    }

    /// Builds the nibble `VALUE % 16`.
    pub fn new<const VALUE: u8>() -> (r: Self)
        ensures
            r.value() == VALUE % 16,
    {
        Self(VALUE % 16)
    }

    /// Validated construction: succeeds exactly on raw bytes up to 15.
    pub fn try_from(value: u8) -> (r: Result<Self, InterpreterError>)
        ensures
            r is Ok <==> value <= 15,
            r matches Ok(n) ==> n.value() == value,
            r is Err ==> r == Err::<Nibble, InterpreterError>(InterpreterError::NibbleOverflow),
    {
        if value > 15 {
            return Err(InterpreterError::NibbleOverflow);
        }
        Ok(Self(value))
    }

    pub fn as_u8(self) -> (r: u8)
        ensures
            r == self.value(),
    {
        self.0
    }

    pub fn as_usize(self) -> (r: usize)
        ensures
            r == self.value(),
    {
        self.0 as usize
    }

    pub fn as_i16(self) -> (r: i16)
        ensures
            r == self.value(),
    {
        self.0 as i16
    }
}

} // verus!
