use vstd::prelude::*;

use crate::errors::InterpreterError;

verus! {

/// The result of adding a signed offset to an address: the address space is
/// a ring of 4096 cells, so sums are reduced modulo 4096 and never fail.
pub open spec fn wrapped_address(a: int) -> int {
    a % 4096
}

/// A 12-bit memory address.
///
/// Every value of this type holds an integer in `[0, 4095]`; validated
/// construction rejects larger raw words, and offset addition wraps.
#[derive(Clone, Copy, Debug, PartialEq, Eq, Structural)]
pub struct Address(pub(crate) u16);

impl Address {
    #[verifier::type_invariant]
    pub(crate) open spec fn type_inv(self) -> bool {
        self.0 <= 4095
    }

    /// The numeric value, for use in specifications.
    pub open(crate) spec fn value(self) -> u16 {
        self.0
    }

    /// Builds the address `VALUE % 4096`.
    pub fn new<const VALUE: u16>() -> (r: Self)
        ensures
            r.value() == VALUE % 4096,
    {
        Self(VALUE % 4096)
    }

    /// Validated construction: succeeds exactly on raw words up to 4095.
    pub fn try_from(value: u16) -> (r: Result<Self, InterpreterError>)
        ensures
            r is Ok <==> value <= 4095,
            r matches Ok(a) ==> a.value() == value,
            r is Err ==> r == Err::<Address, InterpreterError>(InterpreterError::AddressOverflow),
    {
        if value > 4095 {
            return Err(InterpreterError::AddressOverflow);
        }
        Ok(Self(value))
    }

    pub fn as_u16(self) -> (r: u16)
        ensures
            r == self.value(),
    {
        self.0
    }

    pub fn as_usize(self) -> (r: usize)
        ensures
            r == self.value(),
    {
        self.0 as usize
    }

    /// Adds a signed offset on the 4096-cell ring: the result is
    /// `(self + rhs) mod 4096`, for every address and every offset.
    pub fn add_offset(self, rhs: i16) -> (r: Self)
        ensures
            r.value() as int == wrapped_address(self.value() + rhs),
    {
        proof {
            use_type_invariant(&self);
        }
        let shifted: u32 = (self.0 as u32) + ((rhs as i32 + 65536) as u32);
        let reduced: u16 = (shifted % 4096) as u16;
        proof {
            vstd::arithmetic::div_mod::lemma_mod_multiples_vanish(
                16,
                self.0 + rhs,
                4096,
            );
        }
        Self(reduced)
    }
}

} // verus!
