use vstd::prelude::*;

use crate::nibble::Nibble;

verus! {

/// The register values that a freshly created file holds: 16 zeroes.
pub open spec fn zeroed_registers() -> Seq<u8> {
    Seq::new(16, |i: int| 0u8)
}

/// Sixteen independent 8-bit general-purpose registers, indexed by
/// `Nibble`. Register 15 doubles as the flag register for carry, borrow
/// and sprite collision.
#[derive(Debug, PartialEq, Eq)]
pub struct Registers {
    pub(crate) cells: Vec<u8>,
}

impl Registers {
    #[verifier::type_invariant]
    pub(crate) open spec fn type_inv(self) -> bool {
        self.cells.len() == 16
    }

    /// The stored values, for use in specifications.
    pub open(crate) spec fn contents(&self) -> Seq<u8> {
        self.cells@
    }

    /// A zero-initialized register file.
    pub fn new() -> (r: Self)
        ensures
            r.contents() == zeroed_registers(),
    {
        let mut cells: Vec<u8> = Vec::new();
        let mut i: usize = 0;
        while i < 16
            invariant
                i <= 16,
                cells.len() == i,
                forall|j: int| 0 <= j < i ==> cells@[j] == 0u8,
            decreases 16 - i,
        {
            cells.push(0);
            i = i + 1;
        }
        proof {
            assert(cells@ =~= zeroed_registers());
        }
        Self { cells }
    }

    /// The value of register `index`.
    pub fn get(&self, index: Nibble) -> (r: u8)
        ensures
            r == self.contents()[index.value() as int],
    {
        proof {
            use_type_invariant(self);
            use_type_invariant(&index);
        }
        self.cells[index.as_usize()]
    }

    /// Sets register `index` to `value`, leaving the others unchanged.
    pub fn set(&mut self, index: Nibble, value: u8)
        ensures
            final(self).contents() == old(self).contents().update(
                index.value() as int,
                value,
            ),
    {
        proof {
            use_type_invariant(&*self);
            use_type_invariant(&index);
        }
        let i = index.as_usize();
        self.cells[i] = value;
    }
}

} // verus!
