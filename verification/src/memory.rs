use vstd::prelude::*;

use crate::address::Address;

verus! {

/// The byte sequence that a freshly created memory holds: 4096 zeroes.
pub open spec fn zeroed_memory() -> Seq<u8> {
    Seq::new(4096, |i: int| 0u8)
}

/// A fixed 4096-byte addressable array, reached only through `Address`
/// values, so every access is in bounds by construction.
#[derive(Debug, PartialEq, Eq)]
pub struct Memory {
    pub(crate) bytes: Vec<u8>,
}

impl Memory {
    #[verifier::type_invariant]
    pub(crate) open spec fn type_inv(self) -> bool {
        self.bytes.len() == 4096
    }

    /// The stored bytes, for use in specifications.
    pub open(crate) spec fn contents(&self) -> Seq<u8> {
        self.bytes@
    }

    /// A zero-initialized memory.
    pub fn new() -> (r: Self)
        ensures
            r.contents() == zeroed_memory(),
    {
        let mut bytes: Vec<u8> = Vec::new();
        let mut i: usize = 0;
        while i < 4096
            invariant
                i <= 4096,
                bytes.len() == i,
                forall|j: int| 0 <= j < i ==> bytes@[j] == 0u8,
            decreases 4096 - i,
        {
            bytes.push(0);
            i = i + 1;
        }
        proof {
            assert(bytes@ =~= zeroed_memory());
        }
        Self { bytes }
    }

    /// The byte stored at `address`.
    pub fn read(&self, address: Address) -> (r: u8)
        ensures
            r == self.contents()[address.value() as int],
    {
        proof {
            use_type_invariant(self);
            use_type_invariant(&address);
        }
        self.bytes[address.as_usize()]
    }

    /// Stores `value` at `address`, leaving every other byte unchanged.
    pub fn write(&mut self, address: Address, value: u8)
        ensures
            final(self).contents() == old(self).contents().update(
                address.value() as int,
                value,
            ),
    {
        proof {
            use_type_invariant(&*self);
            use_type_invariant(&address);
        }
        let i = address.as_usize();
        self.bytes[i] = value;
    }
}

} // verus!
